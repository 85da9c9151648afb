//! The per-query pipeline, as decisions on plain values: the shell fetches
//! pages and hands the HTML in; this module picks the extraction strategy —
//! the structured table scrape first, the embedded-JSON recovery only when
//! the page offers no table — and renders the report lines.
use vstd::prelude::*;

use crate::errors::ScoutError;
use crate::extract::{array_len_at_path, spec_recover, spec_scrape_table, value_exists_at_path};
use crate::render::spec_render_table;
use crate::report::{
    income_view, metrics_view, opt_view, quarterly_view, spec_chart_lines, spec_company_lines,
    spec_display_name, spec_income_lines, spec_income_rows, spec_metrics, spec_price_line,
    spec_quarterly_rows, spec_yearly_rows, yearly_view,
};

verus! {

/// What to do after the financials page arrived: print the scraped table, or
/// fetch the quote page and try the embedded payload there.
pub enum AfterFinancials {
    RenderTable(Vec<String>),
    NeedQuotePage(String),
}

/// The financials page of a symbol.
pub fn financials_url(symbol: &str) -> (r: String)
    ensures
        r@ == "https://finance.yahoo.com/quote/"@ + symbol@ + "/financials"@,
{
    let mut u = "https://finance.yahoo.com/quote/".to_owned();
    u.append(symbol);
    u.append("/financials");
    u
}

/// The quote page of a symbol, the fallback source of the embedded payload.
pub fn quote_url(symbol: &str) -> (r: String)
    ensures
        r@ == "https://finance.yahoo.com/quote/"@ + symbol@,
{
    let mut u = "https://finance.yahoo.com/quote/".to_owned();
    u.append(symbol);
    u
}

/// The title over a rendered income statement.
pub fn income_title(symbol: &str) -> (r: String)
    ensures
        r@ == "Income Statement - "@ + symbol@,
{
    let mut t = "Income Statement - ".to_owned();
    t.append(symbol);
    t
}

/// Decides what follows the financials page: when the structured table
/// strategy succeeds, its rendering is final and the embedded-JSON fallback
/// is never consulted; only a page without a usable table sends the caller
/// on to the quote page. The table's first header titles the label column
/// and the remaining headers title the period value columns.
pub fn on_financials_page(symbol: &str, html: &str) -> (r: AfterFinancials)
    ensures
        match r {
            AfterFinancials::RenderTable(lines) => spec_scrape_table(html@) matches Some(t)
                && lines@.map_values(|s: String| s@) == spec_render_table(
                "Income Statement - "@ + symbol@,
                t.0,
                t.1,
            ),
            AfterFinancials::NeedQuotePage(url) => spec_scrape_table(html@) is None && url@
                == "https://finance.yahoo.com/quote/"@ + symbol@,
        },
{
    match crate::extract::scrape_financials_table(html) {
        Some(table) => {
            let title = income_title(symbol);
            let lines = crate::render::render_table(title.as_str(), &table.headers, &table.rows);
            AfterFinancials::RenderTable(lines)
        },
        None => AfterFinancials::NeedQuotePage(quote_url(symbol)),
    }
}

/// The report rendered from a recovered payload: the company/price summary
/// when the payload holds a result entry, the revenue/earnings chart when it
/// holds the chart, the income statements when it holds the history array —
/// each section simply omitted when absent.
pub open spec fn spec_quote_report(doc: Seq<char>, symbol: Seq<char>) -> Seq<Seq<char>> {
    (if value_exists_at_path(doc, "/result/0"@) {
        spec_company_lines(
            spec_display_name(doc, symbol),
            symbol,
            spec_price_line(doc),
            spec_metrics(doc),
        )
    } else {
        Seq::<Seq<char>>::empty()
    }) + (if value_exists_at_path(doc, "/result/0/earnings/financialsChart"@) {
        spec_chart_lines(spec_yearly_rows(doc), spec_quarterly_rows(doc))
    } else {
        Seq::<Seq<char>>::empty()
    }) + (if array_len_at_path(
        doc,
        "/result/0/incomeStatementHistoryQuarterly/incomeStatementHistory"@,
    ) is Some {
        spec_income_lines(spec_income_rows(doc))
    } else {
        Seq::<Seq<char>>::empty()
    })
}

/// Builds the report from the quote page: recovers the embedded payload —
/// script elements first, then the balanced-delimiter scan — and renders
/// exactly the sections the payload holds. Fails with
/// `UnrecognizedPageFormat` exactly when no strategy recovers a payload.
pub fn on_quote_page(symbol: &str, html: &str) -> (r: Result<Vec<String>, ScoutError>)
    ensures
        match r {
            Ok(lines) => spec_recover(html@) matches Some(doc) && lines@.map_values(
                |s: String| s@,
            ) == spec_quote_report(doc, symbol@),
            Err(e) => e == ScoutError::UnrecognizedPageFormat && spec_recover(html@) is None,
        },
{
    let payload = match crate::extract::recover_quote_summary(html) {
        Some(doc) => doc,
        None => {
            return Err(ScoutError::UnrecognizedPageFormat);
        },
    };
    let doc = payload.as_str();
    let mut lines: Vec<String> = Vec::new();
    let ghost company_part = if value_exists_at_path(doc@, "/result/0"@) {
        spec_company_lines(
            spec_display_name(doc@, symbol@),
            symbol@,
            spec_price_line(doc@),
            spec_metrics(doc@),
        )
    } else {
        Seq::<Seq<char>>::empty()
    };
    match crate::report::company_summary_of(doc, symbol) {
        Some(cs) => {
            let mut section = crate::report::company_lines(&cs);
            lines.append(&mut section);
        },
        None => {},
    }
    proof {
        assert(lines@.map_values(|s: String| s@) =~= company_part);
    }
    match crate::report::chart_data_of(doc) {
        Some(chart) => {
            let ghost pre = lines@.map_values(|s: String| s@);
            let mut section = crate::report::chart_lines(&chart);
            let ghost sec = section@.map_values(|s: String| s@);
            lines.append(&mut section);
            proof {
                assert(lines@.map_values(|s: String| s@) =~= pre + sec);
            }
        },
        None => {},
    }
    let ghost chart_part = if value_exists_at_path(
        doc@,
        "/result/0/earnings/financialsChart"@,
    ) {
        spec_chart_lines(spec_yearly_rows(doc@), spec_quarterly_rows(doc@))
    } else {
        Seq::<Seq<char>>::empty()
    };
    proof {
        assert(lines@.map_values(|s: String| s@) =~= company_part + chart_part);
    }
    match crate::report::income_entries_of(doc) {
        Some(entries) => {
            let ghost pre = lines@.map_values(|s: String| s@);
            let mut section = crate::report::income_lines(&entries);
            let ghost sec = section@.map_values(|s: String| s@);
            lines.append(&mut section);
            proof {
                assert(lines@.map_values(|s: String| s@) =~= pre + sec);
            }
        },
        None => {},
    }
    proof {
        assert(lines@.map_values(|s: String| s@) =~= spec_quote_report(doc@, symbol@));
    }
    Ok(lines)
}

/// A recovered payload that holds a result entry always renders a populated
/// report: the company section alone contributes its blank line and its
/// headline. Together with [`on_quote_page`]'s contract, a query that
/// reaches the fallback comes back empty only when the upstream payload
/// truly lacks every section.
pub proof fn lemma_quote_report_populated(doc: Seq<char>, symbol: Seq<char>)
    requires
        value_exists_at_path(doc, "/result/0"@),
    ensures
        spec_quote_report(doc, symbol).len() >= 2,
{
}

/// A scraped table always renders a populated report, as long as it is
/// narrow enough to render at all: the frame alone is seven lines.
pub proof fn lemma_table_rendering_populated(
    title: Seq<char>,
    t: (Seq<Seq<char>>, Seq<(Seq<char>, Seq<Seq<char>>)>),
)
    requires
        t.0.len() >= 1,
        t.0.len() <= crate::render::MAX_RENDER_COLUMNS,
        t.1.len() >= 1,
    ensures
        spec_render_table(title, t.0, t.1).len() >= 8,
{
    crate::render::lemma_row_lines_len(t.1);
}

} // verus!
