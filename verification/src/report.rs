//! The three sub-reports pulled from the recovered JSON payload — company
//! and price summary, annual and quarterly revenue/earnings, quarterly
//! income statements — and their printable lines. The payload travels as
//! plain text and every field is read through a named pointer lookup, so the
//! walkers and the renderers both carry exact contracts.
use vstd::prelude::*;

use crate::errors::{spec_dec, spec_dec_i};
use crate::extract::{
    array_len_at_path, int_at_path, json_arr_len_at, json_has_at, json_i64_at, json_num_at,
    json_str_at, num_text_at_path, str_at_path, value_exists_at_path,
};
use crate::format::spec_format_cell;

verus! {

/// The company and price summary of a payload.
pub struct CompanySummary {
    pub display_name: String,
    pub symbol: String,
    pub price_fmt: Option<String>,
    /// Labels with already-rendered values.
    pub metrics: Vec<(String, String)>,
}

/// One year of the revenue/earnings chart.
pub struct YearlyEarnings {
    pub date: i64,
    pub revenue_raw: String,
    pub earnings_raw: String,
}

/// One quarter of the revenue/earnings chart.
pub struct QuarterlyEarnings {
    pub date: String,
    pub fiscal: String,
    pub revenue_raw: String,
    pub earnings_raw: String,
}

/// The revenue/earnings chart of a payload.
pub struct ChartData {
    pub yearly: Vec<YearlyEarnings>,
    pub quarterly: Vec<QuarterlyEarnings>,
}

/// One quarterly income statement of a payload.
pub struct IncomeStatementEntry {
    pub end_date: String,
    pub revenue_raw: String,
    pub net_income_raw: String,
}

pub open spec fn opt_view(o: Option<String>) -> Option<Seq<char>> {
    match o {
        Some(s) => Some(s@),
        None => None,
    }
}

pub open spec fn metrics_view(ms: Seq<(String, String)>) -> Seq<(Seq<char>, Seq<char>)> {
    ms.map_values(|m: (String, String)| (m.0@, m.1@))
}

pub open spec fn yearly_view(ys: Seq<YearlyEarnings>) -> Seq<(int, Seq<char>, Seq<char>)> {
    ys.map_values(|y: YearlyEarnings| (y.date as int, y.revenue_raw@, y.earnings_raw@))
}

pub open spec fn quarterly_view(qs: Seq<QuarterlyEarnings>) -> Seq<
    (Seq<char>, Seq<char>, Seq<char>, Seq<char>),
> {
    qs.map_values(|q: QuarterlyEarnings| (q.date@, q.fiscal@, q.revenue_raw@, q.earnings_raw@))
}

pub open spec fn income_view(es: Seq<IncomeStatementEntry>) -> Seq<
    (Seq<char>, Seq<char>, Seq<char>),
> {
    es.map_values(|e: IncomeStatementEntry| (e.end_date@, e.revenue_raw@, e.net_income_raw@))
}

/// The displayed company name: the payload's long name, else its short name,
/// else the symbol; a present key that is not a string also falls back to
/// the symbol.
pub open spec fn spec_display_name(doc: Seq<char>, symbol: Seq<char>) -> Seq<char> {
    if value_exists_at_path(doc, "/result/0/price/longName"@) {
        match str_at_path(doc, "/result/0/price/longName"@) {
            Some(n) => n,
            None => symbol,
        }
    } else if value_exists_at_path(doc, "/result/0/price/shortName"@) {
        match str_at_path(doc, "/result/0/price/shortName"@) {
            Some(n) => n,
            None => symbol,
        }
    } else {
        symbol
    }
}

/// The displayed price: present when the payload holds a market price, its
/// `fmt` text (or `-` when that is no string).
pub open spec fn spec_price_line(doc: Seq<char>) -> Option<Seq<char>> {
    if value_exists_at_path(doc, "/result/0/price/regularMarketPrice"@) {
        Some(
            match str_at_path(doc, "/result/0/price/regularMarketPrice/fmt"@) {
                Some(f) => f,
                None => "-"@,
            },
        )
    } else {
        None
    }
}

/// A metric shown as a rescaled magnitude: present when the payload holds a
/// number under the path.
pub open spec fn spec_raw_metric(doc: Seq<char>, label: Seq<char>, path: Seq<char>) -> Seq<
    (Seq<char>, Seq<char>),
> {
    match num_text_at_path(doc, path) {
        Some(raw) => seq![(label, spec_format_cell(raw))],
        None => Seq::empty(),
    }
}

/// A metric shown as the upstream's own `fmt` text.
pub open spec fn spec_fmt_metric(doc: Seq<char>, label: Seq<char>, path: Seq<char>) -> Seq<
    (Seq<char>, Seq<char>),
> {
    match str_at_path(doc, path) {
        Some(f) => seq![(label, f)],
        None => Seq::empty(),
    }
}

/// The summary metrics, in their fixed order.
pub open spec fn spec_metrics(doc: Seq<char>) -> Seq<(Seq<char>, Seq<char>)> {
    spec_raw_metric(doc, "Market Cap"@, "/result/0/summaryDetail/marketCap/raw"@)
        + spec_raw_metric(doc, "Volume"@, "/result/0/summaryDetail/volume/raw"@)
        + spec_fmt_metric(doc, "Trailing PE"@, "/result/0/summaryDetail/trailingPE/fmt"@)
        + spec_fmt_metric(doc, "Forward PE"@, "/result/0/summaryDetail/forwardPE/fmt"@)
        + spec_fmt_metric(doc, "Dividend Yield"@, "/result/0/summaryDetail/dividendYield/fmt"@)
}

pub open spec fn yearly_field_path(i: int, field: Seq<char>) -> Seq<char> {
    "/result/0/earnings/financialsChart/yearly/"@ + spec_dec(i) + field
}

pub open spec fn quarterly_field_path(i: int, field: Seq<char>) -> Seq<char> {
    "/result/0/earnings/financialsChart/quarterly/"@ + spec_dec(i) + field
}

pub open spec fn income_field_path(i: int, field: Seq<char>) -> Seq<char> {
    "/result/0/incomeStatementHistoryQuarterly/incomeStatementHistory/"@ + spec_dec(i) + field
}

/// One charted year: its date (zero when absent), and the revenue and
/// earnings number texts (zero when absent).
pub open spec fn spec_yearly_row(doc: Seq<char>, i: int) -> (int, Seq<char>, Seq<char>) {
    (
        match int_at_path(doc, yearly_field_path(i, "/date"@)) {
            Some(d) => d,
            None => 0,
        },
        match num_text_at_path(doc, yearly_field_path(i, "/revenue/raw"@)) {
            Some(t) => t,
            None => "0"@,
        },
        match num_text_at_path(doc, yearly_field_path(i, "/earnings/raw"@)) {
            Some(t) => t,
            None => "0"@,
        },
    )
}

/// The charted years: one row per element of the yearly array, empty when
/// the payload holds none (or no array) there.
pub open spec fn spec_yearly_rows(doc: Seq<char>) -> Seq<(int, Seq<char>, Seq<char>)> {
    match array_len_at_path(doc, "/result/0/earnings/financialsChart/yearly"@) {
        Some(n) => Seq::new(
            if n >= 0 {
                n as nat
            } else {
                0
            },
            |i: int| spec_yearly_row(doc, i),
        ),
        None => Seq::empty(),
    }
}

/// One charted quarter: its date text (`-` when absent), fiscal label
/// (empty when absent), and the revenue and earnings number texts.
pub open spec fn spec_quarterly_row(doc: Seq<char>, i: int) -> (
    Seq<char>,
    Seq<char>,
    Seq<char>,
    Seq<char>,
) {
    (
        match str_at_path(doc, quarterly_field_path(i, "/date"@)) {
            Some(d) => d,
            None => "-"@,
        },
        match str_at_path(doc, quarterly_field_path(i, "/fiscalQuarter"@)) {
            Some(f) => f,
            None => ""@,
        },
        match num_text_at_path(doc, quarterly_field_path(i, "/revenue/raw"@)) {
            Some(t) => t,
            None => "0"@,
        },
        match num_text_at_path(doc, quarterly_field_path(i, "/earnings/raw"@)) {
            Some(t) => t,
            None => "0"@,
        },
    )
}

/// The charted quarters.
pub open spec fn spec_quarterly_rows(doc: Seq<char>) -> Seq<
    (Seq<char>, Seq<char>, Seq<char>, Seq<char>),
> {
    match array_len_at_path(doc, "/result/0/earnings/financialsChart/quarterly"@) {
        Some(n) => Seq::new(
            if n >= 0 {
                n as nat
            } else {
                0
            },
            |i: int| spec_quarterly_row(doc, i),
        ),
        None => Seq::empty(),
    }
}

/// One income statement: its period end (`-` when absent) and the revenue
/// and net-income number texts.
pub open spec fn spec_income_row(doc: Seq<char>, i: int) -> (Seq<char>, Seq<char>, Seq<char>) {
    (
        match str_at_path(doc, income_field_path(i, "/endDate/fmt"@)) {
            Some(d) => d,
            None => "-"@,
        },
        match num_text_at_path(doc, income_field_path(i, "/totalRevenue/raw"@)) {
            Some(t) => t,
            None => "0"@,
        },
        match num_text_at_path(doc, income_field_path(i, "/netIncome/raw"@)) {
            Some(t) => t,
            None => "0"@,
        },
    )
}

/// The income statements, one per element of the history array.
pub open spec fn spec_income_rows(doc: Seq<char>) -> Seq<(Seq<char>, Seq<char>, Seq<char>)> {
    match array_len_at_path(
        doc,
        "/result/0/incomeStatementHistoryQuarterly/incomeStatementHistory"@,
    ) {
        Some(n) => Seq::new(
            if n >= 0 {
                n as nat
            } else {
                0
            },
            |i: int| spec_income_row(doc, i),
        ),
        None => Seq::empty(),
    }
}

/// Builds `prefix` + the decimal of `i` + `field`: the pointer path of one
/// array element's member.
pub(crate) fn indexed_path(prefix: &str, i: usize, field: &str) -> (r: String)
    ensures
        r@ == prefix@ + spec_dec(i as int) + field@,
{
    let mut p = prefix.to_owned();
    let num = crate::errors::dec_u64(i as u64);
    p.append(num.as_str());
    p.append(field);
    p
}

/// Appends a magnitude metric when the payload holds its number.
fn push_raw_metric(metrics: &mut Vec<(String, String)>, doc: &str, label: &str, path: &str)
    ensures
        metrics_view(final(metrics)@) == metrics_view(old(metrics)@) + spec_raw_metric(
            doc@,
            label@,
            path@,
        ),
{
    match json_num_at(doc, path) {
        Some(raw) => {
            let rendered = crate::format::format_cell(raw.as_str());
            metrics.push((label.to_owned(), rendered));
            proof {
                assert(metrics_view(metrics@) =~= metrics_view(old(metrics)@) + spec_raw_metric(
                    doc@,
                    label@,
                    path@,
                ));
            }
        },
        None => {
            proof {
                assert(metrics_view(metrics@) =~= metrics_view(old(metrics)@) + spec_raw_metric(
                    doc@,
                    label@,
                    path@,
                ));
            }
        },
    }
}

/// Appends a text metric when the payload holds its `fmt` string.
fn push_fmt_metric(metrics: &mut Vec<(String, String)>, doc: &str, label: &str, path: &str)
    ensures
        metrics_view(final(metrics)@) == metrics_view(old(metrics)@) + spec_fmt_metric(
            doc@,
            label@,
            path@,
        ),
{
    match json_str_at(doc, path) {
        Some(f) => {
            metrics.push((label.to_owned(), f));
            proof {
                assert(metrics_view(metrics@) =~= metrics_view(old(metrics)@) + spec_fmt_metric(
                    doc@,
                    label@,
                    path@,
                ));
            }
        },
        None => {
            proof {
                assert(metrics_view(metrics@) =~= metrics_view(old(metrics)@) + spec_fmt_metric(
                    doc@,
                    label@,
                    path@,
                ));
            }
        },
    }
}

/// Walks the payload for the company/price summary: present exactly when the
/// payload holds a first result entry; every field is read as
/// [`spec_display_name`], [`spec_price_line`] and [`spec_metrics`] name it.
pub fn company_summary_of(doc: &str, symbol: &str) -> (r: Option<CompanySummary>)
    ensures
        r is Some <==> value_exists_at_path(doc@, "/result/0"@),
        match r {
            Some(cs) => cs.symbol@ == symbol@ && cs.display_name@ == spec_display_name(
                doc@,
                symbol@,
            ) && opt_view(cs.price_fmt) == spec_price_line(doc@) && metrics_view(cs.metrics@)
                == spec_metrics(doc@),
            None => true,
        },
{
    if !json_has_at(doc, "/result/0") {
        return None;
    }
    let display_name = if json_has_at(doc, "/result/0/price/longName") {
        match json_str_at(doc, "/result/0/price/longName") {
            Some(n) => n,
            None => symbol.to_owned(),
        }
    } else if json_has_at(doc, "/result/0/price/shortName") {
        match json_str_at(doc, "/result/0/price/shortName") {
            Some(n) => n,
            None => symbol.to_owned(),
        }
    } else {
        symbol.to_owned()
    };
    let price_fmt = if json_has_at(doc, "/result/0/price/regularMarketPrice") {
        Some(
            match json_str_at(doc, "/result/0/price/regularMarketPrice/fmt") {
                Some(f) => f,
                None => "-".to_owned(),
            },
        )
    } else {
        None
    };
    let mut metrics: Vec<(String, String)> = Vec::new();
    proof {
        assert(metrics_view(metrics@) =~= Seq::<(Seq<char>, Seq<char>)>::empty());
    }
    push_raw_metric(&mut metrics, doc, "Market Cap", "/result/0/summaryDetail/marketCap/raw");
    push_raw_metric(&mut metrics, doc, "Volume", "/result/0/summaryDetail/volume/raw");
    push_fmt_metric(&mut metrics, doc, "Trailing PE", "/result/0/summaryDetail/trailingPE/fmt");
    push_fmt_metric(&mut metrics, doc, "Forward PE", "/result/0/summaryDetail/forwardPE/fmt");
    push_fmt_metric(
        &mut metrics,
        doc,
        "Dividend Yield",
        "/result/0/summaryDetail/dividendYield/fmt",
    );
    proof {
        assert(metrics_view(metrics@) =~= spec_metrics(doc@));
    }
    Some(CompanySummary { display_name, symbol: symbol.to_owned(), price_fmt, metrics })
}

/// Walks the payload for the revenue/earnings chart: present exactly when
/// the payload holds the chart object; the period rows are exactly
/// [`spec_yearly_rows`] and [`spec_quarterly_rows`].
#[verifier::loop_isolation(false)]
pub fn chart_data_of(doc: &str) -> (r: Option<ChartData>)
    ensures
        r is Some <==> value_exists_at_path(doc@, "/result/0/earnings/financialsChart"@),
        match r {
            Some(c) => yearly_view(c.yearly@) == spec_yearly_rows(doc@) && quarterly_view(
                c.quarterly@,
            ) == spec_quarterly_rows(doc@),
            None => true,
        },
{
    if !json_has_at(doc, "/result/0/earnings/financialsChart") {
        return None;
    }
    let mut yearly: Vec<YearlyEarnings> = Vec::new();
    match json_arr_len_at(doc, "/result/0/earnings/financialsChart/yearly") {
        Some(n) => {
            let mut i: usize = 0;
            while i < n
                invariant
                    i <= n,
                    array_len_at_path(
                        doc@,
                        "/result/0/earnings/financialsChart/yearly"@,
                    ) == Some(n as int),
                    yearly@.len() == i,
                    forall|t: int|
                        0 <= t < i ==> ((#[trigger] yearly@[t]).date as int,
                        yearly@[t].revenue_raw@, yearly@[t].earnings_raw@) == spec_yearly_row(
                            doc@,
                            t,
                        ),
                decreases n - i,
            {
                let date = match json_i64_at(
                    doc,
                    indexed_path(
                        "/result/0/earnings/financialsChart/yearly/",
                        i,
                        "/date",
                    ).as_str(),
                ) {
                    Some(d) => d,
                    None => 0,
                };
                let revenue_raw = match json_num_at(
                    doc,
                    indexed_path(
                        "/result/0/earnings/financialsChart/yearly/",
                        i,
                        "/revenue/raw",
                    ).as_str(),
                ) {
                    Some(t) => t,
                    None => "0".to_owned(),
                };
                let earnings_raw = match json_num_at(
                    doc,
                    indexed_path(
                        "/result/0/earnings/financialsChart/yearly/",
                        i,
                        "/earnings/raw",
                    ).as_str(),
                ) {
                    Some(t) => t,
                    None => "0".to_owned(),
                };
                yearly.push(YearlyEarnings { date, revenue_raw, earnings_raw });
                i = i + 1;
            }
        },
        None => {},
    }
    proof {
        assert forall|t: int|
            0 <= t < yearly_view(yearly@).len() implies yearly_view(yearly@)[t]
            == spec_yearly_rows(doc@)[t] by {
            assert(yearly_view(yearly@)[t] == (yearly@[t].date as int, yearly@[t].revenue_raw@,
            yearly@[t].earnings_raw@));
        }
        assert(yearly_view(yearly@) =~= spec_yearly_rows(doc@));
    }
    let mut quarterly: Vec<QuarterlyEarnings> = Vec::new();
    match json_arr_len_at(doc, "/result/0/earnings/financialsChart/quarterly") {
        Some(n) => {
            let mut i: usize = 0;
            while i < n
                invariant
                    i <= n,
                    array_len_at_path(
                        doc@,
                        "/result/0/earnings/financialsChart/quarterly"@,
                    ) == Some(n as int),
                    quarterly@.len() == i,
                    forall|t: int|
                        0 <= t < i ==> ((#[trigger] quarterly@[t]).date@, quarterly@[t].fiscal@,
                        quarterly@[t].revenue_raw@, quarterly@[t].earnings_raw@)
                            == spec_quarterly_row(doc@, t),
                decreases n - i,
            {
                let date = match json_str_at(
                    doc,
                    indexed_path(
                        "/result/0/earnings/financialsChart/quarterly/",
                        i,
                        "/date",
                    ).as_str(),
                ) {
                    Some(d) => d,
                    None => "-".to_owned(),
                };
                let fiscal = match json_str_at(
                    doc,
                    indexed_path(
                        "/result/0/earnings/financialsChart/quarterly/",
                        i,
                        "/fiscalQuarter",
                    ).as_str(),
                ) {
                    Some(f) => f,
                    None => "".to_owned(),
                };
                let revenue_raw = match json_num_at(
                    doc,
                    indexed_path(
                        "/result/0/earnings/financialsChart/quarterly/",
                        i,
                        "/revenue/raw",
                    ).as_str(),
                ) {
                    Some(t) => t,
                    None => "0".to_owned(),
                };
                let earnings_raw = match json_num_at(
                    doc,
                    indexed_path(
                        "/result/0/earnings/financialsChart/quarterly/",
                        i,
                        "/earnings/raw",
                    ).as_str(),
                ) {
                    Some(t) => t,
                    None => "0".to_owned(),
                };
                quarterly.push(QuarterlyEarnings { date, fiscal, revenue_raw, earnings_raw });
                i = i + 1;
            }
        },
        None => {},
    }
    proof {
        assert forall|t: int|
            0 <= t < quarterly_view(quarterly@).len() implies quarterly_view(quarterly@)[t]
            == spec_quarterly_rows(doc@)[t] by {
            assert(quarterly_view(quarterly@)[t] == (quarterly@[t].date@, quarterly@[t].fiscal@,
            quarterly@[t].revenue_raw@, quarterly@[t].earnings_raw@));
        }
        assert(quarterly_view(quarterly@) =~= spec_quarterly_rows(doc@));
    }
    Some(ChartData { yearly, quarterly })
}

/// Walks the payload for the quarterly income statements: present exactly
/// when the payload holds the history array; the entries are exactly
/// [`spec_income_rows`].
#[verifier::loop_isolation(false)]
pub fn income_entries_of(doc: &str) -> (r: Option<Vec<IncomeStatementEntry>>)
    ensures
        r is Some <==> array_len_at_path(
            doc@,
            "/result/0/incomeStatementHistoryQuarterly/incomeStatementHistory"@,
        ) is Some,
        match r {
            Some(es) => income_view(es@) == spec_income_rows(doc@),
            None => true,
        },
{
    let n = match json_arr_len_at(
        doc,
        "/result/0/incomeStatementHistoryQuarterly/incomeStatementHistory",
    ) {
        Some(n) => n,
        None => {
            return None;
        },
    };
    let mut entries: Vec<IncomeStatementEntry> = Vec::new();
    let mut i: usize = 0;
    while i < n
        invariant
            i <= n,
            array_len_at_path(
                doc@,
                "/result/0/incomeStatementHistoryQuarterly/incomeStatementHistory"@,
            ) == Some(n as int),
            entries@.len() == i,
            forall|t: int|
                0 <= t < i ==> ((#[trigger] entries@[t]).end_date@, entries@[t].revenue_raw@,
                entries@[t].net_income_raw@) == spec_income_row(doc@, t),
        decreases n - i,
    {
        let end_date = match json_str_at(
            doc,
            indexed_path(
                "/result/0/incomeStatementHistoryQuarterly/incomeStatementHistory/",
                i,
                "/endDate/fmt",
            ).as_str(),
        ) {
            Some(d) => d,
            None => "-".to_owned(),
        };
        let revenue_raw = match json_num_at(
            doc,
            indexed_path(
                "/result/0/incomeStatementHistoryQuarterly/incomeStatementHistory/",
                i,
                "/totalRevenue/raw",
            ).as_str(),
        ) {
            Some(t) => t,
            None => "0".to_owned(),
        };
        let net_income_raw = match json_num_at(
            doc,
            indexed_path(
                "/result/0/incomeStatementHistoryQuarterly/incomeStatementHistory/",
                i,
                "/netIncome/raw",
            ).as_str(),
        ) {
            Some(t) => t,
            None => "0".to_owned(),
        };
        entries.push(IncomeStatementEntry { end_date, revenue_raw, net_income_raw });
        i = i + 1;
    }
    proof {
        assert forall|t: int|
            0 <= t < income_view(entries@).len() implies income_view(entries@)[t]
            == spec_income_rows(doc@)[t] by {
            assert(income_view(entries@)[t] == (entries@[t].end_date@, entries@[t].revenue_raw@,
            entries@[t].net_income_raw@));
        }
        assert(income_view(entries@) =~= spec_income_rows(doc@));
    }
    Some(entries)
}

/// The line of one metric.
pub open spec fn spec_metric_line(label: Seq<char>, value: Seq<char>) -> Seq<char> {
    "  "@ + label + ": "@ + value
}

pub open spec fn metric_lines(ms: Seq<(Seq<char>, Seq<char>)>) -> Seq<Seq<char>>
    decreases ms.len(),
{
    if ms.len() == 0 {
        Seq::empty()
    } else {
        seq![spec_metric_line(ms.first().0, ms.first().1)] + metric_lines(ms.drop_first())
    }
}

/// The company/price summary lines: a blank line, the headline, the price
/// when present, then one line per metric.
pub open spec fn spec_company_lines(
    name: Seq<char>,
    symbol: Seq<char>,
    price: Option<Seq<char>>,
    metrics: Seq<(Seq<char>, Seq<char>)>,
) -> Seq<Seq<char>> {
    seq![Seq::<char>::empty(), "=== "@ + name + " ("@ + symbol + ") ==="@] + (match price {
        Some(p) => seq!["  Price: "@ + p],
        None => Seq::<Seq<char>>::empty(),
    }) + metric_lines(metrics)
}

/// Renders the company/price summary.
#[verifier::loop_isolation(false)]
pub fn company_lines(cs: &CompanySummary) -> (r: Vec<String>)
    ensures
        r@.map_values(|s: String| s@) == spec_company_lines(
            cs.display_name@,
            cs.symbol@,
            opt_view(cs.price_fmt),
            metrics_view(cs.metrics@),
        ),
{
    let ghost ms = metrics_view(cs.metrics@);
    let mut lines: Vec<String> = Vec::new();
    lines.push(String::new());
    let mut head = "=== ".to_owned();
    head.append(cs.display_name.as_str());
    head.append(" (");
    head.append(cs.symbol.as_str());
    head.append(") ===");
    lines.push(head);
    match &cs.price_fmt {
        Some(p) => {
            let mut pl = "  Price: ".to_owned();
            pl.append(p.as_str());
            lines.push(pl);
        },
        None => {},
    }
    let ghost head_model = seq![
        Seq::<char>::empty(),
        "=== "@ + cs.display_name@ + " ("@ + cs.symbol@ + ") ==="@,
    ] + (match &cs.price_fmt {
        Some(p) => seq!["  Price: "@ + p@],
        None => Seq::<Seq<char>>::empty(),
    });
    proof {
        reveal_strlit("");
        assert("".view() =~= Seq::<char>::empty());
        assert(lines@.map_values(|s: String| s@) =~= head_model);
        assert(ms.skip(0) =~= ms);
    }
    let n = cs.metrics.len();
    let mut i: usize = 0;
    while i < n
        invariant
            i <= n == cs.metrics@.len(),
            ms == metrics_view(cs.metrics@),
            ms.len() == n,
            lines@.map_values(|s: String| s@) + metric_lines(ms.skip(i as int)) =~= head_model
                + metric_lines(ms),
        decreases n - i,
    {
        proof {
            assert(ms.skip(i as int).first() == ms[i as int]);
            assert(ms[i as int] == (cs.metrics@[i as int].0@, cs.metrics@[i as int].1@));
            assert(ms.skip(i as int).drop_first() =~= ms.skip(i + 1));
        }
        let ghost pre = lines@.map_values(|s: String| s@);
        let mut ml = "  ".to_owned();
        ml.append(cs.metrics[i].0.as_str());
        ml.append(": ");
        ml.append(cs.metrics[i].1.as_str());
        lines.push(ml);
        proof {
            assert(lines@.map_values(|s: String| s@) =~= pre + seq![
                spec_metric_line(ms[i as int].0, ms[i as int].1),
            ]);
        }
        i = i + 1;
    }
    proof {
        assert(ms.skip(n as int) =~= Seq::<(Seq<char>, Seq<char>)>::empty());
        assert(lines@.map_values(|s: String| s@) =~= spec_company_lines(
            cs.display_name@,
            cs.symbol@,
            opt_view(cs.price_fmt),
            ms,
        ));
    }
    lines
}

/// The line of one charted year.
pub open spec fn spec_yearly_line(y: (int, Seq<char>, Seq<char>)) -> Seq<char> {
    "  "@ + spec_dec_i(y.0) + ": Revenue "@ + spec_format_cell(y.1) + "  |  Earnings "@
        + spec_format_cell(y.2)
}

pub open spec fn yearly_lines(ys: Seq<(int, Seq<char>, Seq<char>)>) -> Seq<Seq<char>>
    decreases ys.len(),
{
    if ys.len() == 0 {
        Seq::empty()
    } else {
        seq![spec_yearly_line(ys.first())] + yearly_lines(ys.drop_first())
    }
}

/// The line of one charted quarter.
pub open spec fn spec_quarterly_line(q: (Seq<char>, Seq<char>, Seq<char>, Seq<char>)) -> Seq<
    char,
> {
    "  "@ + q.0 + " ("@ + q.1 + "): Revenue "@ + spec_format_cell(q.2) + "  |  Earnings "@
        + spec_format_cell(q.3)
}

pub open spec fn quarterly_lines(
    qs: Seq<(Seq<char>, Seq<char>, Seq<char>, Seq<char>)>,
) -> Seq<Seq<char>>
    decreases qs.len(),
{
    if qs.len() == 0 {
        Seq::empty()
    } else {
        seq![spec_quarterly_line(qs.first())] + quarterly_lines(qs.drop_first())
    }
}

/// The chart lines: the annual section, then the quarterly section, each
/// under its heading.
pub open spec fn spec_chart_lines(
    ys: Seq<(int, Seq<char>, Seq<char>)>,
    qs: Seq<(Seq<char>, Seq<char>, Seq<char>, Seq<char>)>,
) -> Seq<Seq<char>> {
    seq![Seq::<char>::empty(), "--- Revenue & Earnings (Annual) ---"@] + yearly_lines(ys) + seq![
        Seq::<char>::empty(),
        "--- Revenue & Earnings (Quarterly) ---"@,
    ] + quarterly_lines(qs)
}

/// Renders the revenue/earnings chart.
#[verifier::loop_isolation(false)]
pub fn chart_lines(c: &ChartData) -> (r: Vec<String>)
    ensures
        r@.map_values(|s: String| s@) == spec_chart_lines(
            yearly_view(c.yearly@),
            quarterly_view(c.quarterly@),
        ),
{
    let ghost ys = yearly_view(c.yearly@);
    let ghost qs = quarterly_view(c.quarterly@);
    let mut lines: Vec<String> = Vec::new();
    proof {
        reveal_strlit("");
        assert("".view() =~= Seq::<char>::empty());
    }
    lines.push(String::new());
    lines.push("--- Revenue & Earnings (Annual) ---".to_owned());
    let ghost head1 = seq![Seq::<char>::empty(), "--- Revenue & Earnings (Annual) ---"@];
    proof {
        assert(lines@.map_values(|s: String| s@) =~= head1);
        assert(ys.skip(0) =~= ys);
    }
    let yn = c.yearly.len();
    let mut i: usize = 0;
    while i < yn
        invariant
            i <= yn == c.yearly@.len(),
            ys == yearly_view(c.yearly@),
            ys.len() == yn,
            lines@.map_values(|s: String| s@) + yearly_lines(ys.skip(i as int)) =~= head1
                + yearly_lines(ys),
        decreases yn - i,
    {
        proof {
            assert(ys.skip(i as int).first() == ys[i as int]);
            assert(ys[i as int] == (c.yearly@[i as int].date as int,
            c.yearly@[i as int].revenue_raw@, c.yearly@[i as int].earnings_raw@));
            assert(ys.skip(i as int).drop_first() =~= ys.skip(i + 1));
        }
        let ghost pre = lines@.map_values(|s: String| s@);
        let y = &c.yearly[i];
        let mut yl = "  ".to_owned();
        let date_text = crate::errors::dec_i64(y.date);
        yl.append(date_text.as_str());
        yl.append(": Revenue ");
        let rev = crate::format::format_cell(y.revenue_raw.as_str());
        yl.append(rev.as_str());
        yl.append("  |  Earnings ");
        let earn = crate::format::format_cell(y.earnings_raw.as_str());
        yl.append(earn.as_str());
        lines.push(yl);
        proof {
            assert(lines@.map_values(|s: String| s@) =~= pre + seq![
                spec_yearly_line(ys[i as int]),
            ]);
        }
        i = i + 1;
    }
    proof {
        assert(ys.skip(yn as int) =~= Seq::<(int, Seq<char>, Seq<char>)>::empty());
    }
    lines.push(String::new());
    lines.push("--- Revenue & Earnings (Quarterly) ---".to_owned());
    let ghost head2 = head1 + yearly_lines(ys) + seq![
        Seq::<char>::empty(),
        "--- Revenue & Earnings (Quarterly) ---"@,
    ];
    proof {
        assert(lines@.map_values(|s: String| s@) =~= head2);
        assert(qs.skip(0) =~= qs);
    }
    let qn = c.quarterly.len();
    let mut j: usize = 0;
    while j < qn
        invariant
            j <= qn == c.quarterly@.len(),
            qs == quarterly_view(c.quarterly@),
            qs.len() == qn,
            lines@.map_values(|s: String| s@) + quarterly_lines(qs.skip(j as int)) =~= head2
                + quarterly_lines(qs),
        decreases qn - j,
    {
        proof {
            assert(qs.skip(j as int).first() == qs[j as int]);
            assert(qs[j as int] == (c.quarterly@[j as int].date@, c.quarterly@[j as int].fiscal@,
            c.quarterly@[j as int].revenue_raw@, c.quarterly@[j as int].earnings_raw@));
            assert(qs.skip(j as int).drop_first() =~= qs.skip(j + 1));
        }
        let ghost pre = lines@.map_values(|s: String| s@);
        let q = &c.quarterly[j];
        let mut ql = "  ".to_owned();
        ql.append(q.date.as_str());
        ql.append(" (");
        ql.append(q.fiscal.as_str());
        ql.append("): Revenue ");
        let rev = crate::format::format_cell(q.revenue_raw.as_str());
        ql.append(rev.as_str());
        ql.append("  |  Earnings ");
        let earn = crate::format::format_cell(q.earnings_raw.as_str());
        ql.append(earn.as_str());
        lines.push(ql);
        proof {
            assert(lines@.map_values(|s: String| s@) =~= pre + seq![
                spec_quarterly_line(qs[j as int]),
            ]);
        }
        j = j + 1;
    }
    proof {
        assert(qs.skip(qn as int) =~= Seq::<(Seq<char>, Seq<char>, Seq<char>, Seq<char>)>::empty());
        assert(lines@.map_values(|s: String| s@) =~= spec_chart_lines(ys, qs));
    }
    lines
}

/// The line of one income statement.
pub open spec fn spec_income_line(e: (Seq<char>, Seq<char>, Seq<char>)) -> Seq<char> {
    "  "@ + e.0 + ": Revenue "@ + spec_format_cell(e.1) + "  |  Net Income "@ + spec_format_cell(
        e.2,
    )
}

pub open spec fn income_entry_lines(es: Seq<(Seq<char>, Seq<char>, Seq<char>)>) -> Seq<Seq<char>>
    decreases es.len(),
{
    if es.len() == 0 {
        Seq::empty()
    } else {
        seq![spec_income_line(es.first())] + income_entry_lines(es.drop_first())
    }
}

/// The income-statement lines, under their heading.
pub open spec fn spec_income_lines(es: Seq<(Seq<char>, Seq<char>, Seq<char>)>) -> Seq<Seq<char>> {
    seq![Seq::<char>::empty(), "--- Income Statement (Quarterly) ---"@] + income_entry_lines(es)
}

/// Renders the quarterly income statements.
#[verifier::loop_isolation(false)]
pub fn income_lines(entries: &Vec<IncomeStatementEntry>) -> (r: Vec<String>)
    ensures
        r@.map_values(|s: String| s@) == spec_income_lines(income_view(entries@)),
{
    let ghost es = income_view(entries@);
    let mut lines: Vec<String> = Vec::new();
    proof {
        reveal_strlit("");
        assert("".view() =~= Seq::<char>::empty());
    }
    lines.push(String::new());
    lines.push("--- Income Statement (Quarterly) ---".to_owned());
    let ghost head = seq![Seq::<char>::empty(), "--- Income Statement (Quarterly) ---"@];
    proof {
        assert(lines@.map_values(|s: String| s@) =~= head);
        assert(es.skip(0) =~= es);
    }
    let n = entries.len();
    let mut i: usize = 0;
    while i < n
        invariant
            i <= n == entries@.len(),
            es == income_view(entries@),
            es.len() == n,
            lines@.map_values(|s: String| s@) + income_entry_lines(es.skip(i as int)) =~= head
                + income_entry_lines(es),
        decreases n - i,
    {
        proof {
            assert(es.skip(i as int).first() == es[i as int]);
            assert(es[i as int] == (entries@[i as int].end_date@, entries@[i as int].revenue_raw@,
            entries@[i as int].net_income_raw@));
            assert(es.skip(i as int).drop_first() =~= es.skip(i + 1));
        }
        let ghost pre = lines@.map_values(|s: String| s@);
        let e = &entries[i];
        let mut el = "  ".to_owned();
        el.append(e.end_date.as_str());
        el.append(": Revenue ");
        let rev = crate::format::format_cell(e.revenue_raw.as_str());
        el.append(rev.as_str());
        el.append("  |  Net Income ");
        let net = crate::format::format_cell(e.net_income_raw.as_str());
        el.append(net.as_str());
        lines.push(el);
        proof {
            assert(lines@.map_values(|s: String| s@) =~= pre + seq![
                spec_income_line(es[i as int]),
            ]);
        }
        i = i + 1;
    }
    proof {
        assert(es.skip(n as int) =~= Seq::<(Seq<char>, Seq<char>, Seq<char>)>::empty());
        assert(lines@.map_values(|s: String| s@) =~= spec_income_lines(es));
    }
    lines
}

} // verus!
