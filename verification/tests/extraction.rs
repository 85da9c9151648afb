use scout::errors::ScoutError;
use scout::extract::{scrape_financials_table, ExtractedTable, TableRow};
use scout::pipeline::{financials_url, on_financials_page, on_quote_page, quote_url, AfterFinancials};
use scout::render::render_table;

const TABLE_PAGE: &str = "<html><body><div data-testid=\"qsp-financials\">\
<div class=\"tableHeader\"><div class=\"row\">\
<div class=\"column\"> Breakdown </div><div class=\"column\"> TTM </div>\
</div></div>\
<div class=\"tableBody\">\
<div class=\"row\"><div class=\"column\"> Total Revenue </div><div class=\"column\">1,500,000</div></div>\
<div class=\"row\"><div class=\"column\"></div><div class=\"column\">ignored</div></div>\
</div></div></body></html>";

const BLOB_PAGE: &str = "<html><body><script>let a = 1;</script>\
<p>shell page</p>\
var state = {\"quoteSummary\":{\"result\":[{\"price\":{\"longName\":\"Reliance Industries Limited\",\"regularMarketPrice\":{\"fmt\":\"2,855.00\"}},\"summaryDetail\":{\"marketCap\":{\"raw\":1500000},\"trailingPE\":{\"fmt\":\"27.4\"}}}]}};\
</body></html>";

#[test]
fn table_scrape_collects_headers_and_labelled_rows() {
    let t = scrape_financials_table(TABLE_PAGE).unwrap();
    assert_eq!(t.headers, vec!["Breakdown".to_string(), "TTM".to_string()]);
    assert_eq!(t.rows.len(), 1);
    assert_eq!(t.rows[0].label, "Total Revenue");
    assert_eq!(t.rows[0].cells, vec!["1,500,000".to_string()]);
}

#[test]
fn table_scrape_fails_without_the_section() {
    assert!(scrape_financials_table(BLOB_PAGE).is_none());
}

#[test]
fn table_page_uses_the_scrape_and_never_the_fallback() {
    match on_financials_page("RELIANCE.NS", TABLE_PAGE) {
        AfterFinancials::RenderTable(lines) => {
            assert_eq!(lines.len(), 8);
            assert_eq!(lines[1], "Income Statement - RELIANCE.NS");
            assert_eq!(lines[3], format!("{:>40} | {:>14} |", "Breakdown", "TTM"));
            assert_eq!(lines[5], format!("{:>40} | {:>14} |", "Total Revenue", "1.50M"));
        },
        AfterFinancials::NeedQuotePage(_) => panic!("expected the table strategy"),
    }
}

#[test]
fn tableless_page_sends_the_caller_to_the_quote_page() {
    match on_financials_page("RELIANCE.NS", BLOB_PAGE) {
        AfterFinancials::RenderTable(_) => panic!("expected the fallback"),
        AfterFinancials::NeedQuotePage(url) => {
            assert_eq!(url, "https://finance.yahoo.com/quote/RELIANCE.NS");
        },
    }
}

#[test]
fn fallback_recovers_the_same_logical_data_from_the_blob() {
    let lines = on_quote_page("RELIANCE.NS", BLOB_PAGE).unwrap();
    assert!(lines.contains(&"=== Reliance Industries Limited (RELIANCE.NS) ===".to_string()));
    assert!(lines.contains(&"  Price: 2,855.00".to_string()));
    assert!(lines.contains(&"  Market Cap: 1.50M".to_string()));
    assert!(lines.contains(&"  Trailing PE: 27.4".to_string()));
}

#[test]
fn script_wrapped_payload_is_recovered() {
    let page = "<html><body><script type=\"application/json\">\
{\"status\":200,\"body\":\"{\\\"quoteSummary\\\":{\\\"result\\\":[{\\\"price\\\":{\\\"shortName\\\":\\\"TCS\\\"}}]}}\"}\
</script></body></html>";
    let lines = on_quote_page("TCS.NS", page).unwrap();
    assert!(lines.contains(&"=== TCS (TCS.NS) ===".to_string()));
}

#[test]
fn unrecognized_page_reports_the_drift() {
    let e = on_quote_page("X", "<html><body>nothing here</body></html>").unwrap_err();
    assert_eq!(e, ScoutError::UnrecognizedPageFormat);
}

#[test]
fn charts_and_income_statements_render_their_sections() {
    let page = "<html><body>{\"quoteSummary\":{\"result\":[{\
\"earnings\":{\"financialsChart\":{\
\"yearly\":[{\"date\":2024,\"revenue\":{\"raw\":1500000},\"earnings\":{\"raw\":-250}}],\
\"quarterly\":[{\"date\":\"2Q2024\",\"fiscalQuarter\":\"Q2\",\"revenue\":{\"raw\":2500000000},\"earnings\":{\"raw\":0}}]}},\
\"incomeStatementHistoryQuarterly\":{\"incomeStatementHistory\":[\
{\"endDate\":{\"fmt\":\"2024-06-30\"},\"totalRevenue\":{\"raw\":1000000000},\"netIncome\":{\"raw\":250000000}}]}\
}]}}</body></html>";
    let lines = on_quote_page("R.NS", page).unwrap();
    assert!(lines.contains(&"--- Revenue & Earnings (Annual) ---".to_string()));
    assert!(lines.contains(&"  2024: Revenue 1.50M  |  Earnings -250.00".to_string()));
    assert!(lines.contains(&"  2Q2024 (Q2): Revenue 2.50B  |  Earnings 0.00".to_string()));
    assert!(lines.contains(&"--- Income Statement (Quarterly) ---".to_string()));
    assert!(lines.contains(&"  2024-06-30: Revenue 1.00B  |  Net Income 250.00M".to_string()));
}

#[test]
fn end_to_end_reliance_yields_a_populated_report() {
    let rows = scout::catalog::parse_catalog(
        "SYMBOL,NAME\nRELIANCE,Reliance Industries Limited\n",
    );
    let t = scout::resolver::resolve_ticker(&rows, "Reliance Industries").unwrap();
    assert_eq!(t.symbol, "RELIANCE.NS");
    let url = financials_url(t.symbol.as_str());
    assert_eq!(url, "https://finance.yahoo.com/quote/RELIANCE.NS/financials");
    // a page with the table yields a populated rendering
    match on_financials_page(t.symbol.as_str(), TABLE_PAGE) {
        AfterFinancials::RenderTable(lines) => assert!(lines.len() > 0),
        AfterFinancials::NeedQuotePage(_) => panic!("expected the table strategy"),
    }
    // a page with only the blob yields a populated report too
    match on_financials_page(t.symbol.as_str(), BLOB_PAGE) {
        AfterFinancials::RenderTable(_) => panic!("expected the fallback"),
        AfterFinancials::NeedQuotePage(url2) => {
            assert_eq!(url2, quote_url(t.symbol.as_str()));
            let lines = on_quote_page(t.symbol.as_str(), BLOB_PAGE).unwrap();
            assert!(lines.len() > 0);
        },
    }
}

#[test]
fn rendered_table_is_aligned_and_ruled() {
    let headers = vec!["H1".to_string(), "H2".to_string()];
    let rows = vec![TableRow { label: "L".to_string(), cells: vec!["--".to_string()] }];
    let lines = render_table("T", &headers, &rows);
    let sep: String = std::iter::repeat('-').take(71).collect();
    assert_eq!(lines.len(), 8);
    assert_eq!(lines[0], "");
    assert_eq!(lines[1], "T");
    assert_eq!(lines[2], sep);
    assert_eq!(lines[3], format!("{:>40} | {:>14} |", "H1", "H2"));
    assert_eq!(lines[4], sep);
    assert_eq!(lines[5], format!("{:>40} | {:>14} |", "L", "-"));
    assert_eq!(lines[6], sep);
    assert_eq!(lines[7], "");
}

#[test]
fn long_labels_are_clipped_with_a_marker() {
    let headers = vec!["P".to_string(), "a-very-long-period-header".to_string()];
    let rows = vec![TableRow {
        label: "a label well beyond the forty character column width".to_string(),
        cells: vec!["1".to_string()],
    }];
    let lines = render_table("T", &headers, &rows);
    assert!(lines[3].contains("a-very-long-.."));
    assert!(lines[5].starts_with("a label well beyond the forty characte.."));
}

#[test]
fn empty_tables_render_nothing() {
    let none: Vec<TableRow> = Vec::new();
    let lines = render_table("T", &vec!["H".to_string()], &none);
    assert_eq!(lines.len(), 0);
    let t = ExtractedTable { headers: Vec::new(), rows: Vec::new() };
    assert_eq!(scout::render::render_extracted_table("T", &t).len(), 0);
}

#[test]
fn script_payload_precedes_the_raw_text_scan() {
    let page = "<html><body><script type=\"application/json\">\
{\"status\":200,\"body\":\"{\\\"quoteSummary\\\":{\\\"result\\\":[{\\\"price\\\":{\\\"shortName\\\":\\\"FROMSCRIPT\\\"}}]}}\"}\
</script>\
var s = {\"quoteSummary\":{\"result\":[{\"price\":{\"shortName\":\"FROMRAW\"}}]}};\
</body></html>";
    let lines = on_quote_page("S", page).unwrap();
    assert!(lines.contains(&"=== FROMSCRIPT (S) ===".to_string()));
    assert!(!lines.contains(&"=== FROMRAW (S) ===".to_string()));
}
