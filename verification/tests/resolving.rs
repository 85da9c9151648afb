use scout::catalog::parse_catalog;
use scout::errors::ScoutError;
use scout::resolver::{ensure_ns_suffix, resolve_ticker};
use scout::similarity::similarity_score_ppm;

const CATALOG: &str = "SYMBOL,NAME OF COMPANY,SERIES\n\
RELIANCE,Reliance Industries Limited,EQ\n\
TCS,Tata Consultancy Services Limited,EQ\n\
INFY,\"Infosys Limited\",EQ\n";

#[test]
fn catalog_parses_rows_after_header() {
    let rows = parse_catalog(CATALOG);
    assert_eq!(rows.len(), 3);
    assert_eq!(rows[0].symbol, "RELIANCE");
    assert_eq!(rows[0].name, "Reliance Industries Limited");
    assert_eq!(rows[2].symbol, "INFY");
    assert_eq!(rows[2].name, "Infosys Limited");
}

#[test]
fn catalog_skips_malformed_lines() {
    let rows = parse_catalog("H\nGOOD,Name\n\nnocomma\n,noname\n");
    assert_eq!(rows.len(), 1);
    assert_eq!(rows[0].symbol, "GOOD");
}

#[test]
fn exact_name_resolves_to_the_symbol_with_suffix() {
    let rows = parse_catalog(CATALOG);
    let t = resolve_ticker(&rows, "Reliance Industries Limited").unwrap();
    assert_eq!(t.symbol, "RELIANCE.NS");
    assert!(t.exchange_suffix_applied);
}

#[test]
fn resolution_is_case_insensitive() {
    let rows = parse_catalog(CATALOG);
    let t = resolve_ticker(&rows, "tata consultancy services limited").unwrap();
    assert_eq!(t.symbol, "TCS.NS");
}

#[test]
fn close_name_resolves_above_threshold() {
    let rows = parse_catalog(CATALOG);
    let t = resolve_ticker(&rows, "Reliance Industries").unwrap();
    assert_eq!(t.symbol, "RELIANCE.NS");
}

#[test]
fn unrelated_query_yields_no_confident_match() {
    let rows = parse_catalog(CATALOG);
    let e = resolve_ticker(&rows, "zzz qqq vvv").unwrap_err();
    assert_eq!(e, ScoutError::NoConfidentMatch);
}

#[test]
fn empty_catalog_yields_no_confident_match() {
    let rows = parse_catalog("HEADER ONLY");
    assert_eq!(rows.len(), 0);
    let e = resolve_ticker(&rows, "anything").unwrap_err();
    assert_eq!(e, ScoutError::NoConfidentMatch);
}

#[test]
fn suffixing_is_idempotent() {
    let (once, applied) = ensure_ns_suffix("TCS");
    assert_eq!(once, "TCS.NS");
    assert!(applied);
    let (twice, applied_again) = ensure_ns_suffix(once.as_str());
    assert_eq!(twice, "TCS.NS");
    assert!(!applied_again);
}

#[test]
fn scoring_matches_jaro_winkler_semantics() {
    assert_eq!(similarity_score_ppm("martha", "marhta"), 961111);
    assert_eq!(similarity_score_ppm("dixon", "dicksonx"), 813333);
    assert_eq!(similarity_score_ppm("a", "a"), 1000000);
    assert_eq!(similarity_score_ppm("", ""), 1000000);
    assert_eq!(similarity_score_ppm("a", "b"), 0);
    assert_eq!(similarity_score_ppm("", "x"), 0);
}

#[test]
fn scoring_folds_case_first() {
    assert_eq!(
        similarity_score_ppm("MARTHA", "marhta"),
        similarity_score_ppm("martha", "MARHTA")
    );
    assert_eq!(similarity_score_ppm("ABC", "abc"), 1000000);
}
