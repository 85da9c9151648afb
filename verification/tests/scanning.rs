use scout::scan::{extract_embedded_value, scan_json_value};

#[test]
fn balanced_scan_ignores_quoted_braces_and_trailing_text() {
    let input = "{\"a\":[1,2,{\"b\":\"x}y\"}]}REST";
    assert_eq!(
        scan_json_value(input),
        Some("{\"a\":[1,2,{\"b\":\"x}y\"}]}".to_string())
    );
}

#[test]
fn balanced_scan_rejects_mismatched_nesting() {
    assert_eq!(scan_json_value("{\"a\":[1,2}"), None);
}

#[test]
fn balanced_scan_rejects_unterminated_text() {
    assert_eq!(scan_json_value("{\"a\":[1,2]"), None);
}

#[test]
fn balanced_scan_handles_escapes() {
    assert_eq!(
        scan_json_value("{\"a\":\"q\\\"}\"}tail"),
        Some("{\"a\":\"q\\\"}\"}".to_string())
    );
}

#[test]
fn balanced_scan_skips_leading_whitespace() {
    assert_eq!(scan_json_value("  {\"k\":1} and more"), Some("{\"k\":1}".to_string()));
}

#[test]
fn balanced_scan_needs_an_opening_brace() {
    assert_eq!(scan_json_value("[1,2,3]"), None);
    assert_eq!(scan_json_value(""), None);
}

#[test]
fn embedded_value_is_found_after_the_marker() {
    let text = "prefix \"quoteSummary\" : {\"x\":[1,{\"y\":\"}\"}]} suffix";
    assert_eq!(
        extract_embedded_value(text, "\"quoteSummary\""),
        Some("{\"x\":[1,{\"y\":\"}\"}]}".to_string())
    );
}

#[test]
fn embedded_value_absent_without_marker() {
    assert_eq!(extract_embedded_value("no marker here {\"a\":1}", "\"quoteSummary\""), None);
}
