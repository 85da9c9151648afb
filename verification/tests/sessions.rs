use scout::errors::ScoutError;
use scout::session::{Session, MIN_FETCH_INTERVAL_MS};

fn fresh() -> Session {
    Session { crumb: None, last_request_ms: None, min_interval_ms: MIN_FETCH_INTERVAL_MS }
}

#[test]
fn first_fetch_passes_the_gate() {
    let mut s = fresh();
    assert!(s.gated_dispatch(1000).is_ok());
    assert_eq!(s.last_request_ms, Some(1000));
}

#[test]
fn second_fetch_within_the_interval_is_rate_limited() {
    let mut s = fresh();
    s.gated_dispatch(1000).unwrap();
    let e = s.gated_dispatch(31000).unwrap_err();
    assert_eq!(e, ScoutError::RateLimited { retry_after_ms: 30000 });
    // the refused fetch records nothing
    assert_eq!(s.last_request_ms, Some(1000));
}

#[test]
fn fetch_after_the_full_interval_passes() {
    let mut s = fresh();
    s.gated_dispatch(1000).unwrap();
    assert!(s.gated_dispatch(61000).is_ok());
    assert_eq!(s.last_request_ms, Some(61000));
}

#[test]
fn gate_reports_the_remaining_wait() {
    let mut s = fresh();
    s.gated_dispatch(0).unwrap();
    assert_eq!(s.check_gate(59999), Some(1));
    assert_eq!(s.check_gate(60000), None);
}

#[test]
fn bootstrap_requires_the_landing_page() {
    let e = Session::from_bootstrap(false, Some("abc".to_string())).unwrap_err();
    assert_eq!(e, ScoutError::SessionBootstrapFailed);
}

#[test]
fn bootstrap_trims_the_crumb_and_tolerates_its_absence() {
    let s = Session::from_bootstrap(true, Some("  tok3n\n".to_string())).unwrap();
    assert_eq!(s.crumb, Some("tok3n".to_string()));
    assert_eq!(s.last_request_ms, None);
    let t = Session::from_bootstrap(true, None).unwrap();
    assert_eq!(t.crumb, None);
    assert_eq!(t.require_crumb().unwrap_err(), ScoutError::MissingCredential);
    assert_eq!(s.require_crumb().unwrap(), "tok3n");
}

#[test]
fn rate_limited_message_names_the_wait() {
    let e = ScoutError::RateLimited { retry_after_ms: 30000 };
    assert_eq!(
        e.message(),
        "rate limited; retry after this many milliseconds: 30000"
    );
    let f = ScoutError::FetchFailed { status: Some(503) };
    assert_eq!(f.message(), "fetch failed with http status 503");
}
