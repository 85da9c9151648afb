use scout::agent::{collect_stream_tokens, intent_prompt};
use scout::errors::ScoutError;

#[test]
fn stream_tokens_concatenate_in_order() {
    let answer = "{\"response\":\"Hel\"}\n{\"response\":\"lo\"}\n\n{\"done\":true}";
    assert_eq!(collect_stream_tokens(answer).unwrap(), "Hello");
}

#[test]
fn blank_lines_are_skipped() {
    let answer = "\n   \n{\"response\":\"x\"}\n";
    assert_eq!(collect_stream_tokens(answer).unwrap(), "x");
}

#[test]
fn a_broken_line_stops_the_stream() {
    let answer = "{\"response\":\"a\"}\nnot json at all\n";
    assert_eq!(collect_stream_tokens(answer).unwrap_err(), ScoutError::MalformedJson);
}

#[test]
fn objects_without_a_response_contribute_nothing() {
    let answer = "{\"other\":1}\n{\"response\":\"ok\"}";
    assert_eq!(collect_stream_tokens(answer).unwrap(), "ok");
}

#[test]
fn the_prompt_carries_the_question() {
    let p = intent_prompt("what about Reliance?");
    assert!(p.ends_with("User question: what about Reliance?"));
    assert!(p.starts_with("You are a financial query parser."));
}
