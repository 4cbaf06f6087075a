//! Interpreter behaviour: `cols`, `head`, `url` and the fetch outcome, and
//! the error messages.

use markup_explorer::interpreter::apply_fetch;
use markup_explorer::interpreter::execute;
use markup_explorer::interpreter::Effect;
use markup_explorer::interpreter::FetchOutcome;
use markup_explorer::session::InterpreterError;
use markup_explorer::session::SessionState;

fn tokens(words: &[&str]) -> Vec<String> {
    words.iter().map(|w| w.to_string()).collect()
}

fn with_document(doc: &str) -> SessionState {
    SessionState {
        source_url: Some("http://example.test/".to_string()),
        document_text: Some(doc.to_string()),
        display_width: Some(80),
    }
}

#[test]
fn new_session_defaults() {
    let s = SessionState::new();
    assert_eq!(s.source_url, None);
    assert_eq!(s.document_text, None);
    assert_eq!(s.display_width, Some(80));
}

#[test]
fn empty_line_is_a_noop() {
    let mut s = SessionState::new();
    let r = execute(&mut s, &tokens(&[]));
    assert_eq!(r.output, Vec::<String>::new());
    assert_eq!(r.result, Ok(Effect::Stay));
    assert_eq!(s.display_width, Some(80));
}

#[test]
fn unknown_command_is_ignored() {
    let mut s = with_document("hello");
    let r = execute(&mut s, &tokens(&["frobnicate", "now"]));
    assert_eq!(r.output, Vec::<String>::new());
    assert_eq!(r.result, Ok(Effect::Stay));
    assert_eq!(s.document_text, Some("hello".to_string()));
}

#[test]
fn cols_sequence_disables_then_sets_width() {
    let mut s = with_document("0123456789ABC");
    let r = execute(&mut s, &tokens(&["cols", "max"]));
    assert_eq!(r.result, Ok(Effect::Stay));
    assert_eq!(s.display_width, None);
    // Truncation is disabled: the long line comes back whole.
    let r = execute(&mut s, &tokens(&["head", "1"]));
    assert_eq!(r.output, vec!["0123456789ABC"]);
    let r = execute(&mut s, &tokens(&["cols", "10"]));
    assert_eq!(r.result, Ok(Effect::Stay));
    assert_eq!(s.display_width, Some(10));
    // Width 10: 7 literal characters plus the three-dot ellipsis.
    let r = execute(&mut s, &tokens(&["head", "1"]));
    assert_eq!(r.output, vec!["0123456..."]);
}

#[test]
fn cols_accepts_plus_sign() {
    let mut s = SessionState::new();
    let r = execute(&mut s, &tokens(&["cols", "+12"]));
    assert_eq!(r.result, Ok(Effect::Stay));
    assert_eq!(s.display_width, Some(12));
}

#[test]
fn cols_without_argument_fails() {
    let mut s = SessionState::new();
    let r = execute(&mut s, &tokens(&["cols"]));
    assert_eq!(r.result, Err(InterpreterError::Parse("".to_string())));
    assert_eq!(s.display_width, Some(80));
}

#[test]
fn cols_rejects_non_numbers_and_zero() {
    let mut s = SessionState::new();
    let r = execute(&mut s, &tokens(&["cols", "wide"]));
    assert_eq!(r.result, Err(InterpreterError::Parse("wide".to_string())));
    let r = execute(&mut s, &tokens(&["cols", "0"]));
    assert_eq!(r.result, Err(InterpreterError::Parse("0".to_string())));
    assert_eq!(s.display_width, Some(80));
}

#[test]
fn head_prints_all_available_lines() {
    let mut s = with_document("one\ntwo");
    let r = execute(&mut s, &tokens(&["head", "3"]));
    assert_eq!(r.result, Ok(Effect::Stay));
    assert_eq!(r.output, vec!["one", "two"]);
}

#[test]
fn head_stops_at_the_bound() {
    let mut s = with_document("one\ntwo\nthree");
    let r = execute(&mut s, &tokens(&["head", "2"]));
    assert_eq!(r.output, vec!["one", "two"]);
}

#[test]
fn head_keeps_trailing_empty_line() {
    let mut s = with_document("one\n");
    let r = execute(&mut s, &tokens(&["head", "5"]));
    assert_eq!(r.output, vec!["one", ""]);
}

#[test]
fn head_truncates_to_width() {
    let mut s = with_document("exactly-ten\nshort");
    let r = execute(&mut s, &tokens(&["cols", "10"]));
    assert_eq!(r.result, Ok(Effect::Stay));
    let r = execute(&mut s, &tokens(&["head", "2"]));
    assert_eq!(r.output, vec!["exactly...", "short"]);
}

#[test]
fn head_without_document_fails() {
    let mut s = SessionState::new();
    let r = execute(&mut s, &tokens(&["head", "3"]));
    assert_eq!(r.result, Err(InterpreterError::NoDocument));
}

#[test]
fn head_with_bad_bound_fails() {
    let mut s = with_document("one");
    let r = execute(&mut s, &tokens(&["head", "many"]));
    assert_eq!(r.result, Err(InterpreterError::Parse("many".to_string())));
    let r = execute(&mut s, &tokens(&["head"]));
    assert_eq!(r.result, Err(InterpreterError::Parse("".to_string())));
}

#[test]
fn url_owes_a_fetch_and_records_nothing_yet() {
    let mut s = SessionState::new();
    let r = execute(&mut s, &tokens(&["url", "http://example.test/a"]));
    assert_eq!(r.result, Ok(Effect::FetchUrl("http://example.test/a".to_string())));
    assert_eq!(s.source_url, None);
    assert_eq!(s.document_text, None);
}

#[test]
fn url_without_argument_fails() {
    let mut s = SessionState::new();
    let r = execute(&mut s, &tokens(&["url"]));
    assert_eq!(r.result, Err(InterpreterError::Parse("".to_string())));
    assert_eq!(s.source_url, None);
}

#[test]
fn transport_failure_keeps_prior_document() {
    let mut s = with_document("kept");
    let failed = "http://example.test/down".to_string();
    let r = apply_fetch(&mut s, &failed, FetchOutcome::Transport("connection refused".to_string()));
    assert_eq!(r, Err(InterpreterError::Transport("connection refused".to_string())));
    assert_eq!(s.document_text, Some("kept".to_string()));
    assert_eq!(s.source_url, Some("http://example.test/".to_string()));
}

#[test]
fn server_error_keeps_prior_document() {
    let mut s = with_document("kept");
    let failed = "http://example.test/down".to_string();
    let r = apply_fetch(&mut s, &failed, FetchOutcome::Response(503, "oops".to_string()));
    assert_eq!(r, Err(InterpreterError::Server(503)));
    assert_eq!(s.document_text, Some("kept".to_string()));
    assert_eq!(s.source_url, Some("http://example.test/".to_string()));
}

#[test]
fn client_error_response_still_stores_body() {
    let mut s = with_document("old");
    let target = "http://example.test/missing".to_string();
    let r = apply_fetch(&mut s, &target, FetchOutcome::Response(404, "not found page".to_string()));
    assert_eq!(r, Ok(()));
    assert_eq!(s.document_text, Some("not found page".to_string()));
    assert_eq!(s.source_url, Some(target));
}

#[test]
fn successful_fetch_replaces_document_and_records_url() {
    let mut s = with_document("old");
    let target = "http://example.test/new".to_string();
    let r = apply_fetch(&mut s, &target, FetchOutcome::Response(200, "fresh".to_string()));
    assert_eq!(r, Ok(()));
    assert_eq!(s.document_text, Some("fresh".to_string()));
    assert_eq!(s.source_url, Some(target));
}

#[test]
fn error_messages() {
    assert_eq!(
        InterpreterError::NotFound("nav".to_string()).message(),
        "Unable to find tag nav"
    );
    assert_eq!(
        InterpreterError::UnrecognizedParameter("bogus".to_string()).message(),
        "Unrecognized param: bogus"
    );
    assert_eq!(InterpreterError::NoDocument.message(), "No contents available.");
    assert_eq!(InterpreterError::NoCurrentNode.message(), "No current node selected.");
    assert_eq!(
        InterpreterError::Parse("ten".to_string()).message(),
        "could not parse argument: ten"
    );
    assert_eq!(
        InterpreterError::Transport("timed out".to_string()).message(),
        "timed out"
    );
    assert_eq!(InterpreterError::Server(503).message(), "server error: 503");
}
