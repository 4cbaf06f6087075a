//! The `find` command against real parsed documents.

use markup_explorer::interpreter::execute;
use markup_explorer::interpreter::Effect;
use markup_explorer::session::InterpreterError;
use markup_explorer::session::SessionState;

fn tokens(words: &[&str]) -> Vec<String> {
    words.iter().map(|w| w.to_string()).collect()
}

fn with_document(doc: &str) -> SessionState {
    SessionState {
        source_url: Some("http://example.test/".to_string()),
        document_text: Some(doc.to_string()),
        display_width: Some(80),
    }
}

const SIMPLE: &str = "<html><head></head><body><p>hi</p></body></html>";

#[test]
fn find_tag_body_prints_its_name() {
    let mut s = with_document(SIMPLE);
    let r = execute(&mut s, &tokens(&["find", "tag", "body", "name"]));
    assert_eq!(r.result, Ok(Effect::Stay));
    assert_eq!(r.output, vec!["body"]);
}

#[test]
fn find_missing_tag_fails_and_leaves_document() {
    let mut s = with_document(SIMPLE);
    let r = execute(&mut s, &tokens(&["find", "tag", "nonexistent"]));
    assert_eq!(
        r.result,
        Err(InterpreterError::NotFound("nonexistent".to_string()))
    );
    assert_eq!(r.output, Vec::<String>::new());
    assert_eq!(s.document_text, Some(SIMPLE.to_string()));
    assert_eq!(s.source_url, Some("http://example.test/".to_string()));
}

#[test]
fn find_tag_true_matches_the_first_node() {
    let mut s = with_document(SIMPLE);
    let r = execute(&mut s, &tokens(&["find", "tag", "true", "name"]));
    assert_eq!(r.result, Ok(Effect::Stay));
    assert_eq!(r.output, vec!["html"]);
}

#[test]
fn find_attrs_lists_attribute_names() {
    let mut s = with_document("<html><body><div id=\"x\" class=\"y\"></div></body></html>");
    let r = execute(&mut s, &tokens(&["find", "tag", "div", "attrs"]));
    assert_eq!(r.result, Ok(Effect::Stay));
    assert_eq!(r.output, vec!["class", "id"]);
}

#[test]
fn find_values_lists_attribute_pairs() {
    let mut s = with_document("<html><body><div id=\"x\" class=\"y\"></div></body></html>");
    let r = execute(&mut s, &tokens(&["find", "tag", "div", "values"]));
    assert_eq!(r.result, Ok(Effect::Stay));
    assert_eq!(r.output, vec!["class = y", "id = x"]);
}

#[test]
fn find_tree_lists_children_of_current_node() {
    let mut s = with_document(SIMPLE);
    let r = execute(&mut s, &tokens(&["find", "tag", "html", "tree"]));
    assert_eq!(r.result, Ok(Effect::Stay));
    assert_eq!(r.output, vec!["head", "body"]);
}

#[test]
fn find_tree_without_node_lists_root_children() {
    let mut s = with_document(SIMPLE);
    let r = execute(&mut s, &tokens(&["find", "tree"]));
    assert_eq!(r.result, Ok(Effect::Stay));
    assert_eq!(r.output, vec!["html"]);
}

#[test]
fn find_output_before_a_failure_is_kept() {
    let mut s = with_document(SIMPLE);
    let r = execute(&mut s, &tokens(&["find", "tag", "body", "name", "tag", "nonexistent"]));
    assert_eq!(
        r.result,
        Err(InterpreterError::NotFound("nonexistent".to_string()))
    );
    assert_eq!(r.output, vec!["body"]);
}

#[test]
fn find_name_without_node_fails() {
    let mut s = with_document(SIMPLE);
    let r = execute(&mut s, &tokens(&["find", "name"]));
    assert_eq!(r.result, Err(InterpreterError::NoCurrentNode));
}

#[test]
fn find_tag_without_argument_fails() {
    let mut s = with_document(SIMPLE);
    let r = execute(&mut s, &tokens(&["find", "tag"]));
    assert_eq!(r.result, Err(InterpreterError::Parse("".to_string())));
}

#[test]
fn find_unrecognized_keyword_fails() {
    let mut s = with_document(SIMPLE);
    let r = execute(&mut s, &tokens(&["find", "tag", "body", "bogus"]));
    assert_eq!(
        r.result,
        Err(InterpreterError::UnrecognizedParameter("bogus".to_string()))
    );
}

#[test]
fn find_without_document_fails() {
    let mut s = SessionState::new();
    let r = execute(&mut s, &tokens(&["find", "tag", "body"]));
    assert_eq!(r.result, Err(InterpreterError::NoDocument));
}

#[test]
fn find_without_sub_operations_succeeds() {
    let mut s = with_document(SIMPLE);
    let r = execute(&mut s, &tokens(&["find"]));
    assert_eq!(r.result, Ok(Effect::Stay));
    assert_eq!(r.output, Vec::<String>::new());
}
