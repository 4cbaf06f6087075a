//! Tokenizer behaviour: quoting, escaping, and delimiter edge cases.

use markup_explorer::tokenizer::tokenize;

#[test]
fn parse_line() {
    // Space separated
    assert_eq!(tokenize("cat ~/file"), vec!["cat", "~/file"]);
    // Quoted
    assert_eq!(tokenize("cat \"~/file\""), vec!["cat", "~/file"]);
    // Quoted with embedded spaces
    assert_eq!(tokenize("cat \"quoted arg\""), vec!["cat", "quoted arg"]);
    // Escaped quotes
    assert_eq!(
        tokenize("cat \"arg with \\\"embedded\\\" quotes"),
        vec!["cat", "arg with \"embedded\" quotes"]
    );
    // Escaped spaces
    assert_eq!(
        tokenize("cat arg\\ with\\ escaped\\ spaces"),
        vec!["cat", "arg with escaped spaces"]
    );
}

#[test]
fn empty_line_yields_no_tokens() {
    assert_eq!(tokenize(""), Vec::<String>::new());
    assert_eq!(tokenize("   "), vec!["", "", ""]);
}

#[test]
fn consecutive_spaces_yield_empty_tokens() {
    assert_eq!(tokenize("a  b"), vec!["a", "", "b"]);
}

#[test]
fn trailing_space_drops_empty_final_token() {
    assert_eq!(tokenize("a "), vec!["a"]);
    assert_eq!(tokenize("a b "), vec!["a", "b"]);
}

#[test]
fn quoted_empty_token_is_kept() {
    assert_eq!(tokenize("a \"\""), vec!["a", ""]);
}

#[test]
fn closed_quote_before_delimiter_leaves_empty_token() {
    // The closing quote pushes the token, then the space pushes the empty
    // accumulation that follows it.
    assert_eq!(tokenize("\"a b\" c"), vec!["a b", "", "c"]);
}

#[test]
fn escaped_backslash_is_literal() {
    assert_eq!(tokenize("a\\\\b"), vec!["a\\b"]);
}

#[test]
fn unterminated_quote_is_accepted() {
    assert_eq!(tokenize("cat \"to the end"), vec!["cat", "to the end"]);
}

#[test]
fn trailing_escape_is_dropped() {
    assert_eq!(tokenize("ab\\"), vec!["ab"]);
}

#[test]
fn round_trip_of_plain_tokens() {
    // A joined line of space-free tokens, with only the last quoted for its
    // spaces, recovers the original tokens.
    assert_eq!(tokenize("alpha beta \"gamma delta\""), vec!["alpha", "beta", "gamma delta"]);
}
