//! Splitting one input line into shell-like tokens.
//!
//! The scan is a single left-to-right pass over the characters of the line
//! with two flags, crossing quoted x escaped:
//!
//! - an escaped character is appended to the current token literally,
//!   whatever it is;
//! - an unescaped backslash sets the escape flag and is itself dropped;
//! - an unescaped double quote closes the quoted region when one is open,
//!   pushing the current token even if it is empty, and opens one otherwise;
//! - an unescaped space outside quotes pushes the current token, even if it
//!   is empty, so consecutive spaces yield empty tokens between them;
//! - every other character is appended to the current token.
//!
//! At the end of the line, whatever has accumulated is pushed only if it is
//! non-empty: a trailing space produces no trailing empty token.  An
//! unterminated quote or a trailing unresolved escape is accepted silently.

use crate::text::push_char;
use vstd::prelude::*;

verus! {

/// The scan of the rest of a line, from a mid-line state: `quoted` and
/// `escaped` are the two flags, `cur` the token accumulated so far, `acc` the
/// tokens already pushed.
pub open spec fn spec_scan(
    line: Seq<char>,
    quoted: bool,
    escaped: bool,
    cur: Seq<char>,
    acc: Seq<Seq<char>>,
) -> Seq<Seq<char>>
    decreases line.len(),
{
    if line.len() == 0 {
        if cur.len() > 0 {
            acc.push(cur)
        } else {
            acc
        }
    } else {
        let c = line[0];
        let rest = line.drop_first();
        if escaped {
            spec_scan(rest, quoted, false, cur.push(c), acc)
        } else if c == '\\' {
            spec_scan(rest, quoted, true, cur, acc)
        } else if quoted && c == '"' {
            spec_scan(rest, false, false, Seq::empty(), acc.push(cur))
        } else if c == '"' {
            spec_scan(rest, true, false, cur, acc)
        } else if !quoted && c == ' ' {
            spec_scan(rest, false, false, Seq::empty(), acc.push(cur))
        } else {
            spec_scan(rest, quoted, false, cur.push(c), acc)
        }
    }
}

/// The tokens of a whole line: the scan started outside quotes, with nothing
/// escaped and nothing accumulated.
pub open spec fn spec_tokenize(line: Seq<char>) -> Seq<Seq<char>> {
    spec_scan(line, false, false, Seq::empty(), Seq::empty())
}

/// Splits a line into tokens, exactly as [`spec_tokenize`] describes.  Never
/// fails: a malformed line yields whatever tokens accumulated.
pub fn tokenize(line: &str) -> (tokens: Vec<String>)
    ensures
        tokens.deep_view() == spec_tokenize(line@),
{
    let n: usize = line.unicode_len();
    let mut args: Vec<String> = Vec::new();
    let mut cur: String = String::new();
    let mut quoted: bool = false;
    let mut escaped: bool = false;
    let mut i: usize = 0;
    proof {
        assert(line@.skip(0) =~= line@);
        assert(args.deep_view() =~= Seq::<Seq<char>>::empty());
    }
    while i < n
        invariant
            n == line@.len(),
            i <= n,
            spec_scan(line@.skip(i as int), quoted, escaped, cur@, args.deep_view())
                == spec_tokenize(line@),
        decreases n - i,
    {
        let c = line.get_char(i);
        let ghost pre_args = args.deep_view();
        let ghost pre_cur = cur@;
        proof {
            assert(line@.skip(i as int)[0] == line@[i as int]);
            assert(line@.skip(i as int).drop_first() =~= line@.skip(i as int + 1));
        }
        if escaped {
            push_char(&mut cur, c);
            escaped = false;
        } else if c == '\\' {
            escaped = true;
        } else if quoted && c == '"' {
            quoted = false;
            args.push(cur);
            cur = String::new();
        } else if c == '"' {
            quoted = true;
        } else if !quoted && c == ' ' {
            args.push(cur);
            cur = String::new();
        } else {
            push_char(&mut cur, c);
        }
        proof {
            assert(args.deep_view() =~= pre_args || args.deep_view() =~= pre_args.push(pre_cur));
        }
        i = i + 1;
    }
    proof {
        assert(line@.skip(n as int) =~= Seq::<char>::empty());
    }
    if cur.as_str().unicode_len() > 0 {
        args.push(cur);
        proof {
            assert(args.deep_view() =~= spec_tokenize(line@));
        }
    }
    args
}

/// A character with no role in the scan: not a backslash, a quote or a space.
pub open spec fn plain_char(c: char) -> bool {
    c != '\\' && c != '"' && c != ' '
}

/// A token free of backslashes and double quotes.
pub open spec fn unescaped_token(t: Seq<char>) -> bool {
    forall|i: int| 0 <= i < t.len() ==> t[i] != '\\' && t[i] != '"'
}

/// How a token is written back into a line: wrapped in double quotes when it
/// contains a space, bare otherwise.
pub open spec fn spec_quote_token(t: Seq<char>) -> Seq<char> {
    if t.contains(' ') {
        seq!['"'] + t + seq!['"']
    } else {
        t
    }
}

/// A line built back from tokens: each token written by [`spec_quote_token`],
/// joined with single spaces.
pub open spec fn spec_join(tokens: Seq<Seq<char>>) -> Seq<char>
    decreases tokens.len(),
{
    if tokens.len() == 0 {
        Seq::empty()
    } else if tokens.len() == 1 {
        spec_quote_token(tokens[0])
    } else {
        spec_quote_token(tokens[0]) + seq![' '] + spec_join(tokens.drop_first())
    }
}

/// Scanning a run of plain characters outside quotes appends them all to the
/// current token.
proof fn lemma_scan_plain(t: Seq<char>, rest: Seq<char>, cur: Seq<char>, acc: Seq<Seq<char>>)
    requires
        forall|i: int| 0 <= i < t.len() ==> plain_char(#[trigger] t[i]),
    ensures
        spec_scan(t + rest, false, false, cur, acc) == spec_scan(rest, false, false, cur + t, acc),
    decreases t.len(),
{
    if t.len() == 0 {
        assert(t + rest =~= rest);
        assert(cur + t =~= cur);
    } else {
        let c = t[0];
        assert((t + rest)[0] == c);
        assert((t + rest).drop_first() =~= t.drop_first() + rest);
        assert forall|i: int| 0 <= i < t.drop_first().len() implies plain_char(
            #[trigger] t.drop_first()[i],
        ) by {
            assert(t.drop_first()[i] == t[i + 1]);
        }
        lemma_scan_plain(t.drop_first(), rest, cur.push(c), acc);
        assert(cur.push(c) + t.drop_first() =~= cur + t);
    }
}

/// Scanning a run of unescaped characters inside quotes appends them all to
/// the current token, spaces included.
proof fn lemma_scan_quoted(t: Seq<char>, rest: Seq<char>, cur: Seq<char>, acc: Seq<Seq<char>>)
    requires
        unescaped_token(t),
    ensures
        spec_scan(t + rest, true, false, cur, acc) == spec_scan(rest, true, false, cur + t, acc),
    decreases t.len(),
{
    if t.len() == 0 {
        assert(t + rest =~= rest);
        assert(cur + t =~= cur);
    } else {
        let c = t[0];
        assert((t + rest)[0] == c);
        assert((t + rest).drop_first() =~= t.drop_first() + rest);
        assert forall|i: int| 0 <= i < t.drop_first().len() implies t.drop_first()[i] != '\\'
            && t.drop_first()[i] != '"' by {
            assert(t.drop_first()[i] == t[i + 1]);
        }
        lemma_scan_quoted(t.drop_first(), rest, cur.push(c), acc);
        assert(cur.push(c) + t.drop_first() =~= cur + t);
    }
}

/// The scan of a joined line pushes the tokens, in order, after whatever was
/// already pushed.
proof fn lemma_scan_join(tokens: Seq<Seq<char>>, acc: Seq<Seq<char>>)
    requires
        forall|i: int| 0 <= i < tokens.len() ==> (#[trigger] tokens[i]).len() > 0,
        forall|i: int| 0 <= i < tokens.len() ==> unescaped_token(#[trigger] tokens[i]),
        forall|i: int| 0 <= i < tokens.len() - 1 ==> !(#[trigger] tokens[i]).contains(' '),
    ensures
        spec_scan(spec_join(tokens), false, false, Seq::empty(), acc) == acc + tokens,
    decreases tokens.len(),
{
    if tokens.len() == 0 {
        assert(acc + tokens =~= acc);
    } else if tokens.len() == 1 {
        let t = tokens[0];
        assert(t.len() > 0 && unescaped_token(t));
        if t.contains(' ') {
            let line = spec_quote_token(t);
            assert(line[0] == '"');
            assert(line.drop_first() =~= t + seq!['"']);
            lemma_scan_quoted(t, seq!['"'], Seq::empty(), acc);
            assert(Seq::<char>::empty() + t =~= t);
            assert(seq!['"'][0] == '"');
            assert(seq!['"'].drop_first() =~= Seq::<char>::empty());
            assert(spec_scan(seq!['"'], true, false, t, acc) == spec_scan(
                Seq::<char>::empty(),
                false,
                false,
                Seq::empty(),
                acc.push(t),
            ));
            assert(acc + tokens =~= acc.push(t));
        } else {
            assert forall|i: int| 0 <= i < t.len() implies plain_char(#[trigger] t[i]) by {
                if t[i] == ' ' {
                    assert(t.contains(' '));
                }
            }
            lemma_scan_plain(t, Seq::empty(), Seq::empty(), acc);
            assert(t + Seq::<char>::empty() =~= t);
            assert(Seq::<char>::empty() + t =~= t);
            assert(acc + tokens =~= acc.push(t));
        }
    } else {
        let t = tokens[0];
        let rest = tokens.drop_first();
        assert(!t.contains(' '));
        assert(t.len() > 0 && unescaped_token(t));
        assert forall|i: int| 0 <= i < t.len() implies plain_char(#[trigger] t[i]) by {
            if t[i] == ' ' {
                assert(t.contains(' '));
            }
        }
        let tail = seq![' '] + spec_join(rest);
        assert(spec_join(tokens) =~= t + tail);
        lemma_scan_plain(t, tail, Seq::empty(), acc);
        assert(Seq::<char>::empty() + t =~= t);
        assert(tail[0] == ' ');
        assert(tail.drop_first() =~= spec_join(rest));
        assert(spec_scan(tail, false, false, t, acc) == spec_scan(
            spec_join(rest),
            false,
            false,
            Seq::empty(),
            acc.push(t),
        ));
        assert forall|i: int| 0 <= i < rest.len() implies (#[trigger] rest[i]).len() > 0
            && unescaped_token(rest[i]) by {
            assert(rest[i] == tokens[i + 1]);
        }
        assert forall|i: int| 0 <= i < rest.len() - 1 implies !(#[trigger] rest[i]).contains(
            ' ',
        ) by {
            assert(rest[i] == tokens[i + 1]);
        }
        lemma_scan_join(rest, acc.push(t));
        assert(acc.push(t) + rest =~= acc + tokens);
    }
}

/// Round trip: a line built by joining tokens with single spaces, quoting a
/// token that contains spaces, tokenizes back to exactly those tokens.  The
/// tokens must be non-empty and free of backslashes and double quotes, and
/// only the last may contain a space: a quoted token followed by a space
/// would leave an extra empty token behind the closing quote.
pub proof fn lemma_tokenize_round_trip(tokens: Seq<Seq<char>>)
    requires
        forall|i: int| 0 <= i < tokens.len() ==> (#[trigger] tokens[i]).len() > 0,
        forall|i: int| 0 <= i < tokens.len() ==> unescaped_token(#[trigger] tokens[i]),
        forall|i: int| 0 <= i < tokens.len() - 1 ==> !(#[trigger] tokens[i]).contains(' '),
    ensures
        spec_tokenize(spec_join(tokens)) == tokens,
{
    lemma_scan_join(tokens, Seq::empty());
    assert(Seq::<Seq<char>>::empty() + tokens =~= tokens);
}

} // verus!
