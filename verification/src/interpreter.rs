//! The command interpreter: dispatches a tokenized line against the session
//! state, produces the lines to print, and describes the one outside effect
//! (a fetch) for the surrounding program to perform.

use crate::markup::NodeInfo;
use crate::markup::NodeModel;
use crate::markup::find_first_any;
use crate::markup::find_first_named;
use crate::markup::find_root_child_names;
use crate::markup::first_elem_any;
use crate::markup::first_elem_named;
use crate::markup::opt_node_model;
use crate::markup::root_child_names;
use crate::session::ErrModel;
use crate::session::InterpreterError;
use crate::session::SessionState;
use crate::session::StateModel;
use crate::text::all_digits;
use crate::text::digits_value;
use crate::text::is_digit;
use crate::text::parse_positive;
use crate::text::plus_stripped;
use crate::text::push_char;
use crate::text::spec_parse_positive;
use crate::text::str_eq;
use vstd::prelude::*;

verus! {

/// What the surrounding program must do after a line is interpreted.
#[derive(Debug, Clone, PartialEq, Eq)]
pub enum Effect {
    /// Nothing: the command completed within the session.
    Stay,
    /// Fetch this URL and hand the outcome to [`apply_fetch`].
    FetchUrl(String),
}

/// The model of an effect.
pub ghost enum EffectModel {
    Stay,
    FetchUrl(Seq<char>),
}

impl View for Effect {
    type V = EffectModel;

    open spec fn view(&self) -> EffectModel {
        match self {
            Effect::Stay => EffectModel::Stay,
            Effect::FetchUrl(u) => EffectModel::FetchUrl(u@),
        }
    }
}

/// What interpreting one line produced: the lines to print, and either the
/// effect still owed or the error to report.  The lines printed before a
/// failing `find` sub-operation are kept beside the error.
#[derive(Debug)]
pub struct Outcome {
    pub output: Vec<String>,
    pub result: Result<Effect, InterpreterError>,
}

/// The model of an interpreted line: the state left behind, the lines
/// printed, and the result.
pub ghost struct OutcomeModel {
    pub state: StateModel,
    pub output: Seq<Seq<char>>,
    pub result: Result<EffectModel, ErrModel>,
}

/// The model of an outcome's result field.
pub open spec fn result_model(r: Result<Effect, InterpreterError>) -> Result<
    EffectModel,
    ErrModel,
> {
    match r {
        Ok(e) => Ok(e@),
        Err(e) => Err(e@),
    }
}

/// How many characters of a line survive truncation to width `w`: all but
/// the three that make room for the ellipsis.
pub open spec fn keep_width(w: usize) -> int {
    if w >= 3 {
        w - 3
    } else {
        0
    }
}

/// A printed line: untouched while it fits the display width, else cut to
/// [`keep_width`] characters with a three-dot ellipsis appended.
pub open spec fn spec_truncate(line: Seq<char>, width: Option<usize>) -> Seq<char> {
    match width {
        Some(w) => if line.len() > w {
            line.take(keep_width(w)) + seq!['.', '.', '.']
        } else {
            line
        },
        None => line,
    }
}

/// The split of the remaining text on newlines, with `cur` the piece
/// accumulated so far and `acc` the pieces already cut: the final piece is
/// kept even when empty, so a text always yields one more line than it has
/// newlines.
pub open spec fn spec_split_rest(text: Seq<char>, cur: Seq<char>, acc: Seq<Seq<char>>) -> Seq<
    Seq<char>,
>
    decreases text.len(),
{
    if text.len() == 0 {
        acc.push(cur)
    } else if text[0] == '\n' {
        spec_split_rest(text.drop_first(), Seq::empty(), acc.push(cur))
    } else {
        spec_split_rest(text.drop_first(), cur.push(text[0]), acc)
    }
}

/// The lines of a text: its pieces between newlines.
pub open spec fn spec_lines(text: Seq<char>) -> Seq<Seq<char>> {
    spec_split_rest(text, Seq::empty(), Seq::empty())
}

/// Each line truncated to the display width.
pub open spec fn truncated_lines(ls: Seq<Seq<char>>, width: Option<usize>) -> Seq<Seq<char>> {
    ls.map_values(|l: Seq<char>| spec_truncate(l, width))
}

/// Truncating one more line extends the truncation of the lines before it.
proof fn lemma_truncated_push(ls: Seq<Seq<char>>, i: int, width: Option<usize>)
    requires
        0 <= i < ls.len(),
    ensures
        truncated_lines(ls.take(i + 1), width) == truncated_lines(ls.take(i), width).push(
            spec_truncate(ls[i], width),
        ),
{
    assert(truncated_lines(ls.take(i + 1), width) =~= truncated_lines(ls.take(i), width).push(
        spec_truncate(ls[i], width),
    ));
}

/// What `head` prints: the first `max` lines (all of them when there are
/// fewer), each truncated to the display width.
pub open spec fn spec_head_lines(text: Seq<char>, max: usize, width: Option<usize>) -> Seq<
    Seq<char>,
> {
    let ls = spec_lines(text);
    let n = if max <= ls.len() {
        max as int
    } else {
        ls.len() as int
    };
    truncated_lines(ls.take(n), width)
}

/// Splits a text into its lines, exactly as [`spec_lines`] describes.
fn split_lines(text: &str) -> (r: Vec<String>)
    ensures
        r.deep_view() == spec_lines(text@),
{
    let n: usize = text.unicode_len();
    let mut acc: Vec<String> = Vec::new();
    let mut cur: String = String::new();
    let mut i: usize = 0;
    proof {
        assert(text@.skip(0) =~= text@);
        assert(acc.deep_view() =~= Seq::<Seq<char>>::empty());
    }
    while i < n
        invariant
            n == text@.len(),
            i <= n,
            spec_split_rest(text@.skip(i as int), cur@, acc.deep_view()) == spec_lines(text@),
        decreases n - i,
    {
        let c = text.get_char(i);
        let ghost pre_acc = acc.deep_view();
        let ghost pre_cur = cur@;
        proof {
            assert(text@.skip(i as int)[0] == text@[i as int]);
            assert(text@.skip(i as int).drop_first() =~= text@.skip(i as int + 1));
        }
        if c == '\n' {
            acc.push(cur);
            cur = String::new();
        } else {
            push_char(&mut cur, c);
        }
        proof {
            assert(acc.deep_view() =~= pre_acc || acc.deep_view() =~= pre_acc.push(pre_cur));
        }
        i = i + 1;
    }
    proof {
        assert(text@.skip(n as int) =~= Seq::<char>::empty());
    }
    let ghost pre_acc = acc.deep_view();
    acc.push(cur);
    proof {
        assert(acc.deep_view() =~= pre_acc.push(cur@));
    }
    acc
}

/// Truncates one line to the display width, exactly as [`spec_truncate`]
/// describes.
fn truncate_line(line: &String, width: Option<usize>) -> (r: String)
    ensures
        r@ == spec_truncate(line@, width),
{
    match width {
        None => line.clone(),
        Some(w) => {
            let len: usize = line.as_str().unicode_len();
            if len > w {
                let keep: usize = if w >= 3 {
                    w - 3
                } else {
                    0
                };
                let prefix = line.as_str().substring_char(0, keep);
                let r = String::from_str(prefix).concat("...");
                proof {
                    reveal_strlit("...");
                    assert(r@ =~= line@.take(keep_width(w)) + seq!['.', '.', '.']);
                }
                r
            } else {
                line.clone()
            }
        },
    }
}

/// The first `max` lines of the document, truncated to the display width,
/// exactly as [`spec_head_lines`] describes.
pub fn head_lines(doc: &str, max: usize, width: Option<usize>) -> (r: Vec<String>)
    ensures
        r.deep_view() == spec_head_lines(doc@, max, width),
{
    let lines = split_lines(doc);
    let mut out: Vec<String> = Vec::new();
    let mut i: usize = 0;
    proof {
        assert(out.deep_view() =~= Seq::<Seq<char>>::empty());
        assert(truncated_lines(spec_lines(doc@).take(0), width) =~= Seq::<Seq<char>>::empty());
    }
    while i < lines.len() && i < max
        invariant
            lines.deep_view() == spec_lines(doc@),
            i <= lines.len(),
            i <= max,
            out.deep_view() == truncated_lines(spec_lines(doc@).take(i as int), width),
        decreases lines.len() - i,
    {
        let t = truncate_line(&lines[i], width);
        out.push(t);
        proof {
            assert(lines@[i as int]@ == lines.deep_view()[i as int]);
            lemma_truncated_push(spec_lines(doc@), i as int, width);
            assert(out.deep_view() =~= truncated_lines(spec_lines(doc@).take(i as int + 1), width));
        }
        i = i + 1;
    }
    proof {
        assert(out.deep_view() =~= spec_head_lines(doc@, max, width));
    }
    out
}

/// The attribute-name lines of a node.
pub open spec fn attr_name_lines(m: NodeModel) -> Seq<Seq<char>> {
    m.attrs.map_values(|a: (Seq<char>, Seq<char>)| a.0)
}

/// The `name = value` lines of a node.
pub open spec fn attr_value_lines(m: NodeModel) -> Seq<Seq<char>> {
    m.attrs.map_values(|a: (Seq<char>, Seq<char>)| a.0 + " = "@ + a.1)
}

/// Appending to the second part of a concatenation appends to the whole.
proof fn lemma_append_push(a: Seq<Seq<char>>, b: Seq<Seq<char>>, x: Seq<char>)
    ensures
        (a + b).push(x) == a + b.push(x),
{
    assert((a + b).push(x) =~= a + b.push(x));
}

/// One more taken element extends the prefix by exactly that element.
proof fn lemma_take_push(s: Seq<Seq<char>>, j: int)
    requires
        0 <= j < s.len(),
    ensures
        s.take(j + 1) == s.take(j).push(s[j]),
{
    assert(s.take(j + 1) =~= s.take(j).push(s[j]));
}

/// Appends a copy of every item to `out`.
fn push_all(out: &mut Vec<String>, items: &Vec<String>)
    ensures
        final(out).deep_view() == old(out).deep_view() + items.deep_view(),
{
    let mut j: usize = 0;
    proof {
        assert(old(out).deep_view() + items.deep_view().take(0) =~= old(out).deep_view());
    }
    while j < items.len()
        invariant
            j <= items.len(),
            out.deep_view() == old(out).deep_view() + items.deep_view().take(j as int),
        decreases items.len() - j,
    {
        let ghost pre = out.deep_view();
        out.push(items[j].clone());
        proof {
            assert(items@[j as int]@ == items.deep_view()[j as int]);
            assert(out.deep_view() =~= pre.push(items.deep_view()[j as int]));
            lemma_take_push(items.deep_view(), j as int);
            lemma_append_push(
                old(out).deep_view(),
                items.deep_view().take(j as int),
                items.deep_view()[j as int],
            );
        }
        j = j + 1;
    }
    proof {
        assert(items.deep_view().take(items@.len() as int) =~= items.deep_view());
    }
}

/// Appends each attribute's name to `out`, one line per attribute.
fn push_attr_names(out: &mut Vec<String>, n: &NodeInfo)
    ensures
        final(out).deep_view() == old(out).deep_view() + attr_name_lines(n@),
{
    let mut j: usize = 0;
    proof {
        assert(old(out).deep_view() + attr_name_lines(n@).take(0) =~= old(out).deep_view());
    }
    while j < n.attrs.len()
        invariant
            j <= n.attrs.len(),
            out.deep_view() == old(out).deep_view() + attr_name_lines(n@).take(j as int),
        decreases n.attrs.len() - j,
    {
        let ghost pre = out.deep_view();
        out.push(n.attrs[j].0.clone());
        proof {
            assert(attr_name_lines(n@)[j as int] == n.attrs@[j as int].0@);
            assert(out.deep_view() =~= pre.push(attr_name_lines(n@)[j as int]));
            lemma_take_push(attr_name_lines(n@), j as int);
            lemma_append_push(
                old(out).deep_view(),
                attr_name_lines(n@).take(j as int),
                attr_name_lines(n@)[j as int],
            );
        }
        j = j + 1;
    }
    proof {
        assert(attr_name_lines(n@).take(n@.attrs.len() as int) =~= attr_name_lines(n@));
    }
}

/// Appends each attribute as a `name = value` line to `out`.
fn push_attr_values(out: &mut Vec<String>, n: &NodeInfo)
    ensures
        final(out).deep_view() == old(out).deep_view() + attr_value_lines(n@),
{
    let mut j: usize = 0;
    proof {
        assert(old(out).deep_view() + attr_value_lines(n@).take(0) =~= old(out).deep_view());
    }
    while j < n.attrs.len()
        invariant
            j <= n.attrs.len(),
            out.deep_view() == old(out).deep_view() + attr_value_lines(n@).take(j as int),
        decreases n.attrs.len() - j,
    {
        let line = n.attrs[j].0.clone().concat(" = ").concat(n.attrs[j].1.as_str());
        proof {
            assert(attr_value_lines(n@)[j as int] == n.attrs@[j as int].0@ + " = "@ + n.attrs@[
                j as int
            ].1@);
        }
        let ghost pre = out.deep_view();
        out.push(line);
        proof {
            assert(out.deep_view() =~= pre.push(attr_value_lines(n@)[j as int]));
            lemma_take_push(attr_value_lines(n@), j as int);
            lemma_append_push(
                old(out).deep_view(),
                attr_value_lines(n@).take(j as int),
                attr_value_lines(n@)[j as int],
            );
        }
        j = j + 1;
    }
    proof {
        assert(attr_value_lines(n@).take(n@.attrs.len() as int) =~= attr_value_lines(n@));
    }
}

/// The lines printed by the rest of a `find` command, and the error, if any,
/// that ends it.
pub ghost struct FindModel {
    pub output: Seq<Seq<char>>,
    pub error: Option<ErrModel>,
}

/// Lines printed before the rest of the command runs.
pub open spec fn find_prepend(lines: Seq<Seq<char>>, rest: FindModel) -> FindModel {
    FindModel { output: lines + rest.output, error: rest.error }
}

/// The `find` sub-operation state machine, from sub-operation `i` on, with
/// `working` the current node.  Sub-operations run strictly left to right,
/// later ones observing the node left by earlier ones: `tag` re-aims the
/// current node at the first match for its argument (any tag when the
/// argument is the literal `true`), failing when nothing matches; `name`,
/// `attrs` and `values` print facts of the current node, failing when none
/// is selected; `tree` prints the direct children of the current node or,
/// when none is selected, of the document root; anything else fails as
/// unrecognized.
pub open spec fn spec_find(
    doc: Seq<char>,
    args: Seq<Seq<char>>,
    i: int,
    working: Option<NodeModel>,
) -> FindModel
    decreases args.len() - i,
{
    if i < 0 || i >= args.len() {
        FindModel { output: Seq::empty(), error: None }
    } else if args[i] == "tag"@ {
        if i + 1 >= args.len() {
            FindModel { output: Seq::empty(), error: Some(ErrModel::Parse(Seq::empty())) }
        } else {
            let q = if args[i + 1] == "true"@ {
                first_elem_any(doc)
            } else {
                first_elem_named(doc, args[i + 1])
            };
            match q {
                None => FindModel {
                    output: Seq::empty(),
                    error: Some(ErrModel::NotFound(args[i + 1])),
                },
                Some(m) => spec_find(doc, args, i + 2, Some(m)),
            }
        }
    } else if args[i] == "name"@ {
        match working {
            None => FindModel { output: Seq::empty(), error: Some(ErrModel::NoCurrentNode) },
            Some(m) => find_prepend(seq![m.name], spec_find(doc, args, i + 1, working)),
        }
    } else if args[i] == "attrs"@ {
        match working {
            None => FindModel { output: Seq::empty(), error: Some(ErrModel::NoCurrentNode) },
            Some(m) => find_prepend(attr_name_lines(m), spec_find(doc, args, i + 1, working)),
        }
    } else if args[i] == "values"@ {
        match working {
            None => FindModel { output: Seq::empty(), error: Some(ErrModel::NoCurrentNode) },
            Some(m) => find_prepend(attr_value_lines(m), spec_find(doc, args, i + 1, working)),
        }
    } else if args[i] == "tree"@ {
        let kids = match working {
            Some(m) => m.child_names,
            None => root_child_names(doc),
        };
        find_prepend(kids, spec_find(doc, args, i + 1, working))
    } else {
        FindModel { output: Seq::empty(), error: Some(ErrModel::UnrecognizedParameter(args[i])) }
    }
}

/// Runs a `find` command's sub-operations against the document, exactly as
/// [`spec_find`] describes: the output accumulated up to the first failing
/// sub-operation is kept beside its error.
fn run_find(doc: &String, tokens: &Vec<String>) -> (r: Outcome)
    requires
        tokens@.len() >= 1,
    ensures
        ({
            let f = spec_find(doc@, tokens.deep_view(), 1, None);
            r.output.deep_view() == f.output && result_model(r.result) == (match f.error {
                None => Ok::<EffectModel, ErrModel>(EffectModel::Stay),
                Some(e) => Err(e),
            })
        }),
{
    let ghost full = spec_find(doc@, tokens.deep_view(), 1, None);
    let mut out: Vec<String> = Vec::new();
    let mut working: Option<NodeInfo> = None;
    let mut i: usize = 1;
    proof {
        assert(out.deep_view() =~= Seq::<Seq<char>>::empty());
        assert(Seq::<Seq<char>>::empty() + full.output =~= full.output);
        assert(find_prepend(out.deep_view(), spec_find(doc@, tokens.deep_view(), 1, opt_node_model(working))) == full);
    }
    while i < tokens.len()
        invariant
            1 <= i <= tokens@.len(),
            full == spec_find(doc@, tokens.deep_view(), 1, None),
            full == find_prepend(
                out.deep_view(),
                spec_find(doc@, tokens.deep_view(), i as int, opt_node_model(working)),
            ),
        decreases tokens@.len() - i,
    {
        let ghost tv = tokens.deep_view();
        let ghost w0 = opt_node_model(working);
        let ghost rest0 = spec_find(doc@, tv, i as int, w0);
        let ghost pre_out = out.deep_view();
        let kw = &tokens[i];
        proof {
            assert(tv[i as int] == tokens@[i as int]@);
        }
        if str_eq(kw.as_str(), "tag") {
            if i + 1 >= tokens.len() {
                return Outcome {
                    output: out,
                    result: Err(InterpreterError::Parse(String::new())),
                };
            }
            let tag = &tokens[i + 1];
            proof {
                assert(tv[i as int + 1] == tokens@[i as int + 1]@);
            }
            let q = if str_eq(tag.as_str(), "true") {
                find_first_any(doc.as_str())
            } else {
                find_first_named(doc.as_str(), tag.as_str())
            };
            match q {
                None => {
                    return Outcome {
                        output: out,
                        result: Err(InterpreterError::NotFound(tag.clone())),
                    };
                },
                Some(n) => {
                    working = Some(n);
                    i = i + 2;
                    proof {
                        assert(rest0 == spec_find(doc@, tv, i as int, opt_node_model(working)));
                    }
                },
            }
        } else if str_eq(kw.as_str(), "name") {
            match &working {
                None => {
                    return Outcome { output: out, result: Err(InterpreterError::NoCurrentNode) };
                },
                Some(n) => {
                    out.push(n.name.clone());
                    proof {
                        assert(out.deep_view() =~= pre_out + seq![n@.name]);
                        assert(rest0 == find_prepend(
                            seq![n@.name],
                            spec_find(doc@, tv, i as int + 1, w0),
                        ));
                        assert((pre_out + seq![n@.name]) + spec_find(
                            doc@,
                            tv,
                            i as int + 1,
                            w0,
                        ).output =~= pre_out + rest0.output);
                    }
                    i = i + 1;
                },
            }
        } else if str_eq(kw.as_str(), "attrs") {
            match &working {
                None => {
                    return Outcome { output: out, result: Err(InterpreterError::NoCurrentNode) };
                },
                Some(n) => {
                    push_attr_names(&mut out, n);
                    proof {
                        assert(rest0 == find_prepend(
                            attr_name_lines(n@),
                            spec_find(doc@, tv, i as int + 1, w0),
                        ));
                        assert((pre_out + attr_name_lines(n@)) + spec_find(
                            doc@,
                            tv,
                            i as int + 1,
                            w0,
                        ).output =~= pre_out + rest0.output);
                    }
                    i = i + 1;
                },
            }
        } else if str_eq(kw.as_str(), "values") {
            match &working {
                None => {
                    return Outcome { output: out, result: Err(InterpreterError::NoCurrentNode) };
                },
                Some(n) => {
                    push_attr_values(&mut out, n);
                    proof {
                        assert(rest0 == find_prepend(
                            attr_value_lines(n@),
                            spec_find(doc@, tv, i as int + 1, w0),
                        ));
                        assert((pre_out + attr_value_lines(n@)) + spec_find(
                            doc@,
                            tv,
                            i as int + 1,
                            w0,
                        ).output =~= pre_out + rest0.output);
                    }
                    i = i + 1;
                },
            }
        } else if str_eq(kw.as_str(), "tree") {
            let ghost kids = match w0 {
                Some(m) => m.child_names,
                None => root_child_names(doc@),
            };
            match &working {
                Some(n) => {
                    push_all(&mut out, &n.child_names);
                },
                None => {
                    let names = find_root_child_names(doc.as_str());
                    push_all(&mut out, &names);
                },
            }
            proof {
                assert(out.deep_view() == pre_out + kids);
                assert(rest0 == find_prepend(kids, spec_find(doc@, tv, i as int + 1, w0)));
                assert((pre_out + kids) + spec_find(doc@, tv, i as int + 1, w0).output =~= pre_out
                    + rest0.output);
            }
            i = i + 1;
        } else {
            return Outcome {
                output: out,
                result: Err(InterpreterError::UnrecognizedParameter(kw.clone())),
            };
        }
    }
    proof {
        assert(spec_find(doc@, tokens.deep_view(), i as int, opt_node_model(working)).output
            =~= Seq::<Seq<char>>::empty());
        assert(out.deep_view() + Seq::<Seq<char>>::empty() =~= out.deep_view());
    }
    Outcome { output: out, result: Ok(Effect::Stay) }
}

/// The model of the `cols` command: `max` disables truncation, a positive
/// integer becomes the new display width, anything else is a parse failure
/// that leaves the state untouched.
pub open spec fn spec_cols(s: StateModel, tokens: Seq<Seq<char>>) -> OutcomeModel {
    if tokens.len() < 2 {
        OutcomeModel { state: s, output: Seq::empty(), result: Err(ErrModel::Parse(Seq::empty())) }
    } else if tokens[1] == "max"@ {
        OutcomeModel {
            state: StateModel { display_width: None, ..s },
            output: Seq::empty(),
            result: Ok(EffectModel::Stay),
        }
    } else {
        match spec_parse_positive(tokens[1]) {
            Some(w) => OutcomeModel {
                state: StateModel { display_width: Some(w), ..s },
                output: Seq::empty(),
                result: Ok(EffectModel::Stay),
            },
            None => OutcomeModel {
                state: s,
                output: Seq::empty(),
                result: Err(ErrModel::Parse(tokens[1])),
            },
        }
    }
}

/// The model of the `url` command: the fetch is owed to the surrounding
/// program as an effect, and nothing is recorded until it succeeds, so a
/// failed fetch leaves no trace of its target.
pub open spec fn spec_url(s: StateModel, tokens: Seq<Seq<char>>) -> OutcomeModel {
    if tokens.len() < 2 {
        OutcomeModel { state: s, output: Seq::empty(), result: Err(ErrModel::Parse(Seq::empty())) }
    } else {
        OutcomeModel {
            state: s,
            output: Seq::empty(),
            result: Ok(EffectModel::FetchUrl(tokens[1])),
        }
    }
}

/// The model of the `head` command: the first lines of the document,
/// truncated to the display width; a missing or malformed bound is a parse
/// failure, a missing document a precondition failure.
pub open spec fn spec_head(s: StateModel, tokens: Seq<Seq<char>>) -> OutcomeModel {
    if tokens.len() < 2 {
        OutcomeModel { state: s, output: Seq::empty(), result: Err(ErrModel::Parse(Seq::empty())) }
    } else {
        match spec_parse_positive(tokens[1]) {
            None => OutcomeModel {
                state: s,
                output: Seq::empty(),
                result: Err(ErrModel::Parse(tokens[1])),
            },
            Some(max) => match s.document_text {
                None => OutcomeModel {
                    state: s,
                    output: Seq::empty(),
                    result: Err(ErrModel::NoDocument),
                },
                Some(d) => OutcomeModel {
                    state: s,
                    output: spec_head_lines(d, max, s.display_width),
                    result: Ok(EffectModel::Stay),
                },
            },
        }
    }
}

/// The model of the `find` command: the sub-operation state machine of
/// [`spec_find`], run against the last fetched document, never touching the
/// session state.
pub open spec fn spec_find_command(s: StateModel, tokens: Seq<Seq<char>>) -> OutcomeModel {
    match s.document_text {
        None => OutcomeModel { state: s, output: Seq::empty(), result: Err(ErrModel::NoDocument) },
        Some(d) => {
            let f = spec_find(d, tokens, 1, None);
            OutcomeModel {
                state: s,
                output: f.output,
                result: match f.error {
                    None => Ok(EffectModel::Stay),
                    Some(e) => Err(e),
                },
            }
        },
    }
}

/// The model of one interpreted line: dispatch on the first token; an empty
/// line and an unknown command are no-ops.
pub open spec fn spec_execute(s: StateModel, tokens: Seq<Seq<char>>) -> OutcomeModel {
    if tokens.len() == 0 {
        OutcomeModel { state: s, output: Seq::empty(), result: Ok(EffectModel::Stay) }
    } else if tokens[0] == "cols"@ {
        spec_cols(s, tokens)
    } else if tokens[0] == "url"@ {
        spec_url(s, tokens)
    } else if tokens[0] == "head"@ {
        spec_head(s, tokens)
    } else if tokens[0] == "find"@ {
        spec_find_command(s, tokens)
    } else {
        OutcomeModel { state: s, output: Seq::empty(), result: Ok(EffectModel::Stay) }
    }
}

/// An empty batch of output lines.
fn no_output() -> (r: Vec<String>)
    ensures
        r.deep_view() == Seq::<Seq<char>>::empty(),
{
    let r: Vec<String> = Vec::new();
    proof {
        assert(r.deep_view() =~= Seq::<Seq<char>>::empty());
    }
    r
}

/// Interprets one tokenized line against the session, exactly as
/// [`spec_execute`] describes: the state is mutated in place, the lines to
/// print are returned, and a `url` command comes back as a fetch effect for
/// the surrounding program to perform and hand to [`apply_fetch`].
pub fn execute(state: &mut SessionState, tokens: &Vec<String>) -> (r: Outcome)
    ensures
        ({
            let m = spec_execute(old(state)@, tokens.deep_view());
            final(state)@ == m.state && r.output.deep_view() == m.output && result_model(r.result)
                == m.result
        }),
{
    if tokens.len() == 0 {
        return Outcome { output: no_output(), result: Ok(Effect::Stay) };
    }
    let cmd = &tokens[0];
    proof {
        assert(tokens.deep_view()[0] == tokens@[0]@);
        if tokens@.len() >= 2 {
            assert(tokens.deep_view()[1] == tokens@[1]@);
        }
    }
    if str_eq(cmd.as_str(), "cols") {
        if tokens.len() < 2 {
            return Outcome { output: no_output(), result: Err(InterpreterError::Parse(String::new())) };
        }
        let arg = &tokens[1];
        if str_eq(arg.as_str(), "max") {
            state.display_width = None;
            return Outcome { output: no_output(), result: Ok(Effect::Stay) };
        }
        match parse_positive(arg.as_str()) {
            Some(w) => {
                state.display_width = Some(w);
                Outcome { output: no_output(), result: Ok(Effect::Stay) }
            },
            None => Outcome { output: no_output(), result: Err(InterpreterError::Parse(arg.clone())) },
        }
    } else if str_eq(cmd.as_str(), "url") {
        if tokens.len() < 2 {
            return Outcome { output: no_output(), result: Err(InterpreterError::Parse(String::new())) };
        }
        Outcome { output: no_output(), result: Ok(Effect::FetchUrl(tokens[1].clone())) }
    } else if str_eq(cmd.as_str(), "head") {
        if tokens.len() < 2 {
            return Outcome { output: no_output(), result: Err(InterpreterError::Parse(String::new())) };
        }
        let arg = &tokens[1];
        match parse_positive(arg.as_str()) {
            None => Outcome { output: no_output(), result: Err(InterpreterError::Parse(arg.clone())) },
            Some(max) => match &state.document_text {
                None => Outcome { output: no_output(), result: Err(InterpreterError::NoDocument) },
                Some(doc) => {
                    let lines = head_lines(doc.as_str(), max, state.display_width);
                    Outcome { output: lines, result: Ok(Effect::Stay) }
                },
            },
        }
    } else if str_eq(cmd.as_str(), "find") {
        match &state.document_text {
            None => Outcome { output: no_output(), result: Err(InterpreterError::NoDocument) },
            Some(doc) => run_find(doc, tokens),
        }
    } else {
        Outcome { output: no_output(), result: Ok(Effect::Stay) }
    }
}

/// What a fetch attempt produced, as the surrounding program reports it.
#[derive(Debug, Clone, PartialEq, Eq)]
pub enum FetchOutcome {
    /// The transport failed below the protocol, with its own message.
    Transport(String),
    /// A response arrived: its status code and its body text.
    Response(u16, String),
}

/// The model of a fetch outcome.
pub ghost enum FetchModel {
    Transport(Seq<char>),
    Response(u16, Seq<char>),
}

impl View for FetchOutcome {
    type V = FetchModel;

    open spec fn view(&self) -> FetchModel {
        match self {
            FetchOutcome::Transport(m) => FetchModel::Transport(m@),
            FetchOutcome::Response(status, body) => FetchModel::Response(*status, body@),
        }
    }
}

/// The model of a fetch result's application.
pub open spec fn result_unit_model(r: Result<(), InterpreterError>) -> Result<(), ErrModel> {
    match r {
        Ok(u) => Ok(u),
        Err(e) => Err(e@),
    }
}

/// The model of applying a fetch outcome: a transport failure or a status in
/// the server-error class leaves the whole session untouched; any other
/// response, client errors included, replaces the document and records the
/// target as the last successfully fetched URL.
pub open spec fn spec_apply_fetch(s: StateModel, url: Seq<char>, o: FetchModel) -> (StateModel,
    Result<(), ErrModel>,
) {
    match o {
        FetchModel::Transport(m) => (s, Err(ErrModel::Transport(m))),
        FetchModel::Response(status, body) => if 500 <= status <= 599 {
            (s, Err(ErrModel::Server(status)))
        } else {
            (
                StateModel { source_url: Some(url), document_text: Some(body), ..s },
                Ok(()),
            )
        },
    }
}

/// Applies the outcome of the fetch that a `url` command requested, exactly
/// as [`spec_apply_fetch`] describes.  A failed fetch never partially
/// overwrites the session: both the recorded URL and the document keep
/// their prior values.
pub fn apply_fetch(state: &mut SessionState, url: &String, outcome: FetchOutcome) -> (r: Result<
    (),
    InterpreterError,
>)
    ensures
        ({
            let m = spec_apply_fetch(old(state)@, url@, outcome@);
            final(state)@ == m.0 && result_unit_model(r) == m.1
        }),
{
    match outcome {
        FetchOutcome::Transport(msg) => Err(InterpreterError::Transport(msg)),
        FetchOutcome::Response(status, body) => {
            if 500 <= status && status <= 599 {
                Err(InterpreterError::Server(status))
            } else {
                state.source_url = Some(url.clone());
                state.document_text = Some(body);
                Ok(())
            }
        },
    }
}

/// The `cols` sequence law: `cols max` disables truncation altogether, and a
/// later `cols 10` sets the width to exactly 10, after which a line longer
/// than 10 characters is cut to its first 7 characters plus a three-dot
/// ellipsis.
pub proof fn lemma_cols_sequence(s: StateModel, line: Seq<char>)
    requires
        line.len() > 10,
    ensures
        ({
            let s1 = spec_execute(s, seq!["cols"@, "max"@]).state;
            let s2 = spec_execute(s1, seq!["cols"@, "10"@]).state;
            s1.display_width is None && spec_truncate(line, s1.display_width) == line
                && s2.display_width == Some(10usize) && spec_truncate(line, s2.display_width)
                == line.take(7) + seq!['.', '.', '.']
        }),
{
    let t1 = seq!["cols"@, "max"@];
    let t2 = seq!["cols"@, "10"@];
    assert(t1[0] == "cols"@ && t1[1] == "max"@);
    assert(t2[0] == "cols"@ && t2[1] == "10"@);
    reveal_strlit("max");
    reveal_strlit("10");
    assert("10"@.len() == 2 && "max"@.len() == 3);
    let d = "10"@;
    assert(d[0] == '1' && d[1] == '0');
    assert(plus_stripped(d) == d);
    assert(all_digits(d)) by {
        assert forall|i: int| 0 <= i < d.len() implies is_digit(#[trigger] d[i]) by {
            if i == 0 {
                assert(is_digit(d[0]));
            } else {
                assert(i == 1 && is_digit(d[1]));
            }
        }
    }
    assert(d.drop_last() =~= seq!['1']);
    assert(seq!['1'].drop_last() =~= Seq::<char>::empty());
    assert(digits_value(Seq::<char>::empty()) == 0);
    assert(digits_value(seq!['1']) == 1);
    assert(digits_value(d) == 10);
    assert(spec_parse_positive(d) == Some(10usize));
}

/// A `find` command never changes the session state, whether it succeeds or
/// fails: in particular a failing tag lookup leaves the document untouched.
pub proof fn lemma_find_leaves_state(s: StateModel, tokens: Seq<Seq<char>>)
    requires
        tokens.len() > 0,
        tokens[0] == "find"@,
    ensures
        spec_execute(s, tokens).state == s,
{
    reveal_strlit("find");
    reveal_strlit("cols");
    reveal_strlit("url");
    reveal_strlit("head");
    assert("find"@ != "cols"@) by {
        assert("find"@[0] == 'f' && "cols"@[0] == 'c');
    }
    assert("find"@ != "url"@) by {
        assert("find"@.len() == 4 && "url"@.len() == 3);
    }
    assert("find"@ != "head"@) by {
        assert("find"@[0] == 'f' && "head"@[0] == 'h');
    }
}

/// `head` with a bound at least the number of lines prints every line, each
/// truncated to the display width: a short document never makes it fail.
pub proof fn lemma_head_prints_all(text: Seq<char>, max: usize, width: Option<usize>)
    requires
        spec_lines(text).len() <= max,
    ensures
        spec_head_lines(text, max, width) == truncated_lines(spec_lines(text), width),
{
    assert(spec_lines(text).take(spec_lines(text).len() as int) =~= spec_lines(text));
}

/// A fetch that fails in the transport leaves the whole session as it was:
/// in particular the recorded URL and the document keep their prior values,
/// never partially overwritten.
pub proof fn lemma_transport_failure_preserves(s: StateModel, url: Seq<char>, message: Seq<char>)
    ensures
        spec_apply_fetch(s, url, FetchModel::Transport(message)).0 == s,
{
}

} // verus!
