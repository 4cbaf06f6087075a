//! The markup-tree collaborator: what the interpreter reads of one node of
//! the parsed document, and the trusted calls into the `soup` parser that
//! produce it.
//!
//! Parsing a document and querying its tree are pure functions of the
//! document text, so each query's result carries a name that the
//! interpreter's contracts can speak of.

use soup::NodeExt;
use soup::QueryBuilderExt;
use soup::Soup;
use vstd::prelude::*;

verus! {

/// What the interpreter reads of one node: its tag name, its attributes in
/// the collaborator's iteration order, and the tag names of its direct
/// children.
#[derive(Debug, Clone)]
pub struct NodeInfo {
    pub name: String,
    pub attrs: Vec<(String, String)>,
    pub child_names: Vec<String>,
}

/// The model of a node: the same three components over character sequences.
pub ghost struct NodeModel {
    pub name: Seq<char>,
    pub attrs: Seq<(Seq<char>, Seq<char>)>,
    pub child_names: Seq<Seq<char>>,
}

impl View for NodeInfo {
    type V = NodeModel;

    open spec fn view(&self) -> NodeModel {
        NodeModel {
            name: self.name@,
            attrs: self.attrs.deep_view(),
            child_names: self.child_names.deep_view(),
        }
    }
}

/// The model of an optional query result.
pub open spec fn opt_node_model(r: Option<NodeInfo>) -> Option<NodeModel> {
    match r {
        Some(n) => Some(n@),
        None => None,
    }
}

/// The first node of the parsed document whose tag name equals `tag`, in the
/// parser's traversal order, if any: a pure function of the two strings.
pub uninterp spec fn first_elem_named(doc: Seq<char>, tag: Seq<char>) -> Option<NodeModel>;

/// The first node of the parsed document matching any tag, if any: a pure
/// function of the document text.
pub uninterp spec fn first_elem_any(doc: Seq<char>) -> Option<NodeModel>;

/// The tag names of the direct children of the parsed document's root, in
/// document order: a pure function of the document text.
pub uninterp spec fn root_child_names(doc: Seq<char>) -> Seq<Seq<char>>;

/// Relies on `soup::Soup::new` and the query `tag(name).find()`: parses the
/// document and returns the first node whose tag name equals `tag` (soup
/// matches tag patterns by string equality), with its name, its attributes
/// (soup hands them out as a `BTreeMap`, so sorted by attribute name) and
/// the names of its direct children.  Parsing never fails and the result
/// depends on the two strings alone.
#[verifier::external_body]
pub(crate) fn find_first_named(doc: &str, tag: &str) -> (r: Option<NodeInfo>)
    ensures
        opt_node_model(r) == first_elem_named(doc@, tag@),
{
    let root = Soup::new(doc);
    match root.tag(tag).find() {
        None => None,
        Some(h) => {
            let mut attrs: Vec<(String, String)> = Vec::new();
            for a in h.attrs() {
                attrs.push((a.0, a.1));
            }
            let mut kids: Vec<String> = Vec::new();
            for c in h.children() {
                kids.push(c.name().to_string());
            }
            Some(NodeInfo { name: h.name().to_string(), attrs, child_names: kids })
        },
    }
}

/// Relies on `soup::Soup::new` and the query `tag(true).find()`: as
/// [`find_first_named`], but the first node matching any tag.
#[verifier::external_body]
pub(crate) fn find_first_any(doc: &str) -> (r: Option<NodeInfo>)
    ensures
        opt_node_model(r) == first_elem_any(doc@),
{
    let root = Soup::new(doc);
    match root.tag(true).find() {
        None => None,
        Some(h) => {
            let mut attrs: Vec<(String, String)> = Vec::new();
            for a in h.attrs() {
                attrs.push((a.0, a.1));
            }
            let mut kids: Vec<String> = Vec::new();
            for c in h.children() {
                kids.push(c.name().to_string());
            }
            Some(NodeInfo { name: h.name().to_string(), attrs, child_names: kids })
        },
    }
}

/// Relies on `soup::Soup::new` and `children()` on the document root: the
/// tag names of the root's direct children, in document order.
#[verifier::external_body]
pub(crate) fn find_root_child_names(doc: &str) -> (r: Vec<String>)
    ensures
        r.deep_view() == root_child_names(doc@),
{
    let root = Soup::new(doc);
    let mut kids: Vec<String> = Vec::new();
    for c in root.children() {
        kids.push(c.name().to_string());
    }
    kids
}

} // verus!
