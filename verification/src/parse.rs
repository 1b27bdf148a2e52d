//! The boundary to the external structured-document parser. The library
//! trusts it for exactly one thing: turning raw text into a tree of
//! element / text / comment nodes, deterministically in the text alone. The
//! tree is converted to the library's own `Node` shape at the boundary;
//! everything done with it afterwards is verified.
use vstd::prelude::*;

use crate::node::{node_views, Node, NodeView};

verus! {

/// What the structural parser yields on the given text: the top-level nodes
/// of the document, or nothing when the text is not well-formed markup. The
/// result depends on the text alone.
pub uninterp spec fn parse_of(text: Seq<char>) -> Option<Seq<NodeView>>;

#[verifier::external_type_specification]
#[verifier::external_body]
pub struct ExChildOfRoot<'d>(sxd_document::dom::ChildOfRoot<'d>);

#[verifier::external_type_specification]
#[verifier::external_body]
pub struct ExChildOfElement<'d>(sxd_document::dom::ChildOfElement<'d>);

#[verifier::external_type_specification]
#[verifier::external_body]
pub struct ExElement<'d>(sxd_document::dom::Element<'d>);

/// Relies on sxd_document::parser::parse: it turns well-formed markup into a
/// document tree, rejects malformed text without a partial tree, and its
/// result is a function of the text alone.
#[verifier::external_body]
pub fn parse_xml(text: &str) -> (r: Option<Vec<Node>>)
    ensures
        (r is Some) == (parse_of(text@) is Some),
        r matches Some(v) ==> parse_of(text@) == Some(node_views(v@)),
{
    match sxd_document::parser::parse(text) {
        Ok(pkg) => Some(
            pkg.as_document().root().children().into_iter().map(convert_root_child).collect(),
        ),
        Err(_) => None,
    }
}

/// Relies on sxd_document's node accessors: each root child is an element, a
/// comment, or a processing instruction.
#[verifier::external_body]
fn convert_root_child(c: sxd_document::dom::ChildOfRoot<'_>) -> Node {
    match c {
        sxd_document::dom::ChildOfRoot::Element(e) => convert_element(e),
        sxd_document::dom::ChildOfRoot::Comment(_) => Node::Other,
        sxd_document::dom::ChildOfRoot::ProcessingInstruction(_) => Node::Other,
    }
}

/// Relies on sxd_document's element accessors: the local tag name and the
/// ordered children.
#[verifier::external_body]
fn convert_element(e: sxd_document::dom::Element<'_>) -> Node {
    Node::Element {
        name: e.name().local_part().to_string(),
        children: e.children().into_iter().map(convert_child).collect(),
    }
}

/// Relies on sxd_document's node accessors: each element child is an
/// element, text with its literal content, a comment, or a processing
/// instruction.
#[verifier::external_body]
fn convert_child(c: sxd_document::dom::ChildOfElement<'_>) -> Node {
    match c {
        sxd_document::dom::ChildOfElement::Element(e) => convert_element(e),
        sxd_document::dom::ChildOfElement::Text(t) => Node::Text { text: t.text().to_string() },
        sxd_document::dom::ChildOfElement::Comment(_) => Node::Other,
        sxd_document::dom::ChildOfElement::ProcessingInstruction(_) => Node::Other,
    }
}

} // verus!
