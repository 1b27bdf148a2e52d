//! The structural tree the library works on. The external structured-document
//! parser is only trusted to hand over values of this shape: per node its
//! kind, for elements the local tag name and ordered children, for text the
//! literal content. Comments and processing instructions carry nothing.
use vstd::prelude::*;

verus! {

/// One node of a parsed document tree.
pub enum Node {
    /// An element with its local tag name and ordered children.
    Element { name: String, children: Vec<Node> },
    /// A text node with its literal content.
    Text { text: String },
    /// A comment or processing instruction: carries nothing.
    Other,
}

/// The mathematical value of a `Node`: the same tree over character
/// sequences.
pub ghost enum NodeView {
    Element { name: Seq<char>, children: Seq<NodeView> },
    Text { text: Seq<char> },
    Other,
}

/// The mathematical value of one node.
pub open spec fn node_view(n: Node) -> NodeView
    decreases n,
{
    match n {
        Node::Element { name, children } => NodeView::Element {
            name: name@,
            children: node_views(children@),
        },
        Node::Text { text } => NodeView::Text { text: text@ },
        Node::Other => NodeView::Other,
    }
}

/// The mathematical values of a sequence of nodes, in order.
pub open spec fn node_views(s: Seq<Node>) -> Seq<NodeView>
    decreases s,
{
    if s.len() == 0 {
        Seq::empty()
    } else {
        seq![node_view(s[0])] + node_views(s.skip(1))
    }
}

impl View for Node {
    type V = NodeView;

    open spec fn view(&self) -> NodeView {
        node_view(*self)
    }
}

/// `node_views` maps `node_view` over the sequence, element by element.
pub proof fn lemma_node_views(s: Seq<Node>)
    ensures
        node_views(s).len() == s.len(),
        forall|i: int| 0 <= i < s.len() ==> node_views(s)[i] == node_view(s[i]),
    decreases s.len(),
{
    if s.len() > 0 {
        lemma_node_views(s.skip(1));
        assert(forall|i: int| 1 <= i < s.len() ==> node_views(s)[i] == node_views(s.skip(1))[i
            - 1]);
    }
}

} // verus!
