//! Documents: sequences of nodes, of which only the text blocks are read
//! and rewritten.

use vstd::prelude::*;

verus! {

/// A block of text lines.
#[derive(Clone, Debug, PartialEq, Eq)]
pub struct TextBlock {
    /// The lines of the block.
    pub text: Vec<String>,
}

impl View for TextBlock {
    type V = Seq<Seq<char>>;

    open spec fn view(&self) -> Seq<Seq<char>> {
        self.text.deep_view()
    }
}

impl DeepView for TextBlock {
    type V = Seq<Seq<char>>;

    open spec fn deep_view(&self) -> Seq<Seq<char>> {
        self@
    }
}

/// A node of a document.
#[derive(Clone, Debug, PartialEq, Eq)]
pub enum Node {
    /// A block of text, in which citations and the placeholder are looked
    /// for.
    Text(TextBlock),
    /// Any other node; it passes through untouched.
    Other,
}

/// The model of a [`Node`]: the lines of a text block, nothing for any
/// other node.
pub enum NodeView {
    Text(Seq<Seq<char>>),
    Other,
}

impl View for Node {
    type V = NodeView;

    open spec fn view(&self) -> NodeView {
        match self {
            Node::Text(block) => NodeView::Text(block@),
            Node::Other => NodeView::Other,
        }
    }
}

impl DeepView for Node {
    type V = NodeView;

    open spec fn deep_view(&self) -> NodeView {
        self@
    }
}

/// A document.
#[derive(Clone, Debug, PartialEq, Eq)]
pub struct Document {
    /// The nodes of the document, in order.
    pub nodes: Vec<Node>,
}

impl View for Document {
    type V = Seq<NodeView>;

    open spec fn view(&self) -> Seq<NodeView> {
        self.nodes.deep_view()
    }
}

impl DeepView for Document {
    type V = Seq<NodeView>;

    open spec fn deep_view(&self) -> Seq<NodeView> {
        self@
    }
}

} // verus!
