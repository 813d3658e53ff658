//! The nodes of a Markdown text.

pub mod code;
pub mod header;
pub mod text;

use vstd::prelude::*;
use crate::markdown::nodes::code::block_at;
use crate::markdown::nodes::code::CodeBlock;
use crate::markdown::nodes::code::CodeBlockView;
use crate::markdown::nodes::header::header_at;
use crate::markdown::nodes::header::Header;
use crate::markdown::nodes::header::HeaderView;
use crate::markdown::nodes::text::line_end;
use crate::markdown::nodes::text::segments_from;
use crate::markdown::nodes::text::TextNode;
use crate::markdown::nodes::text::TextSegment;

verus! {

/// A stretch of the bytes of a text, from a position up to another.
#[derive(Debug, Clone, Copy, PartialEq, Eq, Structural)]
pub struct TextRange {
    pub start: usize,
    pub end: usize,
}

impl TextRange {
    /// `pos` lies in the stretch.
    pub open spec fn holds(self, pos: usize) -> bool {
        self.start <= pos < self.end
    }

    /// Whether `pos` lies in the stretch.
    pub fn contains(&self, pos: usize) -> (r: bool)
        ensures
            r == self.holds(pos),
    {
        self.start <= pos && pos < self.end
    }
}

/// A node that was read, with the position behind it.
#[derive(Debug)]
pub struct ParseResult<N> {
    pub node: N,
    pub end: usize,
}

/// What a node holds, as mathematical values.
pub enum NodeView {
    Code(CodeBlockView),
    Header(HeaderView),
    Text(Seq<TextSegment>),
}

/// A node of a Markdown text.
#[derive(Debug)]
pub enum Node {
    /// A block of code.
    Code(CodeBlock),
    /// A header.
    Header(Header),
    /// A line of text.
    Text(TextNode),
}

impl View for Node {
    type V = NodeView;

    open spec fn view(&self) -> NodeView {
        match self {
            Node::Code(block) => NodeView::Code(block@),
            Node::Header(header) => NodeView::Header(header@),
            Node::Text(text) => NodeView::Text(text@),
        }
    }
}

/// The node that begins at `pos`, with the position behind it: a block of
/// code if one begins there, else a header if one begins there, else a
/// line of text.
pub open spec fn node_at(input: Seq<u8>, pos: int) -> (NodeView, int) {
    if let Some((block, end)) = block_at(input, pos) {
        (NodeView::Code(block), end)
    } else if let Some((header, end)) = header_at(input, pos) {
        (NodeView::Header(header), end)
    } else {
        (NodeView::Text(segments_from(input, pos, line_end(input, pos))), line_end(input, pos))
    }
}

/// Reads the node that begins at `pos`: see [`node_at`]. There is none at
/// or behind the end of the bytes.
pub fn parse_node(input: &Vec<u8>, pos: usize) -> (r: Option<(Node, usize)>)
    ensures
        r is None <==> pos >= input@.len(),
        r matches Some(found) ==> {
            &&& found.0@ == node_at(input@, pos as int).0
            &&& found.1 == node_at(input@, pos as int).1
            &&& pos < found.1 <= input@.len()
        },
{
    if pos >= input.len() {
        return None;
    }
    match CodeBlock::parse(input, pos) {
        Some(found) => {
            return Some((Node::Code(found.node), found.end));
        },
        None => {},
    }
    match Header::parse(input, pos) {
        Some(found) => {
            return Some((Node::Header(found.node), found.end));
        },
        None => {},
    }
    match TextNode::parse(input, pos) {
        Some(found) => Some((Node::Text(found.node), found.end)),
        None => None,
    }
}

} // verus!
