//! The parser of Markdown texts.

use vstd::prelude::*;
use vstd::string::StrSliceExecFns;
use vstd::string::StringSliceAdditionalSpecFns;
use crate::markdown::nodes::node_at;
use crate::markdown::nodes::parse_node;
use crate::markdown::nodes::Node;
use crate::markdown::nodes::NodeView;

verus! {

/// What a list of nodes holds.
pub open spec fn node_views(nodes: Seq<Node>) -> Seq<NodeView> {
    nodes.map_values(|n: Node| n@)
}

/// The position behind the node that begins at `pos`, if it lies behind
/// `pos` and within the bytes.
pub open spec fn next_pos(input: Seq<u8>, pos: int) -> Option<int> {
    if 0 <= pos < input.len() && pos < node_at(input, pos).1 <= input.len() {
        Some(node_at(input, pos).1)
    } else {
        None
    }
}

/// The nodes of the bytes from `pos` on, one behind the other.
pub open spec fn nodes_from(input: Seq<u8>, pos: int) -> Seq<NodeView>
    decreases input.len() - pos,
{
    match next_pos(input, pos) {
        Some(next) => seq![node_at(input, pos).0] + nodes_from(input, next),
        None => Seq::empty(),
    }
}

/// Reads a Markdown text node by node.
#[derive(Debug)]
pub struct MarkdownParser {
    input: Vec<u8>,
    pos: usize,
    nodes: Vec<Node>,
}

impl MarkdownParser {
    /// The bytes of the text.
    pub closed spec fn input(&self) -> Seq<u8> {
        self.input@
    }

    /// The position up to which the text was read.
    pub closed spec fn pos(&self) -> int {
        self.pos as int
    }

    /// The nodes read so far.
    pub closed spec fn nodes(&self) -> Seq<NodeView> {
        node_views(self.nodes@)
    }

    /// The parser's invariant: the position lies within the text.
    pub open spec fn wf(&self) -> bool {
        0 <= self.pos() <= self.input().len()
    }

    /// A parser at the start of `input`.
    pub fn new(input: &str) -> (r: MarkdownParser)
        ensures
            r.wf(),
            r.input() == input.spec_bytes(),
            r.pos() == 0,
            r.nodes() == Seq::<NodeView>::empty(),
    {
        let r = MarkdownParser { input: input.as_bytes_vec(), pos: 0, nodes: Vec::new() };
        assert(r.nodes() =~= Seq::<NodeView>::empty());
        r
    }

    /// Reads the rest of the text.
    pub fn parse(&mut self)
        requires
            old(self).wf(),
        ensures
            final(self).wf(),
            final(self).input() == old(self).input(),
            final(self).pos() == old(self).input().len(),
            final(self).nodes() == old(self).nodes() + nodes_from(
                old(self).input(),
                old(self).pos(),
            ),
    {
        let ghost before = self.nodes();
        let ghost all = nodes_from(self.input(), self.pos());
        proof {
            assert(before + all =~= self.nodes() + nodes_from(self.input(), self.pos()));
        }
        while self.pos < self.input.len()
            invariant
                self.wf(),
                self.input() == old(self).input(),
                before + all == self.nodes() + nodes_from(self.input(), self.pos()),
            decreases self.input@.len() - self.pos,
        {
            let ghost had = self.nodes();
            match parse_node(&self.input, self.pos) {
                Some((node, end)) => {
                    let ghost view = node@;
                    self.nodes.push(node);
                    proof {
                        assert(self.nodes() =~= had.push(view));
                        assert(had + (seq![view] + nodes_from(self.input(), end as int))
                            =~= had.push(view) + nodes_from(self.input(), end as int));
                    }
                    self.pos = end;
                },
                None => {
                    proof {
                        assert(false);
                    }
                    self.pos = self.input.len();
                },
            }
        }
        proof {
            assert(self.nodes() + Seq::<NodeView>::empty() =~= self.nodes());
        }
    }

    /// The nodes read so far.
    pub fn nodes_read(&self) -> (r: &Vec<Node>)
        ensures
            node_views(r@) == self.nodes(),
    {
        &self.nodes
    }

    /// The bytes of the text.
    pub fn bytes(&self) -> (r: &Vec<u8>)
        ensures
            r@ == self.input(),
    {
        &self.input
    }

    /// Reads the rest of the text and hands out all nodes.
    pub fn as_nodes(&mut self) -> (r: &Vec<Node>)
        requires
            old(self).wf(),
        ensures
            final(self).wf(),
            final(self).input() == old(self).input(),
            final(self).pos() == old(self).input().len(),
            final(self).nodes() == old(self).nodes() + nodes_from(
                old(self).input(),
                old(self).pos(),
            ),
            node_views(r@) == final(self).nodes(),
    {
        self.parse();
        &self.nodes
    }
}

} // verus!
