//! The majority-inverter graph handed to the compiler: nodes are the constant
//! false, primary inputs, or three-input majorities; inversions ride on edges.
//!
//! A node is named by its index in the node list. The list of output signals,
//! in declaration order, names which values the compiled program must place in
//! the reserved output rows.

use vstd::prelude::*;

verus! {

/// An MIG edge: a node id together with an inversion bit. Two distinct
/// signals `s` and `s.invert()` may simultaneously occupy distinct rows.
#[derive(Clone, Copy, PartialEq, Eq, Structural, Debug)]
pub struct Signal {
    /// Index of the node the edge comes from.
    pub id: usize,
    /// Whether the edge inverts the node's value.
    pub inverted: bool,
}

impl Signal {
    /// The signal (id, inverted).
    pub fn new(id: usize, inverted: bool) -> (r: Self)
        ensures
            r == (Signal { id, inverted }),
    {
        Signal { id, inverted }
    }

    /// The node the signal comes from.
    pub fn node_id(&self) -> (r: usize)
        ensures
            r == self.id,
    {
        self.id
    }

    /// Whether the signal inverts its node's value.
    pub fn is_inverted(&self) -> (r: bool)
        ensures
            r == self.inverted,
    {
        self.inverted
    }

    /// The same edge with the inversion bit flipped.
    pub fn invert(&self) -> (r: Self)
        ensures
            r == (Signal { id: self.id, inverted: !self.inverted }),
    {
        Signal { id: self.id, inverted: !self.inverted }
    }

    /// Position of the signal in a table indexed by (node, polarity) pairs.
    pub open spec fn spec_index(self) -> int {
        2 * self.id + if self.inverted {
            1int
        } else {
            0int
        }
    }
}

/// The signal at a given position of a table indexed by (node, polarity).
pub open spec fn signal_of_index(idx: int) -> Signal {
    Signal { id: (idx / 2) as usize, inverted: idx % 2 == 1 }
}

/// One node of a majority-inverter graph.
#[derive(Clone, Copy, PartialEq, Eq, Structural, Debug)]
pub enum MigNode {
    /// The constant-false node.
    False,
    /// A primary input, by input index.
    Input(u64),
    /// The majority of three signals.
    Maj(Signal, Signal, Signal),
}

impl MigNode {
    /// The input signals of the node, in order.
    pub open spec fn spec_inputs(self) -> Seq<Signal> {
        match self {
            MigNode::False => seq![],
            MigNode::Input(_) => seq![],
            MigNode::Maj(a, b, c) => seq![a, b, c],
        }
    }

    /// The input signals of the node, in order.
    pub fn inputs(&self) -> (r: Vec<Signal>)
        ensures
            r@ == self.spec_inputs(),
    {
        match self {
            MigNode::False => vec![],
            MigNode::Input(_) => vec![],
            MigNode::Maj(a, b, c) => vec![*a, *b, *c],
        }
    }

    /// Whether the node is a leaf: a constant or a primary input.
    pub open spec fn spec_is_leaf(self) -> bool {
        !(self is Maj)
    }

    /// Whether the node is a leaf: a constant or a primary input.
    pub fn is_leaf(&self) -> (r: bool)
        ensures
            r == self.spec_is_leaf(),
    {
        !matches!(self, MigNode::Maj(_, _, _))
    }
}

/// A concrete majority-inverter graph: its nodes, and its output signals in
/// declaration order. Node ids are indices into `nodes`.
pub struct MigNetwork {
    /// The nodes; a signal with `id == i` refers to `nodes[i]`.
    pub nodes: Vec<MigNode>,
    /// The primary outputs, in declaration order.
    pub outputs: Vec<Signal>,
}

/// Number of input slots of one node that read the given node.
pub open spec fn node_use_count(node: MigNode, id: int) -> int {
    match node {
        MigNode::Maj(a, b, c) => (if a.id == id {
            1int
        } else {
            0int
        }) + (if b.id == id {
            1int
        } else {
            0int
        }) + (if c.id == id {
            1int
        } else {
            0int
        }),
        _ => 0,
    }
}

/// Number of input slots over a node list that read the given node: the
/// backward-edge count of the network.
pub open spec fn count_uses(nodes: Seq<MigNode>, id: int) -> int
    decreases nodes.len(),
{
    if nodes.len() == 0 {
        0
    } else {
        count_uses(nodes.drop_last(), id) + node_use_count(nodes.last(), id)
    }
}

/// Whether some output signal refers to the given node.
pub open spec fn is_output_node(network: MigNetwork, id: int) -> bool {
    exists|k: int| 0 <= k < network.outputs@.len() && (#[trigger] network.outputs@[k]).id == id
}

} // verus!
