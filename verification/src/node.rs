//! Nodes of an agent's brain graph.
//!
//! A brain is a directed graph over a fixed arena of nodes, addressed by
//! slot index. Every node carries weighted input edges, a bias, and a
//! memoized output slot that is unset at the start of a tick and cleared
//! again at its end. Four kinds exist: a pure computation, a random
//! source, a mover (moves the agent on its fixed axis) and a forager
//! (depletes the food cell under the agent).

use vstd::prelude::*;
use crate::fx::SCALE;

verus! {

/// The axis a mover node pushes the agent along, fixed at creation.
#[derive(Clone, Copy)]
pub enum Axis {
    X,
    Y,
}

/// The four kinds of brain node.
#[derive(Clone, Copy)]
pub enum NodeKind {
    /// Squashed weighted sum of the inputs plus bias; no side effect.
    Computation,
    /// A fresh uniform sample of `[-1, 1]` each tick; ignores inputs.
    RandomSource,
    /// Like `Computation`, and then adds its output to the agent's
    /// coordinate on the carried axis, clamping into the world bounds.
    Mover(Axis),
    /// Like `Computation`, and then depletes the food cell under the
    /// agent by `(output + 1) / 2` of the fixed depletion rate, never
    /// below zero.
    Forager,
}

/// Mathematical image of a node: everything the evaluation semantics
/// reads or writes, over unbounded integers.
#[verifier::ext_equal]
pub struct NodeModel {
    pub kind: NodeKind,
    /// Weighted input edges, in insertion order: (upstream slot, weight).
    pub inputs: Seq<(int, int)>,
    /// Informational reverse edges; never read during evaluation.
    pub outputs: Seq<int>,
    pub bias: int,
    /// The per-tick sample a random source yields.
    pub sample: int,
    /// The memoized output: `None` means not yet evaluated this tick.
    pub memo: Option<int>,
}

/// A node of the executable arena.
pub struct BrainNode {
    pub kind: NodeKind,
    pub inputs: Vec<(usize, i64)>,
    pub outputs: Vec<usize>,
    pub bias: i64,
    pub sample: i64,
    pub output: Option<i64>,
}

impl View for BrainNode {
    type V = NodeModel;

    open spec fn view(&self) -> NodeModel {
        NodeModel {
            kind: self.kind,
            inputs: self.inputs@.map(|k: int, e: (usize, i64)| (e.0 as int, e.1 as int)),
            outputs: self.outputs@.map(|k: int, e: usize| e as int),
            bias: self.bias as int,
            sample: self.sample as int,
            memo: match self.output {
                Option::Some(v) => Option::Some(v as int),
                Option::None => Option::None,
            },
        }
    }
}

/// Well-formedness of a node inside an arena of `n` slots: every edge
/// points into the arena, and every stored quantity lies in the
/// fixed-point unit interval. Random sources structurally have no inputs.
pub open spec fn node_wf(nm: NodeModel, n: int) -> bool {
    &&& -(SCALE as int) <= nm.bias <= SCALE as int
    &&& -(SCALE as int) <= nm.sample <= SCALE as int
    &&& (forall|k: int|
        0 <= k < nm.inputs.len() ==> {
            &&& 0 <= (#[trigger] nm.inputs[k]).0 < n
            &&& -(SCALE as int) <= nm.inputs[k].1 <= SCALE as int
        })
    &&& (nm.memo matches Some(v) ==> -(SCALE as int) <= v <= SCALE as int)
    &&& (nm.kind is RandomSource ==> nm.inputs.len() == 0)
}

/// The ordered sequence of upstream slots a node reads.
pub open spec fn input_nodes(nm: NodeModel) -> Seq<int> {
    nm.inputs.map(|k: int, e: (int, int)| e.0)
}

/// The ordered sequence of weights, one per input edge.
pub open spec fn input_weights(nm: NodeModel) -> Seq<int> {
    nm.inputs.map(|k: int, e: (int, int)| e.1)
}

/// The image of a just-created node of the given kind: no edges, no memo,
/// the given bias, and a zero sample until the first tick refreshes it.
pub open spec fn fresh_node(kind: NodeKind, bias: int) -> NodeModel {
    NodeModel {
        kind,
        inputs: Seq::empty(),
        outputs: Seq::empty(),
        bias,
        sample: 0,
        memo: None,
    }
}

impl BrainNode {
    /// A pure computation node with the given bias and no edges yet.
    pub fn computation(bias: i64) -> (r: BrainNode)
        requires
            -SCALE <= bias <= SCALE,
        ensures
            r@ == fresh_node(NodeKind::Computation, bias as int),
    {
        let r = BrainNode {
            kind: NodeKind::Computation,
            inputs: Vec::new(),
            outputs: Vec::new(),
            bias,
            sample: 0,
            output: None,
        };
        proof {
            assert(r@ =~= fresh_node(NodeKind::Computation, bias as int));
        }
        r
    }

    /// A random source node; it carries neither bias nor inputs.
    pub fn random_source() -> (r: BrainNode)
        ensures
            r@ == fresh_node(NodeKind::RandomSource, 0),
    {
        let r = BrainNode {
            kind: NodeKind::RandomSource,
            inputs: Vec::new(),
            outputs: Vec::new(),
            bias: 0,
            sample: 0,
            output: None,
        };
        proof {
            assert(r@ =~= fresh_node(NodeKind::RandomSource, 0));
        }
        r
    }

    /// A mover node pushing along the given axis.
    pub fn mover(axis: Axis, bias: i64) -> (r: BrainNode)
        requires
            -SCALE <= bias <= SCALE,
        ensures
            r@ == fresh_node(NodeKind::Mover(axis), bias as int),
    {
        let r = BrainNode {
            kind: NodeKind::Mover(axis),
            inputs: Vec::new(),
            outputs: Vec::new(),
            bias,
            sample: 0,
            output: None,
        };
        proof {
            assert(r@ =~= fresh_node(NodeKind::Mover(axis), bias as int));
        }
        r
    }

    /// A forager node with the given bias.
    pub fn forager(bias: i64) -> (r: BrainNode)
        requires
            -SCALE <= bias <= SCALE,
        ensures
            r@ == fresh_node(NodeKind::Forager, bias as int),
    {
        let r = BrainNode {
            kind: NodeKind::Forager,
            inputs: Vec::new(),
            outputs: Vec::new(),
            bias,
            sample: 0,
            output: None,
        };
        proof {
            assert(r@ =~= fresh_node(NodeKind::Forager, bias as int));
        }
        r
    }

    /// Record the upstream slot `src` as one more input, with the fixed
    /// unit weight every edge carries. A random source rejects the edge:
    /// it structurally has no inputs.
    pub fn add_input(&mut self, src: usize)
        ensures
            final(self)@ == if old(self)@.kind is RandomSource {
                old(self)@
            } else {
                NodeModel { inputs: old(self)@.inputs.push((src as int, SCALE as int)), ..old(self)@ }
            },
    {
        match self.kind {
            NodeKind::RandomSource => {
                assert(self@ =~= old(self)@);
            },
            _ => {
                self.inputs.push((src, SCALE));
                assert(self@.inputs =~= old(self)@.inputs.push((src as int, SCALE as int)));
                assert(self@ =~= (NodeModel {
                    inputs: old(self)@.inputs.push((src as int, SCALE as int)),
                    ..old(self)@
                }));
            },
        }
    }

    /// Record the downstream slot `dst` in the informational reverse
    /// edge list.
    pub fn add_output(&mut self, dst: usize)
        ensures
            final(self)@ == (NodeModel { outputs: old(self)@.outputs.push(dst as int), ..old(self)@ }),
    {
        self.outputs.push(dst);
        assert(self@.outputs =~= old(self)@.outputs.push(dst as int));
        assert(self@ =~= (NodeModel { outputs: old(self)@.outputs.push(dst as int), ..old(self)@ }));
    }

    /// The memoized output of this tick, if the node has been evaluated.
    pub fn get_output(&self) -> (r: Option<i64>)
        ensures
            r == self.output,
    {
        self.output
    }

    /// Clear the memo slot for the next tick.
    pub fn reset_output(&mut self)
        ensures
            final(self)@ == (NodeModel { memo: None, ..old(self)@ }),
    {
        self.output = None;
        assert(self@ =~= (NodeModel { memo: None, ..old(self)@ }));
    }
}

} // verus!
