//! Agents: a brain graph over an arena of nodes, a position on the
//! world's plane, and a display color.
//!
//! A brain is grown at creation time and never restructured afterwards: a
//! fixed number of nodes of uniformly random kind, then a fixed number of
//! random directed edges of unit weight. Self-edges are rejected by
//! drawing the two endpoints distinct; duplicate edges and cycles are
//! allowed and expected.

use vstd::prelude::*;
use crate::color::{Color, color_wf};
use crate::eval::models;
use crate::fx::SCALE;
use crate::grid::{X_LIMIT, Y_LIMIT};
use crate::node::{BrainNode, NodeModel, NodeKind, Axis, node_wf, fresh_node};
use crate::rng::{random_index, random_bool, random_distinct_pair};

verus! {

/// Mathematical image of an agent.
#[verifier::ext_equal]
pub struct AgentModel {
    pub nodes: Seq<NodeModel>,
    pub x: int,
    pub y: int,
    pub color: Color,
}

/// An agent of the simulation.
pub struct Agent {
    pub brain: Vec<BrainNode>,
    pub x: i64,
    pub y: i64,
    pub color: Color,
}

/// The projection of an agent a renderer needs: position and color.
pub struct RenderableAgent {
    pub x: i64,
    pub y: i64,
    pub color: Color,
}

impl View for Agent {
    type V = AgentModel;

    open spec fn view(&self) -> AgentModel {
        AgentModel {
            nodes: models(self.brain@),
            x: self.x as int,
            y: self.y as int,
            color: self.color,
        }
    }
}

/// Well-formedness of an agent: every node is well formed for the brain's
/// size, and the position lies inside the world.
pub open spec fn agent_wf(am: AgentModel) -> bool {
    &&& (forall|k: int|
        0 <= k < am.nodes.len() ==> node_wf(#[trigger] am.nodes[k], am.nodes.len() as int))
    &&& 0 <= am.x <= X_LIMIT as int
    &&& 0 <= am.y <= Y_LIMIT as int
    &&& color_wf(am.color)
}

/// The node arena after one directed edge `from -> to` is recorded: `to`
/// gains the weighted input edge (unless it is a random source, which
/// rejects inputs), and `from` records the informational reverse edge
/// either way.
pub open spec fn connect_model(nodes: Seq<NodeModel>, from: int, to: int) -> Seq<NodeModel> {
    let mid = if nodes[to].kind is RandomSource {
        nodes
    } else {
        nodes.update(
            to,
            NodeModel { inputs: nodes[to].inputs.push((from, SCALE as int)), ..nodes[to] },
        )
    };
    mid.update(from, NodeModel { outputs: mid[from].outputs.push(to), ..mid[from] })
}

/// The arena of just-created nodes of the given kinds, in order: no
/// edges, zero bias, unset memos.
pub open spec fn fresh_arena(kinds: Seq<NodeKind>) -> Seq<NodeModel> {
    Seq::new(kinds.len(), |i: int| fresh_node(kinds[i], 0))
}

/// The arena after the given directed edges are recorded in order.
pub open spec fn apply_edges(nodes: Seq<NodeModel>, edges: Seq<(int, int)>) -> Seq<NodeModel>
    decreases edges.len(),
{
    if edges.len() == 0 {
        nodes
    } else {
        connect_model(apply_edges(nodes, edges.drop_last()), edges.last().0, edges.last().1)
    }
}

/// A brain grown as the world grows one: some sequence of node kinds and
/// some sequence of distinct-endpoint edges inside the arena.
pub open spec fn grown_brain(nodes: Seq<NodeModel>, n_nodes: int, n_edges: int) -> bool {
    exists|kinds: Seq<NodeKind>, edges: Seq<(int, int)>| {
        &&& kinds.len() == n_nodes
        &&& edges.len() == n_edges
        &&& (forall|e: int|
            0 <= e < edges.len() ==> {
                &&& 0 <= (#[trigger] edges[e]).0 < n_nodes
                &&& 0 <= edges[e].1 < n_nodes
                &&& edges[e].0 != edges[e].1
            })
        &&& nodes == apply_edges(fresh_arena(kinds), edges)
    }
}

/// Recording edges never touches a memo: only input and output edge
/// lists change.
pub proof fn lemma_apply_edges_keeps_memos(nodes: Seq<NodeModel>, edges: Seq<(int, int)>)
    requires
        forall|q: int|
            0 <= q < edges.len() ==> {
                &&& 0 <= (#[trigger] edges[q]).0 < nodes.len()
                &&& 0 <= edges[q].1 < nodes.len()
            },
    ensures
        apply_edges(nodes, edges).len() == nodes.len(),
        forall|j: int|
            0 <= j < nodes.len() ==> (#[trigger] apply_edges(nodes, edges)[j]).memo
                == nodes[j].memo,
    decreases edges.len(),
{
    if edges.len() == 0 {
    } else {
        let pre = edges.drop_last();
        assert forall|q: int|
            0 <= q < pre.len() implies {
            &&& 0 <= (#[trigger] pre[q]).0 < nodes.len()
            &&& 0 <= pre[q].1 < nodes.len()
        } by {
            assert(pre[q] == edges[q]);
        }
        lemma_apply_edges_keeps_memos(nodes, pre);
    }
}

impl Agent {
    /// A new agent: empty brain, the world's origin, a random color.
    pub fn new() -> (r: Agent)
        ensures
            r@.nodes.len() == 0,
            r@.x == 0,
            r@.y == 0,
            agent_wf(r@),
    {
        Agent { brain: Vec::new(), x: 0, y: 0, color: Color::random() }
    }

    /// The aliasing-free projection a renderer consumes.
    pub fn renderable_clone(&self) -> (r: RenderableAgent)
        ensures
            r.x == self.x,
            r.y == self.y,
            r.color == self.color,
    {
        RenderableAgent { x: self.x, y: self.y, color: self.color }
    }

    /// Append one node whose kind is chosen uniformly among the four;
    /// a mover's axis is a further coin flip. The new node has no edges,
    /// zero bias and an unset memo.
    pub fn add_random_node(&mut self)
        requires
            agent_wf(old(self)@),
        ensures
            exists|kind: NodeKind| final(self)@.nodes == old(self)@.nodes.push(
                fresh_node(kind, 0),
            ),
            final(self)@.x == old(self)@.x,
            final(self)@.y == old(self)@.y,
            final(self)@.color == old(self)@.color,
            agent_wf(final(self)@),
    {
        let pick = random_index(4);
        let node = if pick == 0 {
            BrainNode::random_source()
        } else if pick == 1 {
            BrainNode::computation(0)
        } else if pick == 2 {
            let axis = if random_bool() {
                Axis::X
            } else {
                Axis::Y
            };
            BrainNode::mover(axis, 0)
        } else {
            BrainNode::forager(0)
        };
        let ghost kind = node@.kind;
        self.brain.push(node);
        proof {
            assert(models(self.brain@) =~= models(old(self).brain@).push(fresh_node(kind, 0)));
            assert(agent_wf(self@)) by {
                assert forall|k: int| 0 <= k < self@.nodes.len() implies node_wf(
                    #[trigger] self@.nodes[k],
                    self@.nodes.len() as int,
                ) by {
                    if k < old(self)@.nodes.len() {
                        assert(node_wf(old(self)@.nodes[k], old(self)@.nodes.len() as int));
                    }
                }
            }
        }
    }

    /// Record the directed edge `from -> to` with the fixed unit weight.
    /// The endpoints must be distinct: a node can never feed itself.
    pub fn connect_nodes(&mut self, from: usize, to: usize)
        requires
            agent_wf(old(self)@),
            from < old(self)@.nodes.len(),
            to < old(self)@.nodes.len(),
            from != to,
        ensures
            final(self)@.nodes == connect_model(old(self)@.nodes, from as int, to as int),
            final(self)@.x == old(self)@.x,
            final(self)@.y == old(self)@.y,
            final(self)@.color == old(self)@.color,
            agent_wf(final(self)@),
    {
        self.brain[to].add_input(from);
        proof {
            let mid = if old(self)@.nodes[to as int].kind is RandomSource {
                old(self)@.nodes
            } else {
                old(self)@.nodes.update(
                    to as int,
                    NodeModel {
                        inputs: old(self)@.nodes[to as int].inputs.push((from as int, SCALE as int)),
                        ..old(self)@.nodes[to as int]
                    },
                )
            };
            assert(models(self.brain@) =~= mid);
        }
        let ghost mid_nodes = models(self.brain@);
        self.brain[from].add_output(to);
        proof {
            assert(models(self.brain@) =~= mid_nodes.update(
                from as int,
                NodeModel {
                    outputs: mid_nodes[from as int].outputs.push(to as int),
                    ..mid_nodes[from as int]
                },
            ));
            assert(final(self)@.nodes =~= connect_model(old(self)@.nodes, from as int, to as int));
            assert(agent_wf(self@)) by {
                assert forall|k: int| 0 <= k < self@.nodes.len() implies node_wf(
                    #[trigger] self@.nodes[k],
                    self@.nodes.len() as int,
                ) by {
                    assert(node_wf(old(self)@.nodes[k], old(self)@.nodes.len() as int));
                }
            }
        }
    }

    /// Draw two distinct node slots uniformly at random and record the
    /// edge from the first to the second.
    pub fn connect_random_nodes(&mut self)
        requires
            agent_wf(old(self)@),
            old(self)@.nodes.len() >= 2,
        ensures
            exists|from: int, to: int| {
                &&& 0 <= from < old(self)@.nodes.len()
                &&& 0 <= to < old(self)@.nodes.len()
                &&& from != to
                &&& final(self)@.nodes == connect_model(old(self)@.nodes, from, to)
            },
            final(self)@.x == old(self)@.x,
            final(self)@.y == old(self)@.y,
            final(self)@.color == old(self)@.color,
            agent_wf(final(self)@),
    {
        let n = self.brain.len();
        let pair = random_distinct_pair(n);
        self.connect_nodes(pair.0, pair.1);
    }
}

} // verus!
