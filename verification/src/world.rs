//! The world: every agent, the shared food grid, the run-time controls,
//! and the tick that drives one simulation step.
//!
//! A tick is gated by the controls (paused, single-step), refreshes the
//! per-tick samples of every random source, evaluates every agent's brain
//! in creation order with the cycle-breaking sentinel discipline of
//! [`crate::eval`], and finally clears every memo so that no node output
//! persists across ticks.

use vstd::prelude::*;
use crate::agent::{Agent, AgentModel, RenderableAgent, agent_wf, connect_model};
use crate::eval::{EvalState, eval_node, unset_ids, food_model, pack, evaluate, wf_state,
    lemma_unset_ids_finite, lemma_eval_node_props};
use crate::fx::SCALE;
use crate::grid::{FOOD_COLS, FOOD_ROWS, FOOD_CELLS, WORLD_WIDTH, WORLD_HEIGHT};
use crate::node::{NodeModel, NodeKind, node_wf};
use crate::rng::random_unit_interval;

verus! {

/// How fast the scheduler runs the simulation when it is not stepped.
#[derive(Clone, Copy, PartialEq, Eq, Structural)]
pub enum GameSpeed {
    Slow,
    Medium,
    Fast,
}

/// The run-time controls a user interface mutates and the scheduler
/// reads: pause gate, start flag, single-step request, and pace.
#[derive(Clone, Copy, PartialEq, Eq, Structural)]
pub struct WorldControls {
    pub paused: bool,
    pub started: bool,
    pub step: bool,
    pub speed: GameSpeed,
}

impl WorldControls {
    /// The initial controls: paused, not started, no step pending, slow.
    pub fn new() -> (r: WorldControls)
        ensures
            r == (WorldControls { paused: true, started: false, step: false, speed: GameSpeed::Slow }),
    {
        WorldControls { paused: true, started: false, step: false, speed: GameSpeed::Slow }
    }
}

/// Milliseconds of pacing delay a scheduler inserts before an unstepped
/// tick: long when slow, short when medium, none when fast. The delay
/// only throttles how often a tick is attempted; it is no part of the
/// evaluation semantics.
pub fn pacing_delay_millis(speed: GameSpeed) -> (r: u64)
    ensures
        speed is Slow ==> r == 400,
        speed is Medium ==> r == 33,
        speed is Fast ==> r == 0,
{
    match speed {
        GameSpeed::Slow => 400,
        GameSpeed::Medium => 33,
        GameSpeed::Fast => 0,
    }
}

/// Whether enough wall-clock time has passed since the last published
/// snapshot to publish another: snapshots are capped at sixty per second.
pub fn publish_due(elapsed_micros: u64) -> (r: bool)
    ensures
        r == (elapsed_micros >= 16_666),
{
    elapsed_micros >= 16_666
}

/// Mathematical image of the world.
#[verifier::ext_equal]
pub struct WorldModel {
    pub controls: WorldControls,
    pub agents: Seq<AgentModel>,
    pub width: int,
    pub height: int,
    pub food: Seq<int>,
}

/// The world: all agents, the food grid, the plane's dimensions and the
/// controls that gate the tick.
pub struct World {
    pub controls: WorldControls,
    pub agents: Vec<Agent>,
    pub width: u32,
    pub height: u32,
    pub food: Vec<i64>,
}

/// The projection of the world a renderer consumes: value copies only,
/// aliasing nothing of the live simulation.
pub struct RenderableWorld {
    pub controls: WorldControls,
    pub agents: Vec<RenderableAgent>,
    pub width: u32,
    pub height: u32,
    pub food: Vec<i64>,
}

/// The images of a sequence of agents.
pub open spec fn agent_models(s: Seq<Agent>) -> Seq<AgentModel> {
    s.map_values(|a: Agent| a@)
}

impl View for World {
    type V = WorldModel;

    open spec fn view(&self) -> WorldModel {
        WorldModel {
            controls: self.controls,
            agents: agent_models(self.agents@),
            width: self.width as int,
            height: self.height as int,
            food: food_model(self.food@),
        }
    }
}

/// Well-formedness of the world: fixed dimensions, a full food grid with
/// every cell in `[0, 1]`, and well-formed agents.
pub open spec fn world_wf(w: WorldModel) -> bool {
    &&& w.width == WORLD_WIDTH as int
    &&& w.height == WORLD_HEIGHT as int
    &&& w.food.len() == FOOD_CELLS as int
    &&& (forall|c: int| 0 <= c < w.food.len() ==> 0 <= #[trigger] w.food[c] <= SCALE as int)
    &&& (forall|a: int| 0 <= a < w.agents.len() ==> agent_wf(#[trigger] w.agents[a]))
}

/// One agent's evaluation pass: the tick walks the brain list in
/// creation order and evaluates each slot only if its memo is still
/// unset.
pub open spec fn run_nodes(s: EvalState, i: int, n: int) -> EvalState
    decreases n - i,
{
    if !(0 <= i < n) {
        s
    } else {
        let s2 = if s.nodes[i].memo is None {
            eval_node(s, i, unset_ids(s.nodes)).0
        } else {
            s
        };
        run_nodes(s2, i + 1, n)
    }
}

/// One agent's pass over its brain, threading the shared food grid.
pub open spec fn run_agent(am: AgentModel, food: Seq<int>) -> (AgentModel, Seq<int>) {
    let s = run_nodes(
        EvalState { nodes: am.nodes, px: am.x, py: am.y, food },
        0,
        am.nodes.len() as int,
    );
    (AgentModel { nodes: s.nodes, x: s.px, y: s.py, color: am.color }, s.food)
}

/// The evaluation passes of all agents from index `a` on, in insertion
/// order, threading the food grid.
pub open spec fn run_agents(agents: Seq<AgentModel>, food: Seq<int>, a: int) -> (
    Seq<AgentModel>,
    Seq<int>,
)
    decreases agents.len() - a,
{
    if !(0 <= a < agents.len()) {
        (agents, food)
    } else {
        let r = run_agent(agents[a], food);
        run_agents(agents.update(a, r.0), r.1, a + 1)
    }
}

/// A node arena with every memo cleared.
pub open spec fn reset_memos(nodes: Seq<NodeModel>) -> Seq<NodeModel> {
    nodes.map_values(|nm: NodeModel| NodeModel { memo: None, ..nm })
}

/// All agents with every memo cleared.
pub open spec fn reset_agents(agents: Seq<AgentModel>) -> Seq<AgentModel> {
    agents.map_values(|am: AgentModel| AgentModel { nodes: reset_memos(am.nodes), ..am })
}

/// The world after one full evaluation pass: every brain evaluated in
/// order, every memo cleared afterwards, and a pending step consumed.
pub open spec fn tick_result(w: WorldModel) -> WorldModel {
    let r = run_agents(w.agents, w.food, 0);
    WorldModel {
        controls: WorldControls { step: false, ..w.controls },
        agents: reset_agents(r.0),
        food: r.1,
        ..w
    }
}

/// Node `b` is node `a` with at most its per-tick sample refreshed: a
/// random source holds a fresh value of `[-1, 1]`, every other kind keeps
/// its sample.
pub open spec fn node_resampled(a: NodeModel, b: NodeModel) -> bool {
    &&& b == (NodeModel { sample: b.sample, ..a })
    &&& (a.kind is RandomSource ==> -(SCALE as int) <= b.sample <= SCALE as int)
    &&& (!(a.kind is RandomSource) ==> b.sample == a.sample)
}

/// Agent `b` is agent `a` with its random sources' samples refreshed.
pub open spec fn agent_resampled(a: AgentModel, b: AgentModel) -> bool {
    &&& b.x == a.x
    &&& b.y == a.y
    &&& b.color == a.color
    &&& b.nodes.len() == a.nodes.len()
    &&& (forall|j: int| 0 <= j < a.nodes.len() ==> node_resampled(a.nodes[j], #[trigger] b.nodes[j]))
}

/// World `b` is world `a` with every random source's sample refreshed
/// and nothing else changed.
pub open spec fn world_resampled(a: WorldModel, b: WorldModel) -> bool {
    &&& b.controls == a.controls
    &&& b.width == a.width
    &&& b.height == a.height
    &&& b.food == a.food
    &&& b.agents.len() == a.agents.len()
    &&& (forall|i: int|
        0 <= i < a.agents.len() ==> agent_resampled(a.agents[i], #[trigger] b.agents[i]))
}

/// No node of any agent holds a memoized output.
pub open spec fn all_memos_unset(w: WorldModel) -> bool {
    forall|i: int, j: int|
        0 <= i < w.agents.len() && 0 <= j < w.agents[i].nodes.len()
            ==> (#[trigger] w.agents[i].nodes[j].memo) is None
}

/// Refresh the per-tick sample of every random source in one agent's
/// brain; every other node is left untouched.
fn refresh_agent_samples(agent: &mut Agent)
    requires
        agent_wf(old(agent)@),
    ensures
        agent_resampled(old(agent)@, final(agent)@),
        agent_wf(final(agent)@),
{
    let ghost a0 = agent@;
    let n = agent.brain.len();
    let mut k: usize = 0;
    while k < n
        invariant
            k <= n,
            n == agent.brain@.len(),
            agent.x == a0.x,
            agent.y == a0.y,
            agent.color == a0.color,
            agent@.nodes.len() == a0.nodes.len(),
            forall|j: int| 0 <= j < k ==> node_resampled(a0.nodes[j], #[trigger] agent@.nodes[j]),
            forall|j: int| k <= j < n ==> #[trigger] agent@.nodes[j] == a0.nodes[j],
        decreases n - k,
    {
        let ghost before = agent@.nodes;
        let is_rs = match agent.brain[k].kind {
            NodeKind::RandomSource => true,
            _ => false,
        };
        if is_rs {
            let v = crate::rng::random_signed_unit();
            agent.brain[k].sample = v;
            proof {
                assert(agent@.nodes =~= before.update(
                    k as int,
                    NodeModel { sample: v as int, ..before[k as int] },
                )) by {
                    assert(agent.brain@[k as int]@ =~= (NodeModel {
                        sample: v as int,
                        ..before[k as int]
                    }));
                }
                assert(node_resampled(a0.nodes[k as int], agent@.nodes[k as int])) by {
                    assert(agent@.nodes[k as int] =~= (NodeModel {
                        sample: v as int,
                        ..a0.nodes[k as int]
                    }));
                }
            }
        } else {
            proof {
                assert(node_resampled(a0.nodes[k as int], agent@.nodes[k as int])) by {
                    assert(agent@.nodes[k as int] =~= (NodeModel {
                        sample: a0.nodes[k as int].sample,
                        ..a0.nodes[k as int]
                    }));
                }
            }
        }
        k = k + 1;
    }
    proof {
        assert(agent_wf(agent@)) by {
            assert forall|j: int| 0 <= j < agent@.nodes.len() implies node_wf(
                #[trigger] agent@.nodes[j],
                agent@.nodes.len() as int,
            ) by {
                assert(node_wf(a0.nodes[j], a0.nodes.len() as int));
                assert(node_resampled(a0.nodes[j], agent@.nodes[j]));
            }
        }
    }
}

/// Clear every memo of one agent's brain, readying it for the next tick.
fn clear_agent_memos(agent: &mut Agent)
    requires
        agent_wf(old(agent)@),
    ensures
        final(agent)@ == (AgentModel { nodes: reset_memos(old(agent)@.nodes), ..old(agent)@ }),
        agent_wf(final(agent)@),
{
    let ghost a0 = agent@;
    let n = agent.brain.len();
    let mut k: usize = 0;
    while k < n
        invariant
            k <= n,
            n == agent.brain@.len(),
            agent.x == a0.x,
            agent.y == a0.y,
            agent.color == a0.color,
            agent@.nodes.len() == a0.nodes.len(),
            forall|j: int|
                0 <= j < k ==> #[trigger] agent@.nodes[j] == (NodeModel {
                    memo: None,
                    ..a0.nodes[j]
                }),
            forall|j: int| k <= j < n ==> #[trigger] agent@.nodes[j] == a0.nodes[j],
        decreases n - k,
    {
        let ghost before = agent@.nodes;
        agent.brain[k].reset_output();
        proof {
            assert(agent@.nodes =~= before.update(
                k as int,
                NodeModel { memo: None, ..before[k as int] },
            ));
            assert(agent@.nodes[k as int] =~= (NodeModel { memo: None, ..a0.nodes[k as int] }));
        }
        k = k + 1;
    }
    proof {
        assert(agent@.nodes =~= reset_memos(a0.nodes));
        assert(agent@ =~= (AgentModel { nodes: reset_memos(a0.nodes), ..a0 }));
        assert(agent_wf(agent@)) by {
            assert forall|j: int| 0 <= j < agent@.nodes.len() implies node_wf(
                #[trigger] agent@.nodes[j],
                agent@.nodes.len() as int,
            ) by {
                assert(node_wf(a0.nodes[j], a0.nodes.len() as int));
            }
        }
    }
}

impl Agent {
    /// Run this agent's evaluation pass over its brain against the given
    /// food grid: every node slot in creation order, each evaluated only
    /// if its memo is still unset, with the sentinel discipline breaking
    /// cycles. Memos are left in place for inspection; the tick clears
    /// them afterwards.
    pub fn run_brain(&mut self, food: &mut Vec<i64>)
        requires
            agent_wf(old(self)@),
            wf_state(pack(old(self).brain@, old(self).x, old(self).y, old(food)@)),
        ensures
            final(self)@ == run_agent(old(self)@, food_model(old(food)@)).0,
            food_model(final(food)@) == run_agent(old(self)@, food_model(old(food)@)).1,
            agent_wf(final(self)@),
            wf_state(pack(final(self).brain@, final(self).x, final(self).y, final(food)@)),
    {
        let ghost a0 = self@;
        let ghost s_init = pack(self.brain@, self.x, self.y, food@);
        let n = self.brain.len();
        proof {
            assert(s_init == (EvalState { nodes: a0.nodes, px: a0.x, py: a0.y, food: food_model(food@) }));
        }
        let mut i: usize = 0;
        while i < n
            invariant
                i <= n,
                n == self.brain@.len(),
                self.color == a0.color,
                0 <= self.x <= crate::grid::X_LIMIT,
                0 <= self.y <= crate::grid::Y_LIMIT,
                wf_state(pack(self.brain@, self.x, self.y, food@)),
                run_nodes(s_init, 0, n as int) == run_nodes(
                    pack(self.brain@, self.x, self.y, food@),
                    i as int,
                    n as int,
                ),
            decreases n - i,
        {
            let ghost cur = pack(self.brain@, self.x, self.y, food@);
            let memo = self.brain[i].get_output();
            match memo {
                Some(_) => {
                    proof {
                        assert(cur.nodes[i as int].memo is Some);
                        assert(run_nodes(cur, i as int, n as int) == run_nodes(
                            cur,
                            i as int + 1,
                            n as int,
                        ));
                    }
                },
                None => {
                    proof {
                        assert(cur.nodes[i as int].memo is None);
                        lemma_unset_ids_finite(cur.nodes);
                    }
                    let _ = evaluate(
                        &mut self.brain,
                        i,
                        &mut self.x,
                        &mut self.y,
                        food,
                        Ghost(unset_ids(cur.nodes)),
                    );
                    proof {
                        let nxt = pack(self.brain@, self.x, self.y, food@);
                        assert(nxt == eval_node(cur, i as int, unset_ids(cur.nodes)).0);
                        lemma_eval_node_props(cur, i as int, unset_ids(cur.nodes));
                        assert(run_nodes(cur, i as int, n as int) == run_nodes(
                            nxt,
                            i as int + 1,
                            n as int,
                        ));
                    }
                },
            }
            i = i + 1;
        }
        proof {
            let fin = pack(self.brain@, self.x, self.y, food@);
            assert(run_nodes(fin, n as int, n as int) == fin);
            assert(fin == run_nodes(s_init, 0, n as int));
            assert(self@ =~= run_agent(a0, food_model(old(food)@)).0);
            assert(agent_wf(self@)) by {
                assert forall|j: int| 0 <= j < self@.nodes.len() implies node_wf(
                    #[trigger] self@.nodes[j],
                    self@.nodes.len() as int,
                ) by {}
            }
        }
    }
}

impl World {
    /// A new world under the given controls: no agents yet, the fixed
    /// dimensions, and a food grid of uniformly random levels.
    pub fn new(controls: WorldControls) -> (r: World)
        ensures
            r@.controls == controls,
            r@.agents.len() == 0,
            world_wf(r@),
    {
        let mut food: Vec<i64> = Vec::new();
        let mut c: usize = 0;
        while c < FOOD_CELLS
            invariant
                c <= FOOD_CELLS,
                c == food@.len(),
                forall|j: int| 0 <= j < food@.len() ==> 0 <= #[trigger] food@[j] < SCALE,
            decreases FOOD_CELLS - c,
        {
            food.push(random_unit_interval());
            c = c + 1;
        }
        let r = World {
            controls,
            agents: Vec::new(),
            width: WORLD_WIDTH,
            height: WORLD_HEIGHT,
            food,
        };
        proof {
            assert(world_wf(r@)) by {
                assert(agent_models(r.agents@) =~= Seq::<AgentModel>::empty());
                assert forall|j: int| 0 <= j < r@.food.len() implies 0 <= #[trigger] r@.food[j]
                    <= SCALE as int by {
                    assert(0 <= r.food@[j] < SCALE);
                }
            }
        }
        r
    }

    /// Append one ready-made agent.
    pub fn add_agent(&mut self, agent: Agent)
        requires
            world_wf(old(self)@),
            agent_wf(agent@),
        ensures
            final(self)@ == (WorldModel { agents: old(self)@.agents.push(agent@), ..old(self)@ }),
            world_wf(final(self)@),
    {
        let ghost am = agent@;
        self.agents.push(agent);
        proof {
            assert(agent_models(self.agents@) =~= agent_models(old(self).agents@).push(am));
            assert(self@ =~= (WorldModel { agents: old(self)@.agents.push(am), ..old(self)@ }));
            assert(world_wf(self@)) by {
                assert forall|a: int| 0 <= a < self@.agents.len() implies agent_wf(
                    #[trigger] self@.agents[a],
                ) by {
                    if a < old(self)@.agents.len() {
                        assert(agent_wf(old(self)@.agents[a]));
                    }
                }
            }
        }
    }

    /// Grow and append `n` agents, each with the fixed brain: fifteen
    /// nodes of uniformly random kind, then twenty-five random directed
    /// edges of unit weight.
    pub fn add_n_agents(&mut self, n: usize)
        requires
            world_wf(old(self)@),
            old(self)@.agents.len() + n <= usize::MAX,
        ensures
            world_wf(final(self)@),
            final(self)@.agents.len() == old(self)@.agents.len() + n,
            forall|i: int|
                0 <= i < old(self)@.agents.len() ==> #[trigger] final(self)@.agents[i] == old(
                    self,
                )@.agents[i],
            forall|i: int|
                old(self)@.agents.len() <= i < final(self)@.agents.len() ==> {
                    &&& (#[trigger] final(self)@.agents[i]).nodes.len() == 15
                    &&& final(self)@.agents[i].x == 0
                    &&& final(self)@.agents[i].y == 0
                    &&& crate::agent::grown_brain(final(self)@.agents[i].nodes, 15, 25)
                    &&& forall|j: int|
                        0 <= j < final(self)@.agents[i].nodes.len() ==> (
                        #[trigger] final(self)@.agents[i].nodes[j].memo) is None
                },
            final(self)@.controls == old(self)@.controls,
            final(self)@.food == old(self)@.food,
            final(self)@.width == old(self)@.width,
            final(self)@.height == old(self)@.height,
    {
        let ghost w0 = self@;
        let mut m: usize = 0;
        while m < n
            invariant
                m <= n,
                w0.agents.len() + n <= usize::MAX,
                self@.agents.len() == w0.agents.len() + m,
                forall|i: int| 0 <= i < w0.agents.len() ==> #[trigger] self@.agents[i] == w0.agents[i],
                forall|i: int|
                    w0.agents.len() <= i < self@.agents.len() ==> {
                        &&& (#[trigger] self@.agents[i]).nodes.len() == 15
                        &&& self@.agents[i].x == 0
                        &&& self@.agents[i].y == 0
                        &&& crate::agent::grown_brain(self@.agents[i].nodes, 15, 25)
                        &&& forall|j: int|
                            0 <= j < self@.agents[i].nodes.len() ==> (
                            #[trigger] self@.agents[i].nodes[j].memo) is None
                    },
                forall|i: int| 0 <= i < self@.agents.len() ==> agent_wf(#[trigger] self@.agents[i]),
                self@.controls == w0.controls,
                self@.food == w0.food,
                self@.width == w0.width,
                self@.height == w0.height,
                world_wf(self@),
            decreases n - m,
        {
            let mut agent = Agent::new();
            let ghost mut kinds: Seq<NodeKind> = Seq::empty();
            let mut k: usize = 0;
            while k < 15
                invariant
                    k <= 15,
                    kinds.len() == k,
                    agent@.nodes == crate::agent::fresh_arena(kinds),
                    agent@.nodes.len() == k,
                    agent@.x == 0,
                    agent@.y == 0,
                    agent_wf(agent@),
                decreases 15 - k,
            {
                let ghost before = agent@.nodes;
                agent.add_random_node();
                proof {
                    let kind = choose|kind: NodeKind| agent@.nodes == before.push(
                        crate::node::fresh_node(kind, 0),
                    );
                    assert(agent@.nodes == before.push(crate::node::fresh_node(kind, 0)));
                    kinds = kinds.push(kind);
                    assert(agent@.nodes =~= crate::agent::fresh_arena(kinds));
                }
                k = k + 1;
            }
            let ghost mut edges: Seq<(int, int)> = Seq::empty();
            proof {
                assert(crate::agent::apply_edges(crate::agent::fresh_arena(kinds), edges)
                    == agent@.nodes);
            }
            let mut e: usize = 0;
            while e < 25
                invariant
                    e <= 25,
                    kinds.len() == 15,
                    edges.len() == e,
                    forall|q: int|
                        0 <= q < edges.len() ==> {
                            &&& 0 <= (#[trigger] edges[q]).0 < 15
                            &&& 0 <= edges[q].1 < 15
                            &&& edges[q].0 != edges[q].1
                        },
                    agent@.nodes == crate::agent::apply_edges(
                        crate::agent::fresh_arena(kinds),
                        edges,
                    ),
                    agent@.nodes.len() == 15,
                    agent@.x == 0,
                    agent@.y == 0,
                    agent_wf(agent@),
                decreases 25 - e,
            {
                let ghost before = agent@.nodes;
                agent.connect_random_nodes();
                proof {
                    let (from, to) = choose|from: int, to: int| {
                        &&& 0 <= from < before.len()
                        &&& 0 <= to < before.len()
                        &&& from != to
                        &&& agent@.nodes == connect_model(before, from, to)
                    };
                    assert(agent@.nodes == connect_model(before, from, to));
                    let prev = edges;
                    edges = edges.push((from, to));
                    assert(edges.drop_last() =~= prev);
                    assert(edges.last() == (from, to));
                    assert(crate::agent::apply_edges(crate::agent::fresh_arena(kinds), edges)
                        == connect_model(before, from, to));
                }
                e = e + 1;
            }
            proof {
                assert(crate::agent::grown_brain(agent@.nodes, 15, 25));
                crate::agent::lemma_apply_edges_keeps_memos(
                    crate::agent::fresh_arena(kinds),
                    edges,
                );
                assert forall|j: int| 0 <= j < agent@.nodes.len() implies (
                #[trigger] agent@.nodes[j].memo) is None by {
                    assert(crate::agent::fresh_arena(kinds)[j].memo is None);
                }
            }
            self.add_agent(agent);
            m = m + 1;
        }
    }

    /// The food level of the cell in column `x`, row `y`.
    pub fn get_food_cell(&self, x: usize, y: usize) -> (r: i64)
        requires
            x < FOOD_COLS,
            y < FOOD_ROWS,
            self@.food.len() == FOOD_CELLS as int,
        ensures
            r as int == self@.food[x as int * FOOD_ROWS as int + y as int],
    {
        self.food[x * FOOD_ROWS + y]
    }

    /// Overwrite the food level of the cell in column `x`, row `y`.
    pub fn set_food_cell(&mut self, x: usize, y: usize, v: i64)
        requires
            world_wf(old(self)@),
            x < FOOD_COLS,
            y < FOOD_ROWS,
            0 <= v <= SCALE,
        ensures
            final(self)@ == (WorldModel {
                food: old(self)@.food.update(x as int * FOOD_ROWS as int + y as int, v as int),
                ..old(self)@
            }),
            world_wf(final(self)@),
    {
        self.food[x * FOOD_ROWS + y] = v;
        proof {
            assert(food_model(self.food@) =~= old(self)@.food.update(
                x as int * FOOD_ROWS as int + y as int,
                v as int,
            ));
            assert(self@ =~= (WorldModel {
                food: old(self)@.food.update(x as int * FOOD_ROWS as int + y as int, v as int),
                ..old(self)@
            }));
        }
    }

    /// One simulation tick.
    ///
    /// Gated by the controls: paused without a pending step, nothing at
    /// all changes. Otherwise a pending step is consumed and one full
    /// evaluation pass runs: every random source gets a fresh sample,
    /// every agent's brain is evaluated in creation order under the
    /// sentinel discipline (side effects moving agents and depleting
    /// food), and every memo is cleared again, so no node output survives
    /// into the next tick. Returns whether a pass ran.
    pub fn simulate_frame(&mut self) -> (ticked: bool)
        requires
            world_wf(old(self)@),
        ensures
            world_wf(final(self)@),
            (old(self)@.controls.paused && !old(self)@.controls.step) ==> {
                &&& final(self)@ == old(self)@
                &&& !ticked
            },
            !(old(self)@.controls.paused && !old(self)@.controls.step) ==> {
                &&& ticked
                &&& exists|mid: WorldModel|
                    #[trigger] world_resampled(old(self)@, mid) && final(self)@ == tick_result(mid)
                &&& final(self)@.controls == (WorldControls { step: false, ..old(self)@.controls })
                &&& all_memos_unset(final(self)@)
            },
    {
        let ghost w0 = self@;
        if self.controls.paused && !self.controls.step {
            return false;
        }
        // Consume a pending step; when the simulation simply runs, the
        // flag was false already.
        self.controls.step = false;

        // First phase: refresh the per-tick sample of every random
        // source, the one draw per node and tick the evaluation reads.
        let na = self.agents.len();
        let mut a: usize = 0;
        while a < na
            invariant
                a <= na,
                na == self.agents@.len(),
                self.controls == (WorldControls { step: false, ..w0.controls }),
                self@.width == w0.width,
                self@.height == w0.height,
                self@.food == w0.food,
                self@.agents.len() == w0.agents.len(),
                forall|i: int| 0 <= i < a ==> agent_resampled(w0.agents[i], #[trigger] self@.agents[i]),
                forall|i: int| a <= i < na ==> #[trigger] self@.agents[i] == w0.agents[i],
                forall|i: int| 0 <= i < na ==> agent_wf(#[trigger] self@.agents[i]),
                world_wf(w0),
            decreases na - a,
        {
            let ghost before = agent_models(self.agents@);
            proof {
                assert(self.agents@[a as int]@ == before[a as int]);
                assert(before[a as int] == w0.agents[a as int]);
                assert(agent_wf(before[a as int]));
            }
            refresh_agent_samples(&mut self.agents[a]);
            proof {
                assert(agent_models(self.agents@) =~= before.update(
                    a as int,
                    self.agents@[a as int]@,
                ));
                assert(agent_resampled(w0.agents[a as int], self@.agents[a as int]));
                assert forall|i: int| 0 <= i < na implies agent_wf(#[trigger] self@.agents[i]) by {
                    if i != a as int {
                        assert(self@.agents[i] == before[i]);
                        assert(agent_wf(before[i]));
                    }
                }
            }
            a = a + 1;
        }
        let ghost mid = WorldModel {
            controls: w0.controls,
            agents: agent_models(self.agents@),
            width: w0.width,
            height: w0.height,
            food: w0.food,
        };
        proof {
            assert(world_resampled(w0, mid));
            assert(food_model(self.food@) == mid.food);
        }

        // Second phase: one evaluation pass over every agent, in
        // insertion order, threading the shared food grid.
        let mut a: usize = 0;
        while a < na
            invariant
                a <= na,
                na == self.agents@.len(),
                self.controls == (WorldControls { step: false, ..w0.controls }),
                self@.width == w0.width,
                self@.height == w0.height,
                self@.food.len() == FOOD_CELLS as int,
                forall|c: int| 0 <= c < self@.food.len() ==> 0 <= #[trigger] self@.food[c] <= SCALE as int,
                forall|i: int| 0 <= i < na ==> agent_wf(#[trigger] self@.agents[i]),
                run_agents(mid.agents, mid.food, 0) == run_agents(
                    agent_models(self.agents@),
                    food_model(self.food@),
                    a as int,
                ),
            decreases na - a,
        {
            let ghost cura = agent_models(self.agents@);
            let ghost curf = food_model(self.food@);
            proof {
                assert(self.agents@[a as int]@ == cura[a as int]);
                assert(self@.agents[a as int] == cura[a as int]);
                assert(agent_wf(cura[a as int]));
                assert(wf_state(pack(
                    self.agents@[a as int].brain@,
                    self.agents@[a as int].x,
                    self.agents@[a as int].y,
                    self.food@,
                )));
            }
            self.agents[a].run_brain(&mut self.food);
            proof {
                let r = run_agent(cura[a as int], curf);
                assert(self.agents@[a as int]@ == r.0);
                assert(agent_models(self.agents@) =~= cura.update(a as int, r.0));
                assert(food_model(self.food@) == r.1);
                assert(run_agents(cura, curf, a as int) == run_agents(
                    agent_models(self.agents@),
                    food_model(self.food@),
                    a as int + 1,
                ));
                assert forall|i: int| 0 <= i < na implies agent_wf(#[trigger] self@.agents[i]) by {
                    if i != a as int {
                        assert(self@.agents[i] == cura[i]);
                        assert(agent_wf(cura[i]));
                    }
                }
            }
            a = a + 1;
        }
        let ghost post = agent_models(self.agents@);
        let ghost postfood = food_model(self.food@);
        proof {
            assert(run_agents(post, postfood, na as int) == (post, postfood));
            assert(run_agents(mid.agents, mid.food, 0) == (post, postfood));
        }

        // Third phase: clear every memo, so the next tick starts fresh.
        let mut a: usize = 0;
        while a < na
            invariant
                a <= na,
                na == self.agents@.len(),
                post.len() == na,
                self.controls == (WorldControls { step: false, ..w0.controls }),
                self@.width == w0.width,
                self@.height == w0.height,
                food_model(self.food@) == postfood,
                self@.food.len() == FOOD_CELLS as int,
                forall|c: int| 0 <= c < self@.food.len() ==> 0 <= #[trigger] self@.food[c] <= SCALE as int,
                forall|i: int|
                    0 <= i < a ==> #[trigger] self@.agents[i] == (AgentModel {
                        nodes: reset_memos(post[i].nodes),
                        ..post[i]
                    }),
                forall|i: int| a <= i < na ==> #[trigger] self@.agents[i] == post[i],
                forall|i: int| 0 <= i < na ==> agent_wf(#[trigger] self@.agents[i]),
            decreases na - a,
        {
            let ghost before = agent_models(self.agents@);
            proof {
                assert(self@.agents[a as int] == post[a as int]);
                assert(agent_wf(self@.agents[a as int]));
                assert(self.agents@[a as int]@ == before[a as int]);
                assert(before[a as int] == post[a as int]);
            }
            clear_agent_memos(&mut self.agents[a]);
            proof {
                assert(agent_models(self.agents@) =~= before.update(
                    a as int,
                    self.agents@[a as int]@,
                ));
                assert(self@.agents[a as int] == (AgentModel {
                    nodes: reset_memos(post[a as int].nodes),
                    ..post[a as int]
                }));
                assert forall|i: int| 0 <= i < na implies agent_wf(#[trigger] self@.agents[i]) by {
                    if i != a as int {
                        assert(self@.agents[i] == before[i]);
                        assert(agent_wf(before[i]));
                    }
                }
            }
            a = a + 1;
        }

        proof {
            assert(agent_models(self.agents@) =~= reset_agents(post));
            assert(self@ =~= tick_result(mid));
            assert(all_memos_unset(self@)) by {
                assert forall|i: int, j: int|
                    0 <= i < self@.agents.len() && 0 <= j < self@.agents[i].nodes.len() implies (
                #[trigger] self@.agents[i].nodes[j].memo) is None by {
                    assert(self@.agents[i].nodes == reset_memos(post[i].nodes));
                }
            }
        }
        true
    }

    /// The aliasing-free projection of the whole world a renderer
    /// consumes: positions, colors, the food grid, the dimensions and a
    /// copy of the controls.
    pub fn renderable_clone(&self) -> (r: RenderableWorld)
        ensures
            r.controls == self.controls,
            r.width == self.width,
            r.height == self.height,
            r.food@ == self.food@,
            r.agents@.len() == self@.agents.len(),
            forall|i: int|
                0 <= i < r.agents@.len() ==> {
                    &&& (#[trigger] r.agents@[i]).x as int == self@.agents[i].x
                    &&& r.agents@[i].y as int == self@.agents[i].y
                    &&& r.agents@[i].color == self@.agents[i].color
                },
    {
        let mut ags: Vec<RenderableAgent> = Vec::new();
        let na = self.agents.len();
        let mut a: usize = 0;
        while a < na
            invariant
                a <= na,
                na == self.agents@.len(),
                ags@.len() == a,
                forall|i: int|
                    0 <= i < a ==> {
                        &&& (#[trigger] ags@[i]).x == self.agents@[i].x
                        &&& ags@[i].y == self.agents@[i].y
                        &&& ags@[i].color == self.agents@[i].color
                    },
            decreases na - a,
        {
            ags.push(self.agents[a].renderable_clone());
            a = a + 1;
        }
        let mut fd: Vec<i64> = Vec::new();
        let nf = self.food.len();
        let mut c: usize = 0;
        while c < nf
            invariant
                c <= nf,
                nf == self.food@.len(),
                fd@.len() == c,
                forall|j: int| 0 <= j < c ==> #[trigger] fd@[j] == self.food@[j],
            decreases nf - c,
        {
            fd.push(self.food[c]);
            c = c + 1;
        }
        proof {
            assert(fd@ =~= self.food@);
        }
        RenderableWorld {
            controls: self.controls,
            agents: ags,
            width: self.width,
            height: self.height,
            food: fd,
        }
    }
}

} // verus!
