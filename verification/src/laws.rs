//! The library's laws: properties of the evaluation semantics and the
//! tick, stated and proved over the specification model. The pause gate
//! and the step consumption are stated directly on
//! [`crate::world::World::simulate_frame`]'s contract; the laws here
//! cover what holds of every state and every evaluation.

use vstd::prelude::*;
use crate::agent::agent_wf;
use crate::eval::{EvalState, eval_node, eval_inputs, unset_ids, wf_state, effects_bounded, frame,
    lemma_eval_node_props, lemma_unset_ids_finite, set_memo};
use crate::fx::{SCALE, act_spec, tdiv};
use crate::grid::{FOOD_CELLS, X_LIMIT, Y_LIMIT};
use crate::node::{NodeModel, NodeKind, Axis, input_nodes, input_weights, node_wf};
use crate::world::{WorldModel, world_wf, run_nodes, run_agent, run_agents, reset_memos,
    reset_agents, tick_result, all_memos_unset, world_resampled, agent_resampled, node_resampled};

verus! {

/// Every node carries exactly one weight per input edge: the two
/// projections of the edge list always have the same length, whatever is
/// done to the node.
pub proof fn lemma_inputs_weights_aligned(nm: NodeModel)
    ensures
        input_nodes(nm).len() == input_weights(nm).len(),
{
}

/// A mover whose memo is unset and whose slot is in the recursion budget
/// leaves the agent's coordinate on its axis inside the world, whatever
/// the coordinate was before and whatever the mover's output: the move is
/// clamped last.
pub proof fn lemma_mover_clamps(s: EvalState, i: int, avail: Set<int>, axis: Axis)
    requires
        avail.finite(),
        0 <= i < s.nodes.len(),
        s.nodes[i].kind == NodeKind::Mover(axis),
        s.nodes[i].memo is None,
        avail.contains(i),
    ensures
        axis is X ==> 0 <= eval_node(s, i, avail).0.px <= X_LIMIT as int,
        axis is Y ==> 0 <= eval_node(s, i, avail).0.py <= Y_LIMIT as int,
{
}

/// The food floor: evaluation never lifts a cell above its old level and
/// never pushes one below zero.
pub proof fn lemma_food_floor(s: EvalState, i: int, avail: Set<int>)
    requires
        avail.finite(),
        wf_state(s),
    ensures
        forall|c: int|
            0 <= c < s.food.len() ==> 0 <= #[trigger] eval_node(s, i, avail).0.food[c]
                <= s.food[c],
{
    lemma_eval_node_props(s, i, avail);
}

/// One agent's whole evaluation pass preserves well-formedness, leaves
/// each coordinate alone or clamped into the world, and only ever lowers
/// food cells.
pub proof fn lemma_run_nodes_props(s: EvalState, i: int, n: int)
    requires
        wf_state(s),
    ensures
        wf_state(run_nodes(s, i, n)),
        effects_bounded(s, run_nodes(s, i, n)),
        frame(s, run_nodes(s, i, n)),
    decreases n - i,
{
    if !(0 <= i < n) {
    } else {
        let s2 = if s.nodes[i].memo is None {
            eval_node(s, i, unset_ids(s.nodes)).0
        } else {
            s
        };
        if s.nodes[i].memo is None {
            lemma_unset_ids_finite(s.nodes);
            lemma_eval_node_props(s, i, unset_ids(s.nodes));
        }
        lemma_run_nodes_props(s2, i + 1, n);
        crate::eval::lemma_frame_trans(s, s2, run_nodes(s2, i + 1, n));
        assert(effects_bounded(s, run_nodes(s, i, n))) by {
            assert forall|c: int|
                0 <= c < s.food.len() implies #[trigger] run_nodes(s, i, n).food[c]
                    <= s.food[c] by {
                assert(s2.food[c] <= s.food[c]);
                assert(run_nodes(s2, i + 1, n).food[c] <= s2.food[c]);
            }
        }
    }
}

/// The evaluation passes of all agents preserve every agent's
/// well-formedness and the food grid's size and range, and only ever
/// lower food cells.
pub proof fn lemma_run_agents_props(agents: Seq<crate::agent::AgentModel>, food: Seq<int>, a: int)
    requires
        forall|i: int| 0 <= i < agents.len() ==> agent_wf(#[trigger] agents[i]),
        food.len() == FOOD_CELLS as int,
        forall|c: int| 0 <= c < food.len() ==> 0 <= #[trigger] food[c] <= SCALE as int,
    ensures
        run_agents(agents, food, a).0.len() == agents.len(),
        forall|i: int|
            0 <= i < agents.len() ==> agent_wf(#[trigger] run_agents(agents, food, a).0[i]),
        run_agents(agents, food, a).1.len() == FOOD_CELLS as int,
        forall|c: int|
            0 <= c < food.len() ==> 0 <= #[trigger] run_agents(agents, food, a).1[c] <= food[c],
    decreases agents.len() - a,
{
    if !(0 <= a < agents.len()) {
    } else {
        let s = EvalState { nodes: agents[a].nodes, px: agents[a].x, py: agents[a].y, food };
        let n = agents[a].nodes.len() as int;
        assert(wf_state(s)) by {
            assert(agent_wf(agents[a]));
        }
        lemma_run_nodes_props(s, 0, n);
        let t = run_nodes(s, 0, n);
        let r = run_agent(agents[a], food);
        assert(agent_wf(r.0)) by {
            assert(frame(s, t));
            assert forall|k: int| 0 <= k < r.0.nodes.len() implies node_wf(
                #[trigger] r.0.nodes[k],
                r.0.nodes.len() as int,
            ) by {}
            assert(effects_bounded(s, t));
        }
        let agents2 = agents.update(a, r.0);
        assert(forall|i: int| 0 <= i < agents2.len() ==> agent_wf(#[trigger] agents2[i]));
        lemma_run_agents_props(agents2, r.1, a + 1);
        assert forall|c: int|
            0 <= c < food.len() implies 0 <= #[trigger] run_agents(agents, food, a).1[c]
                <= food[c] by {
            assert(run_agents(agents2, r.1, a + 1).1[c] <= r.1[c]);
            assert(r.1[c] <= food[c]);
        }
    }
}

/// The tick as a whole: it preserves the world's well-formedness — so
/// every agent's coordinates end the tick inside the world and every food
/// cell inside `[0, 1]` — it only ever lowers food cells, and it leaves
/// every memo of every node unset.
pub proof fn lemma_tick_result_wf(w: WorldModel)
    requires
        world_wf(w),
    ensures
        world_wf(tick_result(w)),
        all_memos_unset(tick_result(w)),
        forall|c: int|
            0 <= c < w.food.len() ==> 0 <= #[trigger] tick_result(w).food[c] <= w.food[c],
{
    lemma_run_agents_props(w.agents, w.food, 0);
    let r = run_agents(w.agents, w.food, 0);
    let t = tick_result(w);
    assert(t.agents == reset_agents(r.0));
    assert forall|i: int| 0 <= i < t.agents.len() implies agent_wf(#[trigger] t.agents[i]) by {
        assert(agent_wf(r.0[i]));
        assert(t.agents[i].nodes == reset_memos(r.0[i].nodes));
        assert forall|k: int| 0 <= k < t.agents[i].nodes.len() implies node_wf(
            #[trigger] t.agents[i].nodes[k],
            t.agents[i].nodes.len() as int,
        ) by {
            assert(node_wf(r.0[i].nodes[k], r.0[i].nodes.len() as int));
            assert(t.agents[i].nodes[k] == (NodeModel { memo: None, ..r.0[i].nodes[k] }));
        }
    }
    assert(all_memos_unset(t)) by {
        assert forall|i: int, j: int|
            0 <= i < t.agents.len() && 0 <= j < t.agents[i].nodes.len() implies (
        #[trigger] t.agents[i].nodes[j].memo) is None by {
            assert(t.agents[i].nodes == reset_memos(r.0[i].nodes));
        }
    }
}

/// Repeat evaluations are short-circuited: a node whose memo is set hands
/// out the memoized value and changes nothing at all.
pub proof fn lemma_memoized_node_is_stable(s: EvalState, i: int, avail: Set<int>)
    requires
        avail.finite(),
        0 <= i < s.nodes.len(),
        s.nodes[i].memo is Some,
    ensures
        eval_node(s, i, avail) == (s, s.nodes[i].memo->Some_0),
{
}

/// One pass evaluates every node exactly once: at most once by the memo
/// short circuit, and at least once because after the pass every slot
/// from `i` on is memoized, and every memo already set survives.
pub proof fn lemma_pass_memoizes_every_node(s: EvalState, i: int, n: int)
    requires
        wf_state(s),
        n == s.nodes.len(),
        0 <= i,
    ensures
        forall|j: int| i <= j < n ==> (#[trigger] run_nodes(s, i, n).nodes[j].memo) is Some,
        forall|j: int|
            0 <= j < n && s.nodes[j].memo is Some ==> (
            #[trigger] run_nodes(s, i, n).nodes[j].memo) is Some,
    decreases n - i,
{
    if !(0 <= i < n) {
    } else {
        let s2 = if s.nodes[i].memo is None {
            eval_node(s, i, unset_ids(s.nodes)).0
        } else {
            s
        };
        if s.nodes[i].memo is None {
            lemma_unset_ids_finite(s.nodes);
            lemma_eval_node_props(s, i, unset_ids(s.nodes));
            assert(unset_ids(s.nodes).contains(i));
            assert(s2.nodes[i].memo is Some);
        }
        lemma_run_nodes_props(s2, i + 1, n);
        lemma_pass_memoizes_every_node(s2, i + 1, n);
        assert forall|j: int|
            i <= j < n implies (#[trigger] run_nodes(s, i, n).nodes[j].memo) is Some by {
            if j == i {
                assert(s2.nodes[i].memo is Some);
            }
        }
    }
}

/// A world without random sources is deterministic: refreshing samples
/// changes nothing, so its tick has exactly one possible outcome.
pub proof fn lemma_resample_identity_without_random_sources(a: WorldModel, b: WorldModel)
    requires
        world_resampled(a, b),
        forall|i: int, j: int|
            0 <= i < a.agents.len() && 0 <= j < a.agents[i].nodes.len() ==> !((
            #[trigger] a.agents[i].nodes[j].kind) is RandomSource),
    ensures
        b == a,
{
    assert forall|i: int| 0 <= i < a.agents.len() implies #[trigger] b.agents[i]
        == a.agents[i] by {
        assert(agent_resampled(a.agents[i], b.agents[i]));
        assert forall|j: int|
            0 <= j < a.agents[i].nodes.len() implies #[trigger] b.agents[i].nodes[j]
                == a.agents[i].nodes[j] by {
            assert(node_resampled(a.agents[i].nodes[j], b.agents[i].nodes[j]));
            assert(!(a.agents[i].nodes[j].kind is RandomSource));
            assert(b.agents[i].nodes[j] =~= a.agents[i].nodes[j]);
        }
        assert(b.agents[i].nodes =~= a.agents[i].nodes);
        assert(b.agents[i] =~= a.agents[i]);
    }
    assert(b.agents =~= a.agents);
    assert(b =~= a);
}

/// The cycle law: a two-node cycle of zero-bias computation nodes with
/// unit weights terminates — as every evaluation does, the sentinel
/// spending one slot of the recursion budget per entry — and both nodes
/// end the pass memoized at zero: the node evaluated second reads its
/// partner's sentinel `0`, and the squashing function fixes zero.
pub proof fn lemma_two_node_cycle_yields_zero(s: EvalState)
    requires
        s.nodes.len() == 2,
        s.nodes[0].kind is Computation,
        s.nodes[1].kind is Computation,
        s.nodes[0].bias == 0,
        s.nodes[1].bias == 0,
        s.nodes[0].inputs == seq![(1int, SCALE as int)],
        s.nodes[1].inputs == seq![(0int, SCALE as int)],
        s.nodes[0].memo is None,
        s.nodes[1].memo is None,
    ensures
        run_nodes(s, 0, 2).nodes[0].memo == Some(0int),
        run_nodes(s, 0, 2).nodes[1].memo == Some(0int),
{
    let avail0 = unset_ids(s.nodes);
    lemma_unset_ids_finite(s.nodes);
    assert(avail0.contains(0) && avail0.contains(1));
    let s1 = set_memo(s, 0, 0);
    let avail1 = avail0.remove(0);
    assert(avail1.contains(1));
    let s2 = set_memo(s1, 1, 0);
    let avail2 = avail1.remove(1);

    // Node 1's single input is node 0, which mid-evaluation holds the
    // sentinel: the cyclic read yields 0.
    assert(s2.nodes[0].memo == Some(0int));
    assert(eval_node(s2, 0, avail2) == (s2, 0int));
    let ins1 = s.nodes[1].inputs;
    assert(s1.nodes[1].inputs == ins1);
    assert(ins1[0] == (0int, SCALE as int));
    assert(ins1.subrange(1, 1) =~= Seq::<(int, int)>::empty());
    assert(eval_inputs(s2, ins1.subrange(1, 1), avail2) == (s2, 0int));
    assert(tdiv(SCALE as int * 0, SCALE as int) == 0);
    assert(eval_inputs(s2, ins1, avail2) == (s2, 0int));
    assert(act_spec(0) == 0);
    let s3 = set_memo(s2, 1, 0);
    assert(s1.nodes[1].memo is None);
    assert(eval_node(s1, 1, avail1) == (s3, 0int));

    // Node 0 then sums node 1's final value, which is also 0.
    let ins0 = s.nodes[0].inputs;
    assert(ins0[0] == (1int, SCALE as int));
    assert(ins0.subrange(1, 1) =~= Seq::<(int, int)>::empty());
    assert(eval_inputs(s3, ins0.subrange(1, 1), avail1) == (s3, 0int));
    assert(eval_inputs(s1, ins0, avail1) == (s3, 0int));
    let s4 = set_memo(s3, 0, 0);
    assert(eval_node(s, 0, avail0) == (s4, 0int));

    assert(s4.nodes[0].memo == Some(0int));
    assert(s4.nodes[1].memo == Some(0int));
    assert(run_nodes(s4, 1, 2) == run_nodes(s4, 2, 2));
    assert(run_nodes(s4, 2, 2) == s4);
    assert(run_nodes(s, 0, 2) == s4);
}

} // verus!
