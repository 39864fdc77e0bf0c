//! The brain-graph evaluation semantics and its verified executable form.
//!
//! Evaluation is lazily recursive with a cycle-breaking sentinel: before a
//! node computes its own formula it writes `0` into its memo slot, then
//! recursively evaluates every input whose memo is still unset, and
//! finally overwrites the memo with the squashed weighted sum. A cycle
//! that re-enters a node mid-evaluation therefore reads the sentinel `0`
//! and terminates. Movers and foragers apply their side effect to the
//! agent position or the food grid right after their memo is written.
//!
//! The semantics is a total specification function, [`eval_node`]. Its
//! recursion is bounded by an explicit set `avail` of slots that may still
//! be entered; the executable evaluator is proved equal to the
//! specification for every such set that covers the slots whose memo is
//! unset, which is exactly the budget the sentinel discipline consumes.

use vstd::prelude::*;
use crate::fx::{SCALE, DEPLETION_DIVISOR, act_spec, clamp_spec, tdiv, act, clamp_nonneg, div_by_scale};
use crate::grid::{FOOD_COLS, FOOD_ROWS, FOOD_CELLS, X_LIMIT, Y_LIMIT, cell_index_spec,
    deplete_cell, depletion_spec, cell_coord, lemma_cell_index_in_range};
use crate::node::{BrainNode, NodeModel, NodeKind, Axis, node_wf};
use vstd::set_lib::{set_int_range, lemma_int_range, lemma_len_subset};

verus! {

/// The state one brain evaluation reads and writes: the agent's node
/// arena, its position, and the shared food grid.
#[verifier::ext_equal]
pub struct EvalState {
    pub nodes: Seq<NodeModel>,
    pub px: int,
    pub py: int,
    pub food: Seq<int>,
}

/// Slots of the arena whose memo is still unset.
pub open spec fn unset_ids(nodes: Seq<NodeModel>) -> Set<int> {
    set_int_range(0, nodes.len() as int).filter(|i: int| nodes[i].memo is None)
}

/// The unset-slot set is finite and no larger than the arena.
pub proof fn lemma_unset_ids_finite(nodes: Seq<NodeModel>)
    ensures
        unset_ids(nodes).finite(),
        unset_ids(nodes).len() <= nodes.len(),
{
    lemma_int_range(0, nodes.len() as int);
    set_int_range(0, nodes.len() as int).lemma_len_filter(|i: int| nodes[i].memo is None);
}

/// The state with slot `i`'s memo set to `v`.
pub open spec fn set_memo(s: EvalState, i: int, v: int) -> EvalState {
    EvalState { nodes: s.nodes.update(i, NodeModel { memo: Some(v), ..s.nodes[i] }), ..s }
}

/// The side effect a node of the given kind applies once its output is
/// known: movers shift and clamp the agent's coordinate on their axis,
/// foragers deplete the food cell under the agent, the rest do nothing.
pub open spec fn apply_effect(s: EvalState, kind: NodeKind, out: int) -> EvalState {
    match kind {
        NodeKind::Mover(Axis::X) => EvalState {
            px: clamp_spec(s.px + out, 0, X_LIMIT as int),
            ..s
        },
        NodeKind::Mover(Axis::Y) => EvalState {
            py: clamp_spec(s.py + out, 0, Y_LIMIT as int),
            ..s
        },
        NodeKind::Forager => EvalState {
            food: deplete_cell(s.food, cell_index_spec(s.px, s.py), out),
            ..s
        },
        _ => s,
    }
}

/// Evaluate slot `i`: the memoized value if one is set; otherwise a
/// random source memoizes its per-tick sample, and every other kind
/// writes the sentinel, folds over its inputs, squashes the weighted sum
/// plus bias, memoizes it and applies its side effect. `avail` is the
/// recursion budget: only slots in it may be entered, and a slot is spent
/// the moment its sentinel is written.
pub open spec fn eval_node(s: EvalState, i: int, avail: Set<int>) -> (EvalState, int)
    decreases avail.len(), 0int, 0int,
        when avail.finite()
{
    if !(0 <= i < s.nodes.len()) {
        (s, 0)
    } else if s.nodes[i].memo is Some {
        (s, s.nodes[i].memo->Some_0)
    } else if s.nodes[i].kind is RandomSource {
        (set_memo(s, i, s.nodes[i].sample), s.nodes[i].sample)
    } else if avail.contains(i) {
        let s1 = set_memo(s, i, 0);
        let rest = ({
            proof {
                vstd::set::axiom_set_remove_len(avail, i);
            }
            eval_inputs(s1, s.nodes[i].inputs, avail.remove(i))
        });
        let out = act_spec(rest.1 + s.nodes[i].bias);
        let s3 = set_memo(rest.0, i, out);
        (apply_effect(s3, s.nodes[i].kind, out), out)
    } else {
        (s, 0)
    }
}

/// Fold the weighted input edges left to right, threading the state:
/// each upstream slot is evaluated (or its memo read) and its value,
/// scaled by the edge weight, is added to the running sum.
pub open spec fn eval_inputs(s: EvalState, ins: Seq<(int, int)>, avail: Set<int>) -> (EvalState, int)
    decreases avail.len(), 1int, ins.len(),
        when avail.finite()
{
    if ins.len() == 0 {
        (s, 0)
    } else {
        let first = eval_node(s, ins[0].0, avail);
        let term = tdiv(ins[0].1 * first.1, SCALE as int);
        let rest = eval_inputs(first.0, ins.subrange(1, ins.len() as int), avail);
        (rest.0, term + rest.1)
    }
}

/// Structural identity of two node images: everything but the memo.
pub open spec fn same_shape(a: NodeModel, b: NodeModel) -> bool {
    &&& a.kind == b.kind
    &&& a.inputs == b.inputs
    &&& a.outputs == b.outputs
    &&& a.bias == b.bias
    &&& a.sample == b.sample
}

/// What evaluation never changes on the way from state `s` to state `t`:
/// the arena's size and shape, every memo that is already set, and the
/// size of the food grid.
pub open spec fn frame(s: EvalState, t: EvalState) -> bool {
    &&& t.nodes.len() == s.nodes.len()
    &&& (forall|k: int| 0 <= k < s.nodes.len() ==> same_shape(s.nodes[k], #[trigger] t.nodes[k]))
    &&& (forall|k: int|
        0 <= k < s.nodes.len() && s.nodes[k].memo is Some ==> #[trigger] t.nodes[k].memo
            == s.nodes[k].memo)
    &&& t.food.len() == s.food.len()
}

/// Well-formedness of an evaluation state: every node is well formed for
/// the arena's size, and the food grid has its fixed size with every cell
/// in `[0, 1]` of fixed point.
pub open spec fn wf_state(s: EvalState) -> bool {
    &&& (forall|k: int| 0 <= k < s.nodes.len() ==> node_wf(#[trigger] s.nodes[k], s.nodes.len() as int))
    &&& s.food.len() == FOOD_CELLS as int
    &&& (forall|c: int| 0 <= c < s.food.len() ==> 0 <= #[trigger] s.food[c] <= SCALE as int)
}

/// What evaluation guarantees of positions and food, whatever the input
/// state: a coordinate is left alone or lands clamped inside the world,
/// and no food cell ever grows.
pub open spec fn effects_bounded(s: EvalState, t: EvalState) -> bool {
    &&& (t.px == s.px || 0 <= t.px <= X_LIMIT as int)
    &&& (t.py == s.py || 0 <= t.py <= Y_LIMIT as int)
    &&& (forall|c: int| 0 <= c < s.food.len() ==> #[trigger] t.food[c] <= s.food[c])
}

/// The frame relation composes.
pub proof fn lemma_frame_trans(s: EvalState, t: EvalState, u: EvalState)
    requires
        frame(s, t),
        frame(t, u),
    ensures
        frame(s, u),
{
    assert forall|k: int| 0 <= k < s.nodes.len() implies same_shape(s.nodes[k], #[trigger] u.nodes[k]) by {
        assert(same_shape(s.nodes[k], t.nodes[k]));
        assert(same_shape(t.nodes[k], u.nodes[k]));
    }
    assert forall|k: int|
        0 <= k < s.nodes.len() && s.nodes[k].memo is Some implies #[trigger] u.nodes[k].memo
            == s.nodes[k].memo by {
        assert(t.nodes[k].memo == s.nodes[k].memo);
        assert(u.nodes[k].memo == t.nodes[k].memo);
    }
}

/// Everything one evaluation step preserves or bounds, proved by
/// induction over the recursion of [`eval_node`]: the frame relation, the
/// shrinking of the unset-slot set, the memo written for the evaluated
/// slot, and — for a well-formed state — well-formedness, the range of
/// the result, and the bounds on positions and food.
pub proof fn lemma_eval_node_props(s: EvalState, i: int, avail: Set<int>)
    requires
        avail.finite(),
    ensures
        frame(s, eval_node(s, i, avail).0),
        unset_ids(eval_node(s, i, avail).0.nodes).subset_of(unset_ids(s.nodes)),
        (0 <= i < s.nodes.len() && (s.nodes[i].memo is Some || s.nodes[i].kind is RandomSource
            || avail.contains(i))) ==> eval_node(s, i, avail).0.nodes[i].memo
            == Some(eval_node(s, i, avail).1),
        wf_state(s) ==> {
            &&& wf_state(eval_node(s, i, avail).0)
            &&& -(SCALE as int) <= eval_node(s, i, avail).1 <= SCALE as int
            &&& effects_bounded(s, eval_node(s, i, avail).0)
        },
    decreases avail.len(), 0int, 0int,
{
    let r = eval_node(s, i, avail);
    if !(0 <= i < s.nodes.len()) {
    } else if s.nodes[i].memo is Some {
    } else if s.nodes[i].kind is RandomSource {
        let nm = NodeModel { memo: Some(s.nodes[i].sample), ..s.nodes[i] };
        assert(same_shape(s.nodes[i], nm));
        assert(unset_ids(r.0.nodes).subset_of(unset_ids(s.nodes))) by {
            assert forall|k: int| unset_ids(r.0.nodes).contains(k) implies unset_ids(
                s.nodes,
            ).contains(k) by {}
        }
        if wf_state(s) {
            assert(node_wf(s.nodes[i], s.nodes.len() as int));
            assert forall|k: int| 0 <= k < r.0.nodes.len() implies node_wf(
                #[trigger] r.0.nodes[k],
                r.0.nodes.len() as int,
            ) by {
                assert(node_wf(s.nodes[k], s.nodes.len() as int));
            }
        }
    } else if avail.contains(i) {
        let s1 = set_memo(s, i, 0);
        let ins = s.nodes[i].inputs;
        vstd::set::axiom_set_remove_len(avail, i);
        let avail1 = avail.remove(i);
        let rest = eval_inputs(s1, ins, avail1);
        let out = act_spec(rest.1 + s.nodes[i].bias);
        let s3 = set_memo(rest.0, i, out);
        let s4 = apply_effect(s3, s.nodes[i].kind, out);

        // The sentinel write keeps the frame: slot i had no memo in s.
        assert(same_shape(s.nodes[i], s1.nodes[i]));
        assert(frame(s, s1));
        lemma_eval_inputs_props(s1, ins, avail1);
        lemma_frame_trans(s, s1, rest.0);
        // Slot i's sentinel is overwritten with the final output; since
        // slot i had no memo in s, the frame from s still holds.
        assert(frame(s, s3)) by {
            assert forall|k: int| 0 <= k < s.nodes.len() implies same_shape(
                s.nodes[k],
                #[trigger] s3.nodes[k],
            ) by {
                assert(same_shape(s.nodes[k], rest.0.nodes[k]));
            }
            assert forall|k: int|
                0 <= k < s.nodes.len() && s.nodes[k].memo is Some implies #[trigger] s3.nodes[k].memo
                    == s.nodes[k].memo by {
                assert(rest.0.nodes[k].memo == s.nodes[k].memo);
            }
        }
        assert(s4.nodes == s3.nodes);
        assert(s4.food.len() == s3.food.len());
        assert(frame(s, r.0));

        assert(unset_ids(r.0.nodes).subset_of(unset_ids(s.nodes))) by {
            assert forall|k: int| unset_ids(r.0.nodes).contains(k) implies unset_ids(
                s.nodes,
            ).contains(k) by {
                if k != i {
                    assert(unset_ids(rest.0.nodes).contains(k));
                    assert(unset_ids(s1.nodes).contains(k));
                }
                assert(r.0.nodes[k].memo is None);
                assert(r.0.nodes[i].memo == Some(out));
            }
        }

        if wf_state(s) {
            assert(node_wf(s.nodes[i], s.nodes.len() as int));
            assert(wf_state(s1)) by {
                assert forall|k: int| 0 <= k < s1.nodes.len() implies node_wf(
                    #[trigger] s1.nodes[k],
                    s1.nodes.len() as int,
                ) by {
                    assert(node_wf(s.nodes[k], s.nodes.len() as int));
                }
            }
            assert(wf_state(rest.0));
            assert(wf_state(s3)) by {
                assert forall|k: int| 0 <= k < s3.nodes.len() implies node_wf(
                    #[trigger] s3.nodes[k],
                    s3.nodes.len() as int,
                ) by {
                    assert(node_wf(rest.0.nodes[k], rest.0.nodes.len() as int));
                }
            }
            match s.nodes[i].kind {
                NodeKind::Mover(axis) => {
                    assert(wf_state(s4));
                    assert(effects_bounded(s, s4));
                },
                NodeKind::Forager => {
                    let idx = cell_index_spec(s3.px, s3.py);
                    lemma_cell_index_in_range(s3.px, s3.py);
                    crate::fx::lemma_tdiv_magnitude(
                        out + SCALE as int,
                        DEPLETION_DIVISOR as int,
                        1_000,
                    );
                    assert(0 <= depletion_spec(out) <= 1_000);
                    assert(wf_state(s4)) by {
                        assert forall|c: int| 0 <= c < s4.food.len() implies 0
                            <= #[trigger] s4.food[c] <= SCALE as int by {
                            assert(0 <= s3.food[c] <= SCALE as int);
                        }
                    }
                    assert(effects_bounded(s, s4)) by {
                        assert forall|c: int| 0 <= c < s.food.len() implies #[trigger] s4.food[c]
                            <= s.food[c] by {
                            assert(s3.food[c] <= s.food[c]);
                        }
                    }
                },
                _ => {
                    assert(wf_state(s4));
                    assert(effects_bounded(s, s4));
                },
            }
        }
    } else {
    }
}

/// The companion of [`lemma_eval_node_props`] for the fold over a node's
/// input edges.
pub proof fn lemma_eval_inputs_props(s: EvalState, ins: Seq<(int, int)>, avail: Set<int>)
    requires
        avail.finite(),
    ensures
        frame(s, eval_inputs(s, ins, avail).0),
        unset_ids(eval_inputs(s, ins, avail).0.nodes).subset_of(unset_ids(s.nodes)),
        wf_state(s) ==> {
            &&& wf_state(eval_inputs(s, ins, avail).0)
            &&& effects_bounded(s, eval_inputs(s, ins, avail).0)
        },
    decreases avail.len(), 1int, ins.len(),
{
    if ins.len() == 0 {
    } else {
        let first = eval_node(s, ins[0].0, avail);
        lemma_eval_node_props(s, ins[0].0, avail);
        let rest = eval_inputs(first.0, ins.subrange(1, ins.len() as int), avail);
        lemma_eval_inputs_props(first.0, ins.subrange(1, ins.len() as int), avail);
        lemma_frame_trans(s, first.0, rest.0);
        if wf_state(s) {
            assert(effects_bounded(s, rest.0)) by {
                assert forall|c: int| 0 <= c < s.food.len() implies #[trigger] rest.0.food[c]
                    <= s.food[c] by {
                    assert(first.0.food[c] <= s.food[c]);
                    assert(rest.0.food[c] <= first.0.food[c]);
                }
            }
        }
    }
}

/// The node images of an executable arena.
pub open spec fn models(ns: Seq<BrainNode>) -> Seq<NodeModel> {
    ns.map_values(|n: BrainNode| n@)
}

/// The food grid's mathematical image.
pub open spec fn food_model(food: Seq<i64>) -> Seq<int> {
    food.map_values(|c: i64| c as int)
}

/// Pack the executable pieces of one brain evaluation into a state.
pub open spec fn pack(ns: Seq<BrainNode>, px: i64, py: i64, food: Seq<i64>) -> EvalState {
    EvalState { nodes: models(ns), px: px as int, py: py as int, food: food_model(food) }
}

/// Evaluate slot `i` of the arena, exactly as [`eval_node`] describes,
/// for every recursion budget that covers the currently unset slots:
/// return the memo if one is set, otherwise write the sentinel, evaluate
/// the inputs recursively, memoize the squashed sum and apply the side
/// effect on position or food.
pub(crate) fn evaluate(
    nodes: &mut Vec<BrainNode>,
    i: usize,
    px: &mut i64,
    py: &mut i64,
    food: &mut Vec<i64>,
    Ghost(budget): Ghost<Set<int>>,
) -> (out: i64)
    requires
        budget == unset_ids(models(old(nodes)@)),
        wf_state(pack(old(nodes)@, *old(px), *old(py), old(food)@)),
        i < old(nodes)@.len(),
    ensures
        forall|avail: Set<int>|
            (avail.finite() && unset_ids(models(old(nodes)@)).subset_of(avail)) ==> {
                &&& pack(final(nodes)@, *final(px), *final(py), final(food)@) == (
                #[trigger] eval_node(
                    pack(old(nodes)@, *old(px), *old(py), old(food)@),
                    i as int,
                    avail,
                )).0
                &&& out as int == eval_node(
                    pack(old(nodes)@, *old(px), *old(py), old(food)@),
                    i as int,
                    avail,
                ).1
            },
        wf_state(pack(final(nodes)@, *final(px), *final(py), final(food)@)),
        final(nodes)@.len() == old(nodes)@.len(),
        final(nodes)@[i as int].output == Some(out),
        -SCALE <= out <= SCALE,
    decreases budget.len(),
{
    let ghost s0 = pack(nodes@, *px, *py, food@);
    proof {
        lemma_unset_ids_finite(s0.nodes);
    }

    // A memo that is already set short-circuits the evaluation; in a
    // cycle this is how a re-entered node hands out its sentinel.
    let memo = nodes[i].output;
    if let Some(v) = memo {
        return v;
    }

    // A random source memoizes its per-tick sample; it has no inputs
    // and no side effect.
    let is_random = match nodes[i].kind {
        NodeKind::RandomSource => true,
        _ => false,
    };
    if is_random {
        let sm = nodes[i].sample;
        nodes[i].output = Some(sm);
        proof {
            assert(models(nodes@) =~= s0.nodes.update(
                i as int,
                NodeModel { memo: Some(sm as int), ..s0.nodes[i as int] },
            )) by {
                assert(nodes@[i as int]@ =~= (NodeModel {
                    memo: Some(sm as int),
                    ..s0.nodes[i as int]
                }));
            }
            assert(pack(nodes@, *px, *py, food@) =~= set_memo(s0, i as int, sm as int));
            assert forall|avail: Set<int>|
                (avail.finite() && unset_ids(s0.nodes).subset_of(avail)) implies {
                &&& pack(nodes@, *px, *py, food@) == (#[trigger] eval_node(s0, i as int, avail)).0
                &&& sm as int == eval_node(s0, i as int, avail).1
            } by {}
            assert(wf_state(pack(nodes@, *px, *py, food@))) by {
                lemma_eval_node_props(s0, i as int, unset_ids(s0.nodes));
            }
        }
        return sm;
    }

    // The sentinel write: the cycle-breaking mark, made before any
    // input is entered.
    nodes[i].output = Some(0);
    let ghost s1 = set_memo(s0, i as int, 0);
    let ghost ins = s0.nodes[i as int].inputs;
    proof {
        assert(models(nodes@) =~= s1.nodes) by {
            assert(nodes@[i as int]@ =~= (NodeModel { memo: Some(0int), ..s0.nodes[i as int] }));
        }
        assert(pack(nodes@, *px, *py, food@) =~= s1);
        assert(unset_ids(s1.nodes) =~= unset_ids(s0.nodes).remove(i as int));
        assert(wf_state(s1)) by {
            assert forall|k: int| 0 <= k < s1.nodes.len() implies node_wf(
                #[trigger] s1.nodes[k],
                s1.nodes.len() as int,
            ) by {
                assert(node_wf(s0.nodes[k], s0.nodes.len() as int));
            }
        }
        assert(frame(s1, s1));
    }

    let n_inputs = nodes[i].inputs.len();
    proof {
        assert(models(nodes@)[i as int].inputs.len() == ins.len());
        assert(ins.subrange(0, ins.len() as int) =~= ins);
    }
    let mut acc: i128 = 0;
    let mut k: usize = 0;
    while k < n_inputs
        invariant
            i < nodes@.len(),
            k <= n_inputs,
            n_inputs == ins.len(),
            wf_state(pack(nodes@, *px, *py, food@)),
            frame(s1, pack(nodes@, *px, *py, food@)),
            unset_ids(models(nodes@)).subset_of(unset_ids(s1.nodes)),
            unset_ids(s1.nodes) =~= unset_ids(s0.nodes).remove(i as int),
            unset_ids(s0.nodes).finite(),
            budget == unset_ids(s0.nodes),
            0 <= i < s0.nodes.len(),
            s0.nodes[i as int].memo is None,
            s1 == set_memo(s0, i as int, 0),
            ins == s0.nodes[i as int].inputs,
            -(k as int) * (SCALE as int) <= acc as int <= (k as int) * (SCALE as int),
            forall|avail: Set<int>|
                (avail.finite() && unset_ids(s0.nodes).subset_of(avail)) ==> {
                    &&& (#[trigger] eval_inputs(s1, ins, avail.remove(i as int))).0 == eval_inputs(
                        pack(nodes@, *px, *py, food@),
                        ins.subrange(k as int, ins.len() as int),
                        avail.remove(i as int),
                    ).0
                    &&& eval_inputs(s1, ins, avail.remove(i as int)).1 == acc as int + eval_inputs(
                        pack(nodes@, *px, *py, food@),
                        ins.subrange(k as int, ins.len() as int),
                        avail.remove(i as int),
                    ).1
                },
        decreases n_inputs - k,
    {
        let ghost cur = pack(nodes@, *px, *py, food@);
        proof {
            assert(same_shape(s1.nodes[i as int], cur.nodes[i as int]));
            assert(cur.nodes[i as int].inputs == ins);
            assert(models(nodes@)[i as int].inputs.len() == nodes@[i as int].inputs@.len());
            assert(node_wf(cur.nodes[i as int], cur.nodes.len() as int));
            assert(cur.nodes[i as int].inputs[k as int] == ins[k as int]);
        }
        let edge = nodes[i].inputs[k];
        let j = edge.0;
        let w = edge.1;
        proof {
            assert((j as int, w as int) == ins[k as int]);
            assert(0 <= j < nodes@.len());
            assert(-(SCALE as int) <= w as int <= SCALE as int);
        }

        let mo = nodes[j].output;
        let vj: i64;
        match mo {
            Some(v) => {
                proof {
                    assert(cur.nodes[j as int].memo == Some(v as int));
                    assert(node_wf(cur.nodes[j as int], cur.nodes.len() as int));
                }
                vj = v;
            },
            None => {
                proof {
                    lemma_unset_ids_finite(cur.nodes);
                    lemma_unset_ids_finite(s1.nodes);
                    vstd::set::axiom_set_remove_len(unset_ids(s0.nodes), i as int);
                    lemma_len_subset(unset_ids(models(nodes@)), unset_ids(s1.nodes));
                    assert(unset_ids(s0.nodes).contains(i as int));
                    assert(unset_ids(models(nodes@)).len() <= unset_ids(s1.nodes).len());
                    assert(unset_ids(s1.nodes).len() < unset_ids(s0.nodes).len());
                    assert(budget == unset_ids(s0.nodes));
                }
                vj = evaluate(nodes, j, px, py, food, Ghost(unset_ids(models(nodes@))));
            },
        }
        let ghost nxt = pack(nodes@, *px, *py, food@);
        proof {
            let a0 = unset_ids(cur.nodes);
            lemma_unset_ids_finite(cur.nodes);
            if mo is Some {
                assert(nxt == cur);
                assert(forall|avail: Set<int>| avail.finite() ==> (#[trigger] eval_node(
                    cur,
                    j as int,
                    avail,
                )) == (cur, vj as int));
            } else {
                assert(nxt == eval_node(cur, j as int, a0).0 && vj as int == eval_node(
                    cur,
                    j as int,
                    a0,
                ).1);
            }
            lemma_eval_node_props(cur, j as int, a0);
            lemma_frame_trans(s1, cur, nxt);
            assert(-(SCALE as int) <= vj as int <= SCALE as int);
        }

        proof {
            assert(-1_000_000_000_000 <= (w as i128 as int) * (vj as i128 as int)
                <= 1_000_000_000_000) by (nonlinear_arith)
                requires
                    -(SCALE as int) <= w as int <= SCALE as int,
                    -(SCALE as int) <= vj as int <= SCALE as int,
                    SCALE == 1_000_000,
            ;
        }
        let term = div_by_scale((w as i128) * (vj as i128));

        // Re-establish the refinement invariant: one unfolding of the
        // specification's input fold matches this iteration.
        proof {
            assert forall|avail: Set<int>|
                (avail.finite() && unset_ids(s0.nodes).subset_of(avail)) implies {
                &&& (#[trigger] eval_inputs(s1, ins, avail.remove(i as int))).0 == eval_inputs(
                    nxt,
                    ins.subrange(k as int + 1, ins.len() as int),
                    avail.remove(i as int),
                ).0
                &&& eval_inputs(s1, ins, avail.remove(i as int)).1 == acc as int + term as int
                    + eval_inputs(
                    nxt,
                    ins.subrange(k as int + 1, ins.len() as int),
                    avail.remove(i as int),
                ).1
            } by {
                let avail1 = avail.remove(i as int);
                assert(unset_ids(cur.nodes).subset_of(avail1));
                let part = eval_inputs(cur, ins.subrange(k as int, ins.len() as int), avail1);
                let sub = ins.subrange(k as int, ins.len() as int);
                assert(sub.len() > 0);
                assert(sub[0] == ins[k as int]);
                assert(sub.subrange(1, sub.len() as int) =~= ins.subrange(
                    k as int + 1,
                    ins.len() as int,
                ));
                if mo is Some {
                    assert(eval_node(cur, j as int, avail1) == (cur, vj as int));
                } else {
                    assert(nxt == eval_node(cur, j as int, avail1).0 && vj as int == eval_node(
                        cur,
                        j as int,
                        avail1,
                    ).1);
                }
                assert(term as int == tdiv(sub[0].1 * eval_node(cur, j as int, avail1).1, SCALE as int));
            }
        }

        acc = acc + term as i128;
        k = k + 1;
    }

    // The weighted sum is complete: add the bias and squash.
    let ghost cur = pack(nodes@, *px, *py, food@);
    let b = nodes[i].bias;
    proof {
        assert(same_shape(s1.nodes[i as int], cur.nodes[i as int]));
        assert(b as int == s0.nodes[i as int].bias);
        assert(-(SCALE as int) <= b as int <= SCALE as int);
        assert(-(n_inputs as int) * (SCALE as int) - (SCALE as int) <= acc as int + b as int);
        assert(acc as int + b as int <= (n_inputs as int) * (SCALE as int) + (SCALE as int));
    }
    let raw = acc + b as i128;
    let out = act(raw);

    let ghost s3 = set_memo(cur, i as int, out as int);
    nodes[i].output = Some(out);
    proof {
        assert(models(nodes@) =~= s3.nodes) by {
            assert(nodes@[i as int]@ =~= (NodeModel { memo: Some(out as int), ..cur.nodes[i as int] }));
        }
        assert(pack(nodes@, *px, *py, food@) =~= s3);
    }

    // The side effect of this node's kind, applied once the output is
    // memoized.
    let kd = nodes[i].kind;
    proof {
        assert(kd == s0.nodes[i as int].kind);
    }
    match kd {
        NodeKind::Mover(Axis::X) => {
            let np = clamp_nonneg((*px as i128) + (out as i128), X_LIMIT);
            *px = np;
            proof {
                assert(pack(nodes@, *px, *py, food@) =~= apply_effect(s3, kd, out as int));
            }
        },
        NodeKind::Mover(Axis::Y) => {
            let np = clamp_nonneg((*py as i128) + (out as i128), Y_LIMIT);
            *py = np;
            proof {
                assert(pack(nodes@, *px, *py, food@) =~= apply_effect(s3, kd, out as int));
            }
        },
        NodeKind::Forager => {
            let cx = cell_coord(*px, FOOD_COLS - 1);
            let cy = cell_coord(*py, FOOD_ROWS - 1);
            let idx = cx * FOOD_ROWS + cy;
            proof {
                assert(idx as int == cell_index_spec(s3.px, s3.py));
                lemma_cell_index_in_range(s3.px, s3.py);
                assert(food@.len() == FOOD_CELLS as int);
            }
            let cell = food[idx];
            let d = (out + SCALE) / DEPLETION_DIVISOR;
            proof {
                assert(d as int == depletion_spec(out as int));
            }
            let nv = if cell >= d {
                cell - d
            } else {
                0
            };
            food[idx] = nv;
            proof {
                assert(food_model(food@) =~= deplete_cell(
                    s3.food,
                    cell_index_spec(s3.px, s3.py),
                    out as int,
                ));
                assert(pack(nodes@, *px, *py, food@) =~= apply_effect(s3, kd, out as int));
            }
        },
        _ => {
            proof {
                assert(pack(nodes@, *px, *py, food@) =~= apply_effect(s3, kd, out as int));
            }
        },
    }

    proof {
        let fin = pack(nodes@, *px, *py, food@);
        assert forall|avail: Set<int>|
            (avail.finite() && unset_ids(s0.nodes).subset_of(avail)) implies {
            &&& fin == (#[trigger] eval_node(s0, i as int, avail)).0
            &&& out as int == eval_node(s0, i as int, avail).1
        } by {
            assert(unset_ids(s0.nodes).contains(i as int));
            assert(avail.contains(i as int));
            let avail1 = avail.remove(i as int);
            assert(eval_inputs(s1, ins, avail1).0 == eval_inputs(
                cur,
                ins.subrange(n_inputs as int, ins.len() as int),
                avail1,
            ).0);
            assert(ins.subrange(n_inputs as int, ins.len() as int).len() == 0);
            assert(eval_inputs(s1, ins, avail1) == (cur, acc as int));
            assert(eval_node(s0, i as int, avail).1 == act_spec(acc as int + s0.nodes[i as int].bias));
        }
        lemma_eval_node_props(s0, i as int, unset_ids(s0.nodes));
    }
    out
}

} // verus!
