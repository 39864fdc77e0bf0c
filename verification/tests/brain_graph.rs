use evosim::fx::{SCALE, act, clamp_nonneg, div_by_scale};
use evosim::agent::Agent;
use evosim::grid::cell_coord;
use evosim::node::{Axis, BrainNode};

#[test]
fn squash_fixes_zero_and_saturates() {
    assert_eq!(act(0), 0);
    assert_eq!(act(123), 123);
    assert_eq!(act(-123), -123);
    assert_eq!(act(1_000_000), SCALE);
    assert_eq!(act(2_000_000), SCALE);
    assert_eq!(act(-2_000_000), -SCALE);
    assert_eq!(act(123_456_789_000), SCALE);
}

#[test]
fn scaled_division_truncates_toward_zero() {
    assert_eq!(div_by_scale(1_500_000), 1);
    assert_eq!(div_by_scale(-1_500_000), -1);
    assert_eq!(div_by_scale(999_999), 0);
    assert_eq!(div_by_scale(-999_999), 0);
    assert_eq!(div_by_scale(2_000_000), 2);
}

#[test]
fn clamping_lands_inside_the_interval() {
    assert_eq!(clamp_nonneg(-7, 25_000_000), 0);
    assert_eq!(clamp_nonneg(26_000_000, 25_000_000), 25_000_000);
    assert_eq!(clamp_nonneg(12_345, 25_000_000), 12_345);
}

#[test]
fn cell_coordinates_floor_and_clamp() {
    assert_eq!(cell_coord(3_500_000, 99), 3);
    assert_eq!(cell_coord(0, 99), 0);
    assert_eq!(cell_coord(-5_000_000, 99), 0);
    assert_eq!(cell_coord(200_000_000, 99), 99);
    assert_eq!(cell_coord(64_999_999, 64), 64);
}

#[test]
fn every_edge_carries_exactly_one_unit_weight() {
    let mut node = BrainNode::computation(0);
    node.add_input(3);
    node.add_input(7);
    assert_eq!(node.inputs.len(), 2);
    for (_, w) in &node.inputs {
        assert_eq!(*w, SCALE);
    }
    assert_eq!(node.inputs[0].0, 3);
    assert_eq!(node.inputs[1].0, 7);
}

#[test]
fn random_source_rejects_input_edges() {
    let mut node = BrainNode::random_source();
    node.add_input(0);
    node.add_input(5);
    assert_eq!(node.inputs.len(), 0);
}

#[test]
fn connecting_records_both_directions() {
    let mut agent = Agent::new();
    agent.brain.push(BrainNode::computation(0));
    agent.brain.push(BrainNode::computation(0));
    agent.connect_nodes(0, 1);
    assert_eq!(agent.brain[1].inputs, vec![(0usize, SCALE)]);
    assert_eq!(agent.brain[0].outputs, vec![1usize]);
}

#[test]
fn two_node_cycle_evaluates_to_zero() {
    let mut agent = Agent::new();
    agent.brain.push(BrainNode::computation(0));
    agent.brain.push(BrainNode::computation(0));
    agent.connect_nodes(0, 1);
    agent.connect_nodes(1, 0);
    let mut food = vec![0i64; 6_500];
    agent.run_brain(&mut food);
    assert_eq!(agent.brain[0].get_output(), Some(0));
    assert_eq!(agent.brain[1].get_output(), Some(0));
}

#[test]
fn evaluation_order_decides_who_reads_the_sentinel() {
    // In a cycle the node evaluated first is mid-evaluation when its
    // partner reads it, so the partner sees the sentinel 0 while the
    // first node sees the partner's final value.
    let mut agent = Agent::new();
    agent.brain.push(BrainNode::computation(SCALE));
    agent.brain.push(BrainNode::computation(0));
    agent.connect_nodes(0, 1);
    agent.connect_nodes(1, 0);
    let mut food = vec![0i64; 6_500];
    agent.run_brain(&mut food);
    assert_eq!(agent.brain[1].get_output(), Some(0));
    assert_eq!(agent.brain[0].get_output(), Some(SCALE));
}

#[test]
fn duplicate_edges_are_allowed() {
    let mut agent = Agent::new();
    agent.brain.push(BrainNode::computation(0));
    agent.brain.push(BrainNode::computation(0));
    agent.connect_nodes(0, 1);
    agent.connect_nodes(0, 1);
    assert_eq!(agent.brain[1].inputs, vec![(0usize, SCALE), (0usize, SCALE)]);
    assert_eq!(agent.brain[0].outputs, vec![1usize, 1usize]);
}

#[test]
fn chain_passes_saturated_value_through() {
    // forager <- computation(bias 1.0): the chain evaluates the
    // upstream node first and feeds its saturated output downstream.
    let mut agent = Agent::new();
    agent.brain.push(BrainNode::computation(SCALE));
    agent.brain.push(BrainNode::mover(Axis::X, 0));
    agent.connect_nodes(0, 1);
    let mut food = vec![0i64; 6_500];
    agent.run_brain(&mut food);
    assert_eq!(agent.brain[0].get_output(), Some(SCALE));
    assert_eq!(agent.brain[1].get_output(), Some(SCALE));
    assert_eq!(agent.x, SCALE);
}
