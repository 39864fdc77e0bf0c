use evosim::fx::SCALE;
use evosim::agent::Agent;
use evosim::color::Color;
use evosim::grid::{X_LIMIT, FOOD_CELLS};
use evosim::node::{Axis, BrainNode};
use evosim::rng::{random_index, random_signed_unit, random_unit_interval, random_distinct_pair};
use evosim::world::{World, WorldControls};

#[test]
fn new_world_has_the_fixed_geometry() {
    let world = World::new(WorldControls::new());
    assert_eq!(world.width, 25);
    assert_eq!(world.height, 25);
    assert_eq!(world.food.len(), FOOD_CELLS);
    for c in &world.food {
        assert!(0 <= *c && *c < SCALE);
    }
    assert_eq!(world.agents.len(), 0);
}

#[test]
fn grown_agents_have_the_fixed_brain() {
    let mut world = World::new(WorldControls::new());
    world.add_n_agents(3);
    assert_eq!(world.agents.len(), 3);
    for a in &world.agents {
        assert_eq!(a.brain.len(), 15);
        assert_eq!(a.x, 0);
        assert_eq!(a.y, 0);
        for n in &a.brain {
            assert!(n.get_output().is_none());
            for (src, w) in &n.inputs {
                assert!(*src < 15);
                assert_eq!(*w, SCALE);
            }
        }
    }
}

#[test]
fn memos_are_unset_after_a_tick() {
    let mut world = World::new(WorldControls::new());
    world.add_n_agents(2);
    world.controls.paused = false;
    assert!(world.simulate_frame());
    for a in &world.agents {
        for n in &a.brain {
            assert!(n.get_output().is_none());
        }
    }
}

#[test]
fn mover_keeps_agent_inside_bounds() {
    let mut world = World::new(WorldControls::new());
    let mut agent = Agent::new();
    agent.brain.push(BrainNode::mover(Axis::X, SCALE));
    agent.x = X_LIMIT - 500_000;
    world.add_agent(agent);
    world.controls.paused = false;
    for _ in 0..5 {
        world.simulate_frame();
        assert!(0 <= world.agents[0].x && world.agents[0].x <= X_LIMIT);
    }
    assert_eq!(world.agents[0].x, X_LIMIT);
}

#[test]
fn mover_clamps_at_the_floor() {
    let mut world = World::new(WorldControls::new());
    let mut agent = Agent::new();
    agent.brain.push(BrainNode::mover(Axis::Y, -SCALE));
    world.add_agent(agent);
    world.controls.paused = false;
    for _ in 0..3 {
        world.simulate_frame();
        assert_eq!(world.agents[0].y, 0);
    }
}

#[test]
fn food_never_goes_negative() {
    let mut world = World::new(WorldControls::new());
    world.set_food_cell(0, 0, 500);
    let mut agent = Agent::new();
    agent.brain.push(BrainNode::forager(SCALE));
    world.add_agent(agent);
    world.controls.paused = false;
    for _ in 0..10 {
        world.simulate_frame();
        assert!(world.get_food_cell(0, 0) >= 0);
    }
    assert_eq!(world.get_food_cell(0, 0), 0);
}

#[test]
fn forager_depletes_exact_amount() {
    let mut world = World::new(WorldControls::new());
    world.set_food_cell(3, 3, 20_000);
    let mut agent = Agent::new();
    agent.brain.push(BrainNode::forager(SCALE));
    agent.x = 3 * SCALE;
    agent.y = 3 * SCALE;
    world.add_agent(agent);
    world.controls.paused = false;
    assert!(world.simulate_frame());
    assert_eq!(world.get_food_cell(3, 3), 19_000);
}

#[test]
fn random_source_varies_between_ticks() {
    let mut world = World::new(WorldControls::new());
    let mut agent = Agent::new();
    agent.brain.push(BrainNode::random_source());
    agent.brain.push(BrainNode::mover(Axis::X, 0));
    agent.connect_nodes(0, 1);
    agent.x = 12 * SCALE;
    agent.y = 12 * SCALE;
    world.add_agent(agent);
    world.controls.paused = false;
    let mut displacements = Vec::new();
    let mut prev = world.agents[0].x;
    for _ in 0..16 {
        world.simulate_frame();
        let cur = world.agents[0].x;
        displacements.push(cur - prev);
        prev = cur;
    }
    // Each tick resamples the source, so the steps cannot all coincide.
    let first = displacements[0];
    assert!(displacements.iter().any(|d| *d != first));
}

#[test]
fn snapshot_copies_positions_colors_and_food() {
    let mut world = World::new(WorldControls::new());
    let mut agent = Agent::new();
    agent.x = 7 * SCALE;
    agent.y = 9 * SCALE;
    agent.color = Color { r: 1, g: 2, b: 3 };
    world.add_agent(agent);
    let snap = world.renderable_clone();
    assert_eq!(snap.width, 25);
    assert_eq!(snap.height, 25);
    assert_eq!(snap.agents.len(), 1);
    assert_eq!(snap.agents[0].x, 7 * SCALE);
    assert_eq!(snap.agents[0].y, 9 * SCALE);
    assert_eq!(snap.agents[0].color, Color { r: 1, g: 2, b: 3 });
    assert_eq!(snap.food, world.food);
}

#[test]
fn random_draws_stay_in_range() {
    for _ in 0..200 {
        let v = random_signed_unit();
        assert!(-SCALE <= v && v <= SCALE);
        let u = random_unit_interval();
        assert!(0 <= u && u < SCALE);
        let i = random_index(7);
        assert!(i < 7);
        let (a, b) = random_distinct_pair(5);
        assert!(a < 5 && b < 5 && a != b);
    }
}

#[test]
fn random_colors_are_not_constant() {
    let mut seen_different = false;
    let first = Color::random();
    for _ in 0..20 {
        let c = Color::random();
        assert!(0 <= c.r && c.r < SCALE);
        assert!(0 <= c.g && c.g < SCALE);
        assert!(0 <= c.b && c.b < SCALE);
        if c != first {
            seen_different = true;
        }
    }
    assert!(seen_different);
}

#[test]
fn setting_and_reading_food_cells_round_trips() {
    let mut world = World::new(WorldControls::new());
    world.set_food_cell(99, 64, 123_456);
    assert_eq!(world.get_food_cell(99, 64), 123_456);
    world.set_food_cell(0, 0, 0);
    assert_eq!(world.get_food_cell(0, 0), 0);
}
