use evosim::fx::SCALE;
use evosim::agent::Agent;
use evosim::node::BrainNode;
use evosim::world::{GameSpeed, World, WorldControls, pacing_delay_millis, publish_due};

#[test]
fn controls_start_paused_and_slow() {
    let c = WorldControls::new();
    assert!(c.paused);
    assert!(!c.started);
    assert!(!c.step);
    assert!(matches!(c.speed, GameSpeed::Slow));
}

#[test]
fn pacing_delay_maps_speeds() {
    assert_eq!(pacing_delay_millis(GameSpeed::Slow), 400);
    assert_eq!(pacing_delay_millis(GameSpeed::Medium), 33);
    assert_eq!(pacing_delay_millis(GameSpeed::Fast), 0);
}

#[test]
fn publish_cadence_is_sixty_per_second() {
    assert!(!publish_due(0));
    assert!(!publish_due(16_665));
    assert!(publish_due(16_666));
    assert!(publish_due(1_000_000));
}

#[test]
fn pause_gate_blocks_all_mutation() {
    let mut world = World::new(WorldControls::new());
    world.add_n_agents(3);
    let snap1 = world.renderable_clone();
    for _ in 0..5 {
        assert!(!world.simulate_frame());
    }
    let snap2 = world.renderable_clone();
    assert_eq!(snap1.food, snap2.food);
    assert_eq!(snap1.agents.len(), snap2.agents.len());
    for i in 0..snap1.agents.len() {
        assert_eq!(snap1.agents[i].x, snap2.agents[i].x);
        assert_eq!(snap1.agents[i].y, snap2.agents[i].y);
    }
    for a in &world.agents {
        for n in &a.brain {
            assert!(n.get_output().is_none());
        }
    }
}

#[test]
fn step_runs_exactly_one_pass_and_clears_step() {
    let mut world = World::new(WorldControls::new());
    world.set_food_cell(0, 0, 500_000);
    let mut agent = Agent::new();
    agent.brain.push(BrainNode::forager(SCALE));
    world.add_agent(agent);

    world.controls.step = true;
    assert!(world.controls.paused);
    assert!(world.simulate_frame());
    assert!(!world.controls.step);
    assert_eq!(world.get_food_cell(0, 0), 499_000);

    // A second call is blocked by the pause flag and mutates nothing.
    assert!(!world.simulate_frame());
    assert_eq!(world.get_food_cell(0, 0), 499_000);
}
