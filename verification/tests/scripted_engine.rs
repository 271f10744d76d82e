use arena_agents::geom::{Vec2Fx, Vec3Fx};
use arena_agents::model::{AgentAction, AgentInfo, GameState};
use arena_agents::scripted::{AgentState, BehaviorConfig, ScriptedAgent};

fn obs(health: i64, agents: Vec<AgentInfo>) -> GameState {
    GameState {
        agent_id: 1,
        position: Vec3Fx { x: 0, y: 0, z: 0 },
        health,
        energy: 100_000,
        nearby_agents: agents,
        nearby_objects: Vec::new(),
        arena_bounds: Vec2Fx { x: 100_000, y: 100_000 },
        current_tick: 7,
        time_remaining_ms: 60_000,
    }
}

fn enemy(id: u128, distance: i64) -> AgentInfo {
    AgentInfo {
        id,
        position: Vec3Fx { x: distance, y: 0, z: 0 },
        health: 100_000,
        team: Some(String::from("red")),
        distance,
    }
}

fn blue_agent(name: &str) -> ScriptedAgent {
    ScriptedAgent::new(String::from(name), Some(String::from("blue")))
}

#[test]
fn idle_with_enemy_in_attack_range_attacks() {
    let a = blue_agent("a");
    let s = obs(100_000, vec![enemy(42, 2_000)]);
    assert_eq!(a.transition_state(&s), AgentState::Attacking(42));
}

#[test]
fn idle_with_enemy_in_vision_chases() {
    let a = blue_agent("a");
    let s = obs(100_000, vec![enemy(42, 8_000)]);
    assert_eq!(a.transition_state(&s), AgentState::Chasing(42));
}

#[test]
fn idle_with_far_enemy_explores() {
    let a = blue_agent("a");
    let s = obs(100_000, vec![enemy(42, 50_000)]);
    assert_eq!(a.transition_state(&s), AgentState::Exploring);
}

#[test]
fn idle_alone_explores() {
    let a = blue_agent("a");
    let s = obs(100_000, Vec::new());
    assert_eq!(a.transition_state(&s), AgentState::Exploring);
}

#[test]
fn nearest_enemy_wins_over_farther() {
    let a = blue_agent("a");
    // The closer enemy (id 9, within attack range) is chosen over the farther.
    let s = obs(100_000, vec![enemy(42, 9_000), enemy(9, 1_500)]);
    assert_eq!(a.transition_state(&s), AgentState::Attacking(9));
}

#[test]
fn distance_ties_break_by_input_order() {
    let a = blue_agent("a");
    let s = obs(100_000, vec![enemy(1, 2_000), enemy(2, 2_000)]);
    assert_eq!(a.transition_state(&s), AgentState::Attacking(1));
}

#[test]
fn allies_are_not_targets() {
    let a = blue_agent("a");
    let mut friend = enemy(5, 1_000);
    friend.team = Some(String::from("blue"));
    let s = obs(100_000, vec![friend]);
    assert_eq!(a.transition_state(&s), AgentState::Exploring);
}

#[test]
fn teamless_pair_is_not_hostile() {
    // Two absent team labels do not differ, so nobody is attacked.
    let a = ScriptedAgent::new(String::from("a"), None);
    let mut n = enemy(5, 1_000);
    n.team = None;
    let s = obs(100_000, vec![n]);
    assert_eq!(a.transition_state(&s), AgentState::Exploring);
}

#[test]
fn low_health_flees_from_any_engaged_state() {
    // Health 25 of 100 against a flee threshold of 30.
    let s = obs(25_000, vec![enemy(42, 2_000)]);
    for st in [
        AgentState::Idle,
        AgentState::Exploring,
        AgentState::Chasing(42),
        AgentState::Attacking(42),
    ] {
        let mut a = blue_agent("a");
        a.current_state = st;
        assert_eq!(a.transition_state(&s), AgentState::Fleeing);
    }
}

#[test]
fn exploring_times_out_to_idle() {
    let mut a = blue_agent("a");
    a.current_state = AgentState::Exploring;
    a.state_duration = 5_001;
    let s = obs(100_000, Vec::new());
    assert_eq!(a.transition_state(&s), AgentState::Idle);
}

#[test]
fn exploring_ignores_enemies_beyond_vision() {
    let mut a = blue_agent("a");
    a.current_state = AgentState::Exploring;
    a.state_duration = 1_000;
    let s = obs(100_000, vec![enemy(42, 50_000)]);
    assert_eq!(a.transition_state(&s), AgentState::Exploring);
    a.state_duration = 6_000;
    assert_eq!(a.transition_state(&s), AgentState::Idle);
}

#[test]
fn exploring_chases_enemies_within_vision() {
    let mut a = blue_agent("a");
    a.current_state = AgentState::Exploring;
    let s = obs(100_000, vec![enemy(42, 8_000)]);
    assert_eq!(a.transition_state(&s), AgentState::Chasing(42));
}

#[test]
fn exploring_keeps_exploring_before_timeout() {
    let mut a = blue_agent("a");
    a.current_state = AgentState::Exploring;
    a.state_duration = 4_000;
    let s = obs(100_000, Vec::new());
    assert_eq!(a.transition_state(&s), AgentState::Exploring);
}

#[test]
fn fleeing_recovers_to_idle() {
    let mut a = blue_agent("a");
    a.current_state = AgentState::Fleeing;
    // Above threshold + 20 points.
    let s = obs(51_000, vec![enemy(42, 1_000)]);
    assert_eq!(a.transition_state(&s), AgentState::Idle);
}

#[test]
fn fleeing_defends_once_safe() {
    let mut a = blue_agent("a");
    a.current_state = AgentState::Fleeing;
    let s = obs(25_000, vec![enemy(42, 6_000)]);
    assert_eq!(a.transition_state(&s), AgentState::Defending);
}

#[test]
fn fleeing_stays_fleeing_under_pressure() {
    let mut a = blue_agent("a");
    a.current_state = AgentState::Fleeing;
    let s = obs(25_000, vec![enemy(42, 3_000)]);
    assert_eq!(a.transition_state(&s), AgentState::Fleeing);
}

#[test]
fn defending_flees_when_enemy_closes_in() {
    let mut a = blue_agent("a");
    a.current_state = AgentState::Defending;
    let s = obs(25_000, vec![enemy(42, 3_000)]);
    assert_eq!(a.transition_state(&s), AgentState::Fleeing);
}

#[test]
fn dead_is_absorbing() {
    let mut a = blue_agent("a");
    a.current_state = AgentState::Dead;
    let s = obs(100_000, vec![enemy(42, 1_000)]);
    assert_eq!(a.transition_state(&s), AgentState::Dead);
}

#[test]
fn decide_attacks_visible_target() {
    let mut a = blue_agent("a");
    let s = obs(100_000, vec![enemy(42, 2_000)]);
    let act = a.decide(&s, 1_000);
    assert_eq!(act, AgentAction::Attack(42));
    assert_eq!(a.current_state, AgentState::Attacking(42));
}

#[test]
fn decide_waits_when_dead() {
    let mut a = blue_agent("a");
    a.current_state = AgentState::Dead;
    let s = obs(100_000, vec![enemy(42, 1_000)]);
    assert_eq!(a.decide(&s, 1_000), AgentAction::Wait);
}

#[test]
fn decide_flees_and_moves_away() {
    let mut a = blue_agent("a");
    let s = obs(25_000, vec![enemy(42, 2_000)]);
    match a.decide(&s, 1_000) {
        AgentAction::Move(v) => {
            // The enemy sits at +x, so the flight direction points to -x.
            assert!(v.x < 0);
        }
        other => panic!("expected a move, got {:?}", other),
    }
    assert_eq!(a.current_state, AgentState::Fleeing);
}

#[test]
fn flee_direction_weighs_the_closer_enemy() {
    // Enemies at one unit (+x) and ten units (-x): the flight goes to -x,
    // away from the closer one, with about a tenfold weight ratio.
    let a = blue_agent("a");
    let mut e1 = enemy(1, 1_000);
    e1.position = Vec3Fx { x: 1_000, y: 0, z: 0 };
    let mut e2 = enemy(2, 10_000);
    e2.position = Vec3Fx { x: -10_000, y: 0, z: 0 };
    let s = obs(25_000, vec![e1, e2]);
    let v = a.calculate_flee_direction(&s);
    assert!(v.x < 0, "must flee away from the closer enemy, got {:?}", v);
    // Full flee speed along x.
    assert_eq!(v.x, -8_000);
    assert_eq!(v.y, 0);
    assert_eq!(v.z, 0);
}

#[test]
fn flee_without_enemies_heads_for_the_corner() {
    let a = blue_agent("a");
    let s = obs(25_000, Vec::new());
    let v = a.calculate_flee_direction(&s);
    // The corner lies at (-50, -50) from the origin; the direction is the
    // normalized diagonal at speed six.
    assert!(v.x < 0 && v.z < 0);
    assert_eq!(v.x, v.z);
    assert_eq!(v.y, 0);
}

#[test]
fn decide_explores_within_bounds() {
    let mut a = blue_agent("a");
    let s = obs(100_000, Vec::new());
    match a.decide(&s, 1_000) {
        AgentAction::Move(_) => {}
        other => panic!("expected exploratory movement, got {:?}", other),
    }
    assert_eq!(a.current_state, AgentState::Exploring);
    let t = a.target_position.expect("a waypoint must be chosen");
    assert!(t.x >= -50_000 && t.x < 50_000);
    assert!(t.z >= -50_000 && t.z < 50_000);
    assert_eq!(t.y, 0);
    assert!(a.memory.visited_positions.len() <= 64);
}

#[test]
fn visited_memory_is_capped_and_drops_the_oldest() {
    let mut a = blue_agent("a");
    // Fill the memory with distant landmarks the arena draws can never touch.
    for k in 0..64i64 {
        a.memory
            .visited_positions
            .push(Vec3Fx { x: 900_000_000 + k * 6_000, y: 0, z: 0 });
    }
    let s = obs(100_000, Vec::new());
    let p = a.generate_explore_position(&s);
    assert_eq!(a.memory.visited_positions.len(), 64);
    assert_eq!(*a.memory.visited_positions.last().unwrap(), p);
    // The oldest landmark fell out; the second-oldest now leads.
    assert_eq!(a.memory.visited_positions[0].x, 900_006_000);
}

#[test]
fn decide_updates_memory_of_enemies() {
    let mut a = blue_agent("a");
    let s = obs(100_000, vec![enemy(42, 2_000)]);
    a.decide(&s, 1_000);
    assert_eq!(a.memory.known_enemies.len(), 1);
    assert_eq!(a.memory.known_enemies[0].id, 42);
    assert_eq!(a.memory.known_allies.len(), 0);
}

#[test]
fn on_damage_raises_threshold_for_the_cautious() {
    let mut a = blue_agent("a").with_behavior(BehaviorConfig {
        caution: 600,
        ..Default::default()
    });
    a.on_damage_received(10_000, 99).unwrap();
    assert_eq!(a.behavior.health_threshold, 36_000);
    assert_eq!(a.memory.last_damage_source, Some(99));
}

#[test]
fn on_damage_leaves_threshold_for_the_reckless() {
    let mut a = blue_agent("a");
    a.on_damage_received(10_000, 99).unwrap();
    // The default caution of 0.5 is not over the bar.
    assert_eq!(a.behavior.health_threshold, 30_000);
}

#[test]
fn threshold_caps_at_eighty() {
    let mut a = blue_agent("a").with_behavior(BehaviorConfig {
        caution: 1_000,
        health_threshold: 79_000,
        ..Default::default()
    });
    a.on_damage_received(1, 1).unwrap();
    assert_eq!(a.behavior.health_threshold, 80_000);
}

#[test]
fn on_kill_forgets_victim_and_emboldens() {
    let mut a = blue_agent("a");
    let s = obs(100_000, vec![enemy(42, 2_000)]);
    a.decide(&s, 1_000);
    assert_eq!(a.memory.known_enemies.len(), 1);
    a.on_kill(42).unwrap();
    assert_eq!(a.memory.known_enemies.len(), 0);
    assert_eq!(a.memory.kill_count, 1);
    assert_eq!(a.behavior.aggression, 770);
}

#[test]
fn aggression_caps_at_one() {
    let mut a = blue_agent("a").with_behavior(BehaviorConfig {
        aggression: 950,
        ..Default::default()
    });
    a.on_kill(1).unwrap();
    assert_eq!(a.behavior.aggression, 1_000);
}

#[test]
fn on_death_is_terminal() {
    let mut a = blue_agent("a");
    a.on_death().unwrap();
    assert_eq!(a.current_state, AgentState::Dead);
    assert_eq!(a.memory.death_count, 1);
    assert_eq!(a.behavior.caution, 600);
    // No observation brings it back.
    let s = obs(100_000, vec![enemy(42, 1_000)]);
    assert_eq!(a.decide(&s, 2_000), AgentAction::Wait);
    assert_eq!(a.current_state, AgentState::Dead);
}

#[test]
fn ally_message_about_enemy_emboldens() {
    let mut a = blue_agent("a");
    let mut friend = enemy(5, 1_000);
    friend.team = Some(String::from("blue"));
    let s = obs(100_000, vec![friend]);
    a.decide(&s, 1_000);
    a.on_message(5, "enemy sighted north").unwrap();
    assert_eq!(a.behavior.aggression, 770);
}

#[test]
fn ally_call_for_help_raises_cooperation() {
    let mut a = blue_agent("a");
    let mut friend = enemy(5, 1_000);
    friend.team = Some(String::from("blue"));
    let s = obs(100_000, vec![friend]);
    a.decide(&s, 1_000);
    a.on_message(5, "help me").unwrap();
    assert_eq!(a.behavior.cooperation, 440);
}

#[test]
fn stranger_messages_are_ignored() {
    let mut a = blue_agent("a");
    a.on_message(5, "enemy help").unwrap();
    assert_eq!(a.behavior.aggression, 700);
    assert_eq!(a.behavior.cooperation, 400);
}

#[test]
fn initialize_and_shutdown_lifecycle() {
    let mut a = blue_agent("a");
    a.current_state = AgentState::Fleeing;
    a.initialize(500).unwrap();
    assert_eq!(a.current_state, AgentState::Idle);
    assert_eq!(a.last_decision_ms, 500);
    a.shutdown().unwrap();
    assert_eq!(a.current_state, AgentState::Dead);
}

#[test]
fn identity_accessors() {
    let a = ScriptedAgent::new(String::from("scout"), Some(String::from("blue")));
    assert_eq!(a.get_name(), "scout");
    assert_eq!(a.get_agent_type(), "ScriptedAgent");
    assert_eq!(a.get_team(), Some("blue"));
    assert_eq!(a.get_id(), a.id);
    let b = ScriptedAgent::new(String::from("lone"), None);
    assert_eq!(b.get_team(), None);
}

#[test]
fn state_duration_accumulates_across_decides() {
    let mut a = blue_agent("a");
    let s = obs(100_000, Vec::new());
    a.initialize(0).unwrap();
    a.decide(&s, 1_000); // Idle -> Exploring, duration resets
    assert_eq!(a.current_state, AgentState::Exploring);
    a.decide(&s, 4_000); // still Exploring, 3 s in state
    assert_eq!(a.current_state, AgentState::Exploring);
    a.decide(&s, 9_500); // 8.5 s in state: beyond the timeout
    assert_eq!(a.current_state, AgentState::Idle);
}
