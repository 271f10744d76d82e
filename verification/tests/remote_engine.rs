use arena_agents::geom::{Vec2Fx, Vec3Fx};
use arena_agents::model::{AgentAction, AgentError, AgentInfo, GameState, ObjectInfo};
use arena_agents::remote::{
    parse_action, DecisionStep, LLMAgent, LLMConfig, LLMResponse, QueryOutcome,
};

fn obs(tick: u64) -> GameState {
    GameState {
        agent_id: 1,
        position: Vec3Fx { x: 5_000, y: 0, z: -2_000 },
        health: 80_000,
        energy: 60_000,
        nearby_agents: Vec::new(),
        nearby_objects: Vec::new(),
        arena_bounds: Vec2Fx { x: 100_000, y: 100_000 },
        current_tick: tick,
        time_remaining_ms: 45_500,
    }
}

fn agent() -> LLMAgent {
    LLMAgent::new(
        String::from("oracle"),
        Some(String::from("blue")),
        LLMConfig::default(),
    )
}

fn success(text: &str, tokens: u32, latency: u64) -> QueryOutcome {
    QueryOutcome::Success {
        response: LLMResponse {
            text: String::from(text),
            tokens_used: tokens,
            processing_time_ms: latency,
            model_name: String::from("llama2:7b"),
        },
        latency_ms: latency,
    }
}

#[test]
fn parse_move_with_decimals() {
    assert_eq!(
        parse_action("Move(1.0, 0.0, 2.5)"),
        AgentAction::Move(Vec3Fx { x: 1_000, y: 0, z: 2_500 })
    );
}

#[test]
fn parse_move_negative_and_truncating() {
    assert_eq!(
        parse_action("Move(-3.25, 0.5, 10)"),
        AgentAction::Move(Vec3Fx { x: -3_250, y: 500, z: 10_000 })
    );
}

#[test]
fn parse_move_non_numeric_components_default_to_zero() {
    assert_eq!(
        parse_action("Move(forward, 1.5, )"),
        AgentAction::Move(Vec3Fx { x: 0, y: 1_500, z: 0 })
    );
}

#[test]
fn parse_move_with_wrong_arity_waits() {
    assert_eq!(parse_action("Move(1.0, 2.0)"), AgentAction::Wait);
    assert_eq!(parse_action("Move(1.0, 2.0, 3.0, 4.0)"), AgentAction::Wait);
}

#[test]
fn parse_attack_with_valid_identifier() {
    assert_eq!(
        parse_action("Attack(a1a2a3a4-b1b2-c1c2-d1d2-d3d4d5d6d7d8)"),
        AgentAction::Attack(0xa1a2a3a4b1b2c1c2d1d2d3d4d5d6d7d8)
    );
}

#[test]
fn parse_attack_with_garbage_identifier_waits() {
    assert_eq!(parse_action("Attack(enemy_id)"), AgentAction::Wait);
}

#[test]
fn parse_communicate_and_use_item() {
    assert_eq!(
        parse_action("Communicate(fall back!)"),
        AgentAction::Communicate(String::from("fall back!"))
    );
    assert_eq!(
        parse_action("UseItem(medkit)"),
        AgentAction::UseItem(String::from("medkit"))
    );
}

#[test]
fn parse_wait_and_defend_case_insensitively() {
    assert_eq!(parse_action("wait"), AgentAction::Wait);
    assert_eq!(parse_action("WAIT"), AgentAction::Wait);
    assert_eq!(parse_action("defend"), AgentAction::Defend);
    assert_eq!(parse_action("Defend"), AgentAction::Defend);
    assert_eq!(parse_action("  DeFeND  "), AgentAction::Defend);
}

#[test]
fn parse_garbage_waits() {
    assert_eq!(parse_action("charge the hill"), AgentAction::Wait);
    assert_eq!(parse_action(""), AgentAction::Wait);
}

#[test]
fn successful_decision_parses_caches_and_resets() {
    let mut a = agent();
    a.consecutive_failures = 2;
    let s = obs(3);
    let step = a.begin_decision(&s, 1_000);
    let req = match step {
        DecisionStep::Query(req) => req,
        DecisionStep::Ready(act) => panic!("expected a planned request, got {:?}", act),
    };
    assert_eq!(req.model, "llama2:7b");
    assert_eq!(req.max_tokens, 150);
    assert!(req.prompt.contains("=== AGENT STATUS ==="));
    assert!(req.prompt.contains("Tick: 3"));
    assert!(req.prompt.contains("Health: 80.0/100"));
    let act = a.finish_decision(&s, &success("defend", 12, 40), 1_050);
    assert_eq!(act, AgentAction::Defend);
    assert_eq!(a.consecutive_failures, 0);
    assert_eq!(a.stats.total_requests, 1);
    assert_eq!(a.stats.successful_requests, 1);
    assert_eq!(a.stats.total_tokens_used, 12);
    // An identical observation inside the TTL answers from the cache and
    // leaves the request counter alone.
    let step2 = a.begin_decision(&s, 2_000);
    match step2 {
        DecisionStep::Ready(cached) => assert_eq!(cached, AgentAction::Defend),
        DecisionStep::Query(_) => panic!("expected a cache hit"),
    }
    assert_eq!(a.stats.total_requests, 1);
    assert_eq!(a.decision_cache.hit_count, 1);
}

#[test]
fn cache_expires_after_ttl() {
    let mut a = agent();
    let s = obs(3);
    let _ = a.begin_decision(&s, 1_000);
    a.finish_decision(&s, &success("wait", 1, 10), 1_000);
    // Two seconds later the entry no longer answers.
    match a.begin_decision(&s, 3_000) {
        DecisionStep::Query(_) => {}
        DecisionStep::Ready(act) => panic!("expected a miss after expiry, got {:?}", act),
    }
}

#[test]
fn distinct_observations_miss_the_cache() {
    let mut a = agent();
    let s3 = obs(3);
    let _ = a.begin_decision(&s3, 1_000);
    a.finish_decision(&s3, &success("defend", 1, 10), 1_000);
    let s4 = obs(4);
    match a.begin_decision(&s4, 1_100) {
        DecisionStep::Query(_) => {}
        DecisionStep::Ready(act) => panic!("expected a miss for a new tick, got {:?}", act),
    }
}

#[test]
fn failures_degrade_to_cyclic_fallbacks() {
    let mut a = agent();
    let s = obs(3);
    // Three failed exchanges reach the threshold.
    for tick in 0..3u64 {
        let st = obs(10 + tick);
        match a.begin_decision(&st, 1_000 + tick) {
            DecisionStep::Query(_) => {}
            DecisionStep::Ready(act) => panic!("expected a request, got {:?}", act),
        }
        a.finish_decision(
            &st,
            &QueryOutcome::Failure { error: AgentError::Transport },
            1_000 + tick,
        );
    }
    assert_eq!(a.consecutive_failures, 3);
    assert_eq!(a.stats.failed_requests, 3);
    // The first three failures already consumed fallback entries 0..3; the
    // next seven degraded decisions continue the cycle from index 3.
    let expected = [
        AgentAction::Move(Vec3Fx { x: -1_000, y: 0, z: 0 }),
        AgentAction::Move(Vec3Fx { x: 0, y: 0, z: 1_000 }),
        AgentAction::Move(Vec3Fx { x: 0, y: 0, z: -1_000 }),
        AgentAction::Wait,
        AgentAction::Defend,
        AgentAction::Move(Vec3Fx { x: 1_000, y: 0, z: 0 }),
        AgentAction::Move(Vec3Fx { x: -1_000, y: 0, z: 0 }),
    ];
    for (k, want) in expected.iter().enumerate() {
        match a.begin_decision(&s, 5_000 + k as u64) {
            DecisionStep::Ready(act) => assert_eq!(&act, want, "at step {}", k),
            DecisionStep::Query(_) => panic!("degraded engine must not call out"),
        }
    }
    // One fully successful decision resets the counter.
    a.consecutive_failures = 2;
    let st = obs(99);
    let _ = a.begin_decision(&st, 9_000);
    a.finish_decision(&st, &success("wait", 1, 5), 9_000);
    assert_eq!(a.consecutive_failures, 0);
}

#[test]
fn every_failure_class_counts_towards_degradation() {
    for err in [AgentError::Transport, AgentError::Service, AgentError::Timeout] {
        let mut a = agent();
        let s = obs(1);
        let _ = a.begin_decision(&s, 0);
        a.finish_decision(&s, &QueryOutcome::Failure { error: err }, 0);
        assert_eq!(a.consecutive_failures, 1, "for {:?}", err);
        assert_eq!(a.stats.failed_requests, 1, "for {:?}", err);
        assert_eq!(a.stats.total_requests, 1, "for {:?}", err);
    }
}

#[test]
fn unparsable_reply_reads_as_wait_without_degrading() {
    let mut a = agent();
    let s = obs(1);
    let _ = a.begin_decision(&s, 0);
    let act = a.finish_decision(&s, &success("summon a dragon", 4, 20), 0);
    assert_eq!(act, AgentAction::Wait);
    assert_eq!(a.consecutive_failures, 0);
    assert_eq!(a.stats.failed_requests, 0);
    assert_eq!(a.stats.successful_requests, 1);
}

#[test]
fn statistics_track_latency_extremes_and_average() {
    let mut a = agent();
    let s1 = obs(1);
    let _ = a.begin_decision(&s1, 0);
    a.finish_decision(&s1, &success("wait", 3, 100), 0);
    let s2 = obs(2);
    let _ = a.begin_decision(&s2, 10);
    a.finish_decision(&s2, &success("wait", 4, 200), 10);
    assert_eq!(a.stats.successful_requests, 2);
    assert_eq!(a.stats.min_response_time_ms, 100);
    assert_eq!(a.stats.max_response_time_ms, 200);
    // avg = (100 * 1 + 200) / 2
    assert_eq!(a.stats.avg_response_time_ms, 150);
    assert_eq!(a.stats.total_tokens_used, 7);
}

#[test]
fn reset_stats_clears_everything_transient() {
    let mut a = agent();
    let s = obs(1);
    let _ = a.begin_decision(&s, 0);
    a.finish_decision(&s, &success("wait", 3, 100), 0);
    a.consecutive_failures = 2;
    a.reset_stats();
    assert_eq!(a.stats.total_requests, 0);
    assert_eq!(a.decision_cache.entries.len(), 0);
    assert_eq!(a.conversation_history.len(), 0);
    assert_eq!(a.consecutive_failures, 0);
}

#[test]
fn prompt_mentions_allies_enemies_and_objects() {
    let a = agent();
    let mut s = obs(5);
    s.nearby_agents.push(AgentInfo {
        id: 7,
        position: Vec3Fx { x: 1_000, y: 0, z: 0 },
        health: 50_000,
        team: Some(String::from("blue")),
        distance: 1_000,
    });
    s.nearby_agents.push(AgentInfo {
        id: 8,
        position: Vec3Fx { x: -2_000, y: 0, z: 0 },
        health: 90_000,
        team: Some(String::from("red")),
        distance: 2_000,
    });
    s.nearby_objects.push(ObjectInfo {
        id: 9,
        position: Vec3Fx { x: 0, y: 0, z: 3_000 },
        object_type: String::from("crate"),
        distance: 3_000,
    });
    let p = a.state_to_prompt(&s);
    assert!(p.contains("=== NEARBY AGENTS ==="));
    assert!(p.contains("- ALLY at (1.0, 0.0), Health: 50.0, Distance: 1.0"));
    assert!(p.contains("- ENEMY at (-2.0, 0.0), Health: 90.0, Distance: 2.0"));
    assert!(p.contains("=== NEARBY OBJECTS ==="));
    assert!(p.contains("- crate at (0.0, 3.0), Distance: 3.0"));
    assert!(p.contains("Bounds: 100.0x100.0"));
    assert!(p.contains("Respond with ONLY the action"));
}

#[test]
fn prompt_embeds_state_into_template() {
    let mut cfg = LLMConfig::default();
    cfg.action_prompt_template = String::from("[[{state}]]");
    let a = LLMAgent::new(String::from("o"), None, cfg);
    let s = obs(5);
    let p = a.state_to_prompt(&s);
    assert!(p.contains("[[=== AGENT STATUS ==="));
}

#[test]
fn history_is_bounded_and_feeds_prompts() {
    let mut a = agent();
    for tick in 0..15u64 {
        let s = obs(tick);
        let _ = a.begin_decision(&s, tick * 10);
        a.finish_decision(&s, &success("wait", 1, 5), tick * 10);
    }
    assert_eq!(a.conversation_history.len(), 10);
    let s = obs(100);
    let p = a.state_to_prompt(&s);
    assert!(p.contains("=== RECENT ACTIONS ==="));
    assert!(p.contains("1. Tick 14:"));
}

#[test]
fn hooks_note_events_in_history() {
    let mut a = agent();
    a.on_damage_received(12_500, 77).unwrap();
    a.on_kill(78).unwrap();
    a.on_death().unwrap();
    a.on_message(79, "regroup").unwrap();
    assert_eq!(a.conversation_history.len(), 4);
    assert_eq!(a.conversation_history[0], "Received 12.5 damage from 77");
    assert_eq!(a.conversation_history[1], "Eliminated enemy 78");
    assert_eq!(a.conversation_history[2], "Agent died");
    assert_eq!(a.conversation_history[3], "Message from 79: regroup");
}

#[test]
fn remote_identity_and_lifecycle() {
    let mut a = agent();
    assert_eq!(a.get_name(), "oracle");
    assert_eq!(a.get_agent_type(), "LLMAgent");
    assert_eq!(a.get_team(), Some("blue"));
    assert!(a.initialize().is_ok());
    assert!(a.shutdown().is_ok());
    assert_eq!(a.get_stats().total_requests, 0);
}
