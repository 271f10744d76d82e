use arena_agents::manager::{AgentInstance, AgentManager};
use arena_agents::remote::{LLMAgent, LLMConfig};
use arena_agents::scripted::{AgentState, ScriptedAgent};

fn scripted(name: &str) -> AgentInstance {
    AgentInstance::Scripted(ScriptedAgent::new(String::from(name), None))
}

fn remote(name: &str) -> AgentInstance {
    AgentInstance::Remote(LLMAgent::new(
        String::from(name),
        None,
        LLMConfig::default(),
    ))
}

#[test]
fn add_registers_and_activates() {
    let mut m = AgentManager::new();
    let a = scripted("a");
    let id = a.get_id();
    m.add_agent(a).unwrap();
    assert_eq!(m.get_agent_count(), 1);
    assert!(m.is_agent_active(&id));
    assert!(m.get_agent(&id).is_some());
}

#[test]
fn removing_a_missing_id_changes_nothing() {
    let mut m = AgentManager::new();
    m.add_agent(scripted("a")).unwrap();
    let before = m.get_agent_count();
    assert!(m.remove_agent(&123456789).is_none());
    assert_eq!(m.get_agent_count(), before);
    assert_eq!(m.agents.len(), 1);
}

#[test]
fn remove_hands_the_instance_back() {
    let mut m = AgentManager::new();
    let a = scripted("a");
    let id = a.get_id();
    m.add_agent(a).unwrap();
    let got = m.remove_agent(&id).expect("the instance must come back");
    assert_eq!(got.get_id(), id);
    assert_eq!(m.get_agent_count(), 0);
    assert!(m.get_agent(&id).is_none());
    // Removing again is a quiet no-op.
    assert!(m.remove_agent(&id).is_none());
}

#[test]
fn activating_an_unknown_id_is_a_no_op() {
    let mut m = AgentManager::new();
    m.add_agent(scripted("a")).unwrap();
    m.activate_agent(&987654321);
    assert_eq!(m.get_agent_count(), 1);
    assert!(!m.is_agent_active(&987654321));
}

#[test]
fn deactivate_and_reactivate() {
    let mut m = AgentManager::new();
    let a = scripted("a");
    let id = a.get_id();
    m.add_agent(a).unwrap();
    m.deactivate_agent(&id);
    assert!(!m.is_agent_active(&id));
    assert!(m.get_agent(&id).is_some(), "the instance survives deactivation");
    // Deactivating twice changes nothing further.
    m.deactivate_agent(&id);
    assert_eq!(m.get_agent_count(), 0);
    m.activate_agent(&id);
    assert!(m.is_agent_active(&id));
    // Activating twice does not duplicate.
    m.activate_agent(&id);
    assert_eq!(m.get_agent_count(), 1);
}

#[test]
fn clear_all_empties_everything() {
    let mut m = AgentManager::new();
    m.add_agent(scripted("a")).unwrap();
    m.add_agent(remote("b")).unwrap();
    m.respawn_queue.push((5, 1_000));
    m.clear_all();
    assert_eq!(m.agents.len(), 0);
    assert_eq!(m.get_active_agents().len(), 0);
    assert_eq!(m.respawn_queue.len(), 0);
}

#[test]
fn lifecycle_touches_every_instance() {
    let mut m = AgentManager::new();
    let mut a = ScriptedAgent::new(String::from("a"), None);
    a.current_state = AgentState::Fleeing;
    m.add_agent(AgentInstance::Scripted(a)).unwrap();
    m.add_agent(remote("b")).unwrap();
    m.initialize_all_agents(500).unwrap();
    match &m.agents[0] {
        AgentInstance::Scripted(s) => {
            assert_eq!(s.current_state, AgentState::Idle);
            assert_eq!(s.last_decision_ms, 500);
        }
        AgentInstance::Remote(_) => panic!("the first instance is scripted"),
    }
    m.shutdown_all_agents().unwrap();
    match &m.agents[0] {
        AgentInstance::Scripted(s) => assert_eq!(s.current_state, AgentState::Dead),
        AgentInstance::Remote(_) => panic!("the first instance is scripted"),
    }
}

#[test]
fn get_agent_mut_allows_in_place_mutation() {
    let mut m = AgentManager::new();
    let a = scripted("a");
    let id = a.get_id();
    m.add_agent(a).unwrap();
    match m.get_agent_mut(&id) {
        Some(AgentInstance::Scripted(s)) => {
            s.current_state = AgentState::Defending;
        }
        _ => panic!("the scripted instance must be found"),
    }
    match m.get_agent(&id) {
        Some(AgentInstance::Scripted(s)) => assert_eq!(s.current_state, AgentState::Defending),
        _ => panic!("the scripted instance must be found"),
    }
}

#[test]
fn mixed_population_counts() {
    let mut m = AgentManager::default();
    let ids: Vec<u128> = (0..4)
        .map(|k| {
            let inst = if k % 2 == 0 {
                scripted("s")
            } else {
                remote("r")
            };
            let id = inst.get_id();
            m.add_agent(inst).unwrap();
            id
        })
        .collect();
    assert_eq!(m.get_agent_count(), 4);
    assert_eq!(m.get_active_agents().len(), 4);
    for id in &ids {
        assert!(m.is_agent_active(id));
    }
}
