use arena_agents::cache::DecisionCache;
use arena_agents::model::AgentAction;

#[test]
fn fresh_cache_misses() {
    let mut c = DecisionCache::new(4);
    assert_eq!(c.get(1, 0), None);
    assert_eq!(c.miss_count, 1);
    assert_eq!(c.hit_count, 0);
}

#[test]
fn insert_then_get_within_ttl_hits() {
    let mut c = DecisionCache::new(4);
    c.insert(1, AgentAction::Defend, 2_000, 100);
    assert_eq!(c.get(1, 1_500), Some(AgentAction::Defend));
    assert_eq!(c.hit_count, 1);
    assert_eq!(c.miss_count, 0);
    // The hit leaves the entry in place.
    assert_eq!(c.entries.len(), 1);
}

#[test]
fn get_after_ttl_misses_and_drops_the_entry() {
    let mut c = DecisionCache::new(4);
    c.insert(1, AgentAction::Defend, 2_000, 100);
    assert_eq!(c.get(1, 2_100), None);
    assert_eq!(c.miss_count, 1);
    assert_eq!(c.entries.len(), 0);
}

#[test]
fn boundary_of_ttl_is_exclusive() {
    let mut c = DecisionCache::new(4);
    c.insert(1, AgentAction::Wait, 2_000, 100);
    // Exactly at insertion + ttl the entry no longer answers.
    assert_eq!(c.get(1, 2_099), Some(AgentAction::Wait));
    assert_eq!(c.get(1, 2_100), None);
}

#[test]
fn full_cache_evicts_exactly_the_oldest() {
    let mut c = DecisionCache::new(2);
    c.insert(1, AgentAction::Wait, 10_000, 300);
    c.insert(2, AgentAction::Defend, 10_000, 100);
    // Key 2 carries the smallest insertion time, so it leaves.
    c.insert(3, AgentAction::Attack(9), 10_000, 500);
    assert_eq!(c.entries.len(), 2);
    assert_eq!(c.get(2, 600), None);
    assert_eq!(c.get(1, 600), Some(AgentAction::Wait));
    assert_eq!(c.get(3, 600), Some(AgentAction::Attack(9)));
}

#[test]
fn eviction_ties_take_the_first_inserted() {
    let mut c = DecisionCache::new(2);
    c.insert(1, AgentAction::Wait, 10_000, 100);
    c.insert(2, AgentAction::Defend, 10_000, 100);
    c.insert(3, AgentAction::Wait, 10_000, 200);
    assert_eq!(c.get(1, 300), None);
    assert_eq!(c.get(2, 300), Some(AgentAction::Defend));
}

#[test]
fn reinserting_a_key_replaces_its_entry() {
    let mut c = DecisionCache::new(4);
    c.insert(1, AgentAction::Wait, 2_000, 100);
    c.insert(1, AgentAction::Defend, 2_000, 200);
    assert_eq!(c.entries.len(), 1);
    assert_eq!(c.get(1, 300), Some(AgentAction::Defend));
}

#[test]
fn clear_expired_purges_only_the_dead() {
    let mut c = DecisionCache::new(8);
    c.insert(1, AgentAction::Wait, 1_000, 0);
    c.insert(2, AgentAction::Defend, 10_000, 0);
    c.insert(3, AgentAction::Wait, 500, 0);
    c.clear_expired(2_000);
    assert_eq!(c.entries.len(), 1);
    assert_eq!(c.get(2, 2_000), Some(AgentAction::Defend));
}
