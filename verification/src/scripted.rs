//! The scripted decision engine: a finite-state machine with utility-style
//! behavior weights, memory of seen allies and enemies, and exploration and
//! flee vector math. Every rule is a pure function of the agent's state and
//! the current observation; the only outside input is the random waypoint
//! draw, which the contract bounds.

use vstd::prelude::*;
use vstd::string::StringExecFns;
use crate::geom::{Vec3Fx, COORD_LIMIT};
use crate::geom::{spec_add, spec_dist2, spec_normalize, spec_scaled_mag, spec_sub};
use crate::model::{AgentAction, AgentError, AgentId, AgentInfo, GameState};
use crate::model::{is_ally, is_enemy, spec_is_ally, spec_is_enemy};
use crate::model::{spec_min_int, spec_sat_add_u32};
use crate::text::{seq_contains, str_contains};
use crate::trusted::{new_agent_id, random_in_range};

verus! {

/// An enemy at or beyond this fixed-point distance no longer threatens a
/// fleeing agent.
pub const SAFE_DISTANCE: i64 = 5_000;

/// Exploring reverts to Idle after this long in one state, in milliseconds.
pub const EXPLORE_TIMEOUT_MS: u64 = 5_000;

/// Fixed-point health margin over the flee threshold at which a fleeing
/// agent calms down to Idle.
pub const FLEE_RECOVERY_MARGIN: i64 = 20_000;

/// Fixed-point health margin over the flee threshold at which a defending
/// agent calms down to Idle.
pub const DEFEND_RECOVERY_MARGIN: i64 = 30_000;

/// Fixed-point speed of exploratory movement.
pub const EXPLORE_SPEED: i64 = 3_000;

/// Fixed-point speed when chasing a target.
pub const CHASE_SPEED: i64 = 5_000;

/// Fixed-point speed when fleeing from enemies.
pub const FLEE_SPEED: i64 = 8_000;

/// Fixed-point speed when heading for the arena corner with no enemy in view.
pub const CORNER_SPEED: i64 = 6_000;

/// A waypoint closer than this squared fixed-point distance counts as
/// reached (two world units).
pub const WAYPOINT_REACHED_DIST2: u64 = 4_000_000;

/// A fresh waypoint must be at least this squared fixed-point distance from
/// every remembered position (five world units).
pub const VISITED_MIN_DIST2: u64 = 25_000_000;

/// How many positions the exploration memory keeps.
pub const MAX_VISITED: usize = 64;

/// How many random draws may be spent looking for a fresh waypoint.
pub const EXPLORE_ATTEMPTS: u32 = 10;

/// The flee threshold never rises above this fixed-point health value.
pub const THRESHOLD_CAP: i64 = 80_000;

/// The tactical mode of the scripted agent. `Dead` is terminal.
#[derive(Clone, Copy, Debug, PartialEq, Eq, Structural)]
pub enum AgentState {
    Idle,
    Exploring,
    Chasing(AgentId),
    Attacking(AgentId),
    Fleeing,
    Defending,
    Dead,
}

/// The behavior profile. The four weights live in `0..=1000` (fixed-point
/// fractions of one); the threshold and the ranges are absolute fixed-point
/// health and distance values.
#[derive(Clone, Copy, Debug, PartialEq, Eq, Structural)]
pub struct BehaviorConfig {
    pub aggression: i64,
    pub caution: i64,
    pub exploration: i64,
    pub cooperation: i64,
    /// Below this fixed-point health the agent flees.
    pub health_threshold: i64,
    pub attack_range: i64,
    pub vision_range: i64,
}

impl BehaviorConfig {
    pub open spec fn wf(self) -> bool {
        &&& 0 <= self.aggression <= 1_000
        &&& 0 <= self.caution <= 1_000
        &&& 0 <= self.exploration <= 1_000
        &&& 0 <= self.cooperation <= 1_000
        &&& 0 <= self.health_threshold <= 1_000_000
        &&& 0 <= self.attack_range <= COORD_LIMIT
        &&& 0 <= self.vision_range <= COORD_LIMIT
    }

    pub open spec fn spec_default() -> BehaviorConfig {
        BehaviorConfig {
            aggression: 700,
            caution: 500,
            exploration: 600,
            cooperation: 400,
            health_threshold: 30_000,
            attack_range: 3_000,
            vision_range: 10_000,
        }
    }
}

impl Default for BehaviorConfig {
    fn default() -> (r: BehaviorConfig)
        ensures
            r == BehaviorConfig::spec_default(),
            r.wf(),
    {
        BehaviorConfig {
            aggression: 700,
            caution: 500,
            exploration: 600,
            cooperation: 400,
            health_threshold: 30_000,
            attack_range: 3_000,
            vision_range: 10_000,
        }
    }
}

/// A utility goal: a named priority with the conditions it watches and the
/// action tags it favors.
#[derive(Clone, Debug)]
pub struct Goal {
    pub name: String,
    /// Fixed-point priority in `0..=1000`.
    pub priority: i64,
    pub conditions: Vec<(String, i64)>,
    pub actions: Vec<String>,
}

/// What the agent remembers across decisions.
#[derive(Clone, Debug)]
pub struct AgentMemory {
    /// Last-known observation of each hostile agent, one entry per id.
    pub known_enemies: Vec<AgentInfo>,
    /// Last-known observation of each ally, one entry per id.
    pub known_allies: Vec<AgentInfo>,
    /// Recently chosen waypoints, oldest first, at most `MAX_VISITED`.
    pub visited_positions: Vec<Vec3Fx>,
    pub last_damage_source: Option<AgentId>,
    pub kill_count: u32,
    pub death_count: u32,
}

/// Some entry of `s` carries the id.
pub open spec fn has_id(s: Seq<AgentInfo>, id: AgentId) -> bool {
    exists|i: int| 0 <= i < s.len() && (#[trigger] s[i]).id == id
}

/// The index of the entry carrying the id (unique under `unique_ids`).
pub open spec fn idx_of_id(s: Seq<AgentInfo>, id: AgentId) -> int {
    choose|i: int| 0 <= i < s.len() && (#[trigger] s[i]).id == id
}

/// No two entries share an id.
pub open spec fn unique_ids(s: Seq<AgentInfo>) -> bool {
    forall|i: int, j: int|
        0 <= i < j < s.len() ==> (#[trigger] s[i]).id != (#[trigger] s[j]).id
}

/// `s` with the entry for `a.id` replaced by `a`, or `a` appended when no
/// entry carries that id.
pub open spec fn spec_upsert(s: Seq<AgentInfo>, a: AgentInfo) -> Seq<AgentInfo> {
    if has_id(s, a.id) {
        s.update(idx_of_id(s, a.id), a)
    } else {
        s.push(a)
    }
}

/// `s` without the entry carrying `id`, if any.
pub open spec fn spec_remove_id(s: Seq<AgentInfo>, id: AgentId) -> Seq<AgentInfo> {
    if has_id(s, id) {
        s.remove(idx_of_id(s, id))
    } else {
        s
    }
}

impl AgentMemory {
    pub open spec fn wf(self) -> bool {
        &&& unique_ids(self.known_enemies@)
        &&& unique_ids(self.known_allies@)
        &&& self.visited_positions@.len() <= MAX_VISITED
        &&& forall|i: int| 0 <= i < self.visited_positions@.len()
            ==> (#[trigger] self.visited_positions@[i]).in_range(COORD_LIMIT as int)
    }

    pub fn empty() -> (r: AgentMemory)
        ensures
            r.known_enemies@ =~= Seq::<AgentInfo>::empty(),
            r.known_allies@ =~= Seq::<AgentInfo>::empty(),
            r.visited_positions@ =~= Seq::<Vec3Fx>::empty(),
            r.last_damage_source is None,
            r.kill_count == 0,
            r.death_count == 0,
            r.wf(),
    {
        AgentMemory {
            known_enemies: Vec::new(),
            known_allies: Vec::new(),
            visited_positions: Vec::new(),
            last_damage_source: None,
            kill_count: 0,
            death_count: 0,
        }
    }
}

/// The index of the closest hostile entry; among equally close entries the
/// earliest wins.
pub open spec fn spec_nearest_enemy(agents: Seq<AgentInfo>, team: Option<String>) -> Option<int>
    decreases agents.len(),
{
    if agents.len() == 0 {
        None
    } else {
        let prev = spec_nearest_enemy(agents.drop_last(), team);
        let li = agents.len() - 1;
        if spec_is_enemy(team, agents.last().team) {
            match prev {
                None => Some(li as int),
                Some(j) => if agents[j].distance <= agents.last().distance {
                    Some(j)
                } else {
                    Some(li as int)
                },
            }
        } else {
            prev
        }
    }
}

/// The index of the first hostile entry carrying `id`, if it is visible.
pub open spec fn spec_visible_target(
    agents: Seq<AgentInfo>,
    team: Option<String>,
    id: AgentId,
) -> Option<int>
    decreases agents.len(),
{
    if agents.len() == 0 {
        None
    } else {
        let prev = spec_visible_target(agents.drop_last(), team, id);
        let li = agents.len() - 1;
        match prev {
            Some(j) => Some(j),
            None => if agents.last().id == id && spec_is_enemy(team, agents.last().team) {
                Some(li as int)
            } else {
                None
            },
        }
    }
}

/// Every hostile entry is strictly farther than `d`.
pub open spec fn spec_all_enemies_beyond(
    agents: Seq<AgentInfo>,
    team: Option<String>,
    d: i64,
) -> bool {
    forall|i: int|
        0 <= i < agents.len() && spec_is_enemy(team, (#[trigger] agents[i]).team)
            ==> agents[i].distance > d
}

/// The pure transition rule: the next tactical mode from the current mode,
/// the time already spent in it, the behavior profile, the agent's team and
/// the observation. Health is read against the profile's absolute flee
/// threshold; a recovered agent calms down by the two margins.
pub open spec fn spec_transition(
    cur: AgentState,
    duration_ms: u64,
    b: BehaviorConfig,
    team: Option<String>,
    s: GameState,
) -> AgentState {
    let low = s.health < b.health_threshold;
    match cur {
        AgentState::Idle => if low {
            AgentState::Fleeing
        } else {
            match spec_nearest_enemy(s.nearby_agents@, team) {
                Some(i) => {
                    let e = s.nearby_agents@[i];
                    if e.distance <= b.attack_range {
                        AgentState::Attacking(e.id)
                    } else if e.distance <= b.vision_range {
                        AgentState::Chasing(e.id)
                    } else {
                        AgentState::Exploring
                    }
                },
                None => AgentState::Exploring,
            }
        },
        AgentState::Exploring => if low {
            AgentState::Fleeing
        } else {
            let rested = if duration_ms > EXPLORE_TIMEOUT_MS {
                AgentState::Idle
            } else {
                AgentState::Exploring
            };
            match spec_nearest_enemy(s.nearby_agents@, team) {
                Some(i) => {
                    let e = s.nearby_agents@[i];
                    if e.distance <= b.attack_range {
                        AgentState::Attacking(e.id)
                    } else if e.distance <= b.vision_range {
                        AgentState::Chasing(e.id)
                    } else {
                        rested
                    }
                },
                None => rested,
            }
        },
        AgentState::Chasing(target) => if low {
            AgentState::Fleeing
        } else {
            match spec_visible_target(s.nearby_agents@, team, target) {
                Some(i) => {
                    let e = s.nearby_agents@[i];
                    if e.distance <= b.attack_range {
                        AgentState::Attacking(target)
                    } else if e.distance > b.vision_range {
                        AgentState::Exploring
                    } else {
                        AgentState::Chasing(target)
                    }
                },
                None => AgentState::Exploring,
            }
        },
        AgentState::Attacking(target) => if low {
            AgentState::Fleeing
        } else {
            match spec_visible_target(s.nearby_agents@, team, target) {
                Some(i) => {
                    let e = s.nearby_agents@[i];
                    if e.distance <= b.attack_range {
                        AgentState::Attacking(target)
                    } else {
                        AgentState::Chasing(target)
                    }
                },
                None => AgentState::Exploring,
            }
        },
        AgentState::Fleeing => if s.health > b.health_threshold + FLEE_RECOVERY_MARGIN {
            AgentState::Idle
        } else if spec_all_enemies_beyond(s.nearby_agents@, team, SAFE_DISTANCE) {
            AgentState::Defending
        } else {
            AgentState::Fleeing
        },
        AgentState::Defending => if s.health > b.health_threshold + DEFEND_RECOVERY_MARGIN {
            AgentState::Idle
        } else if !spec_all_enemies_beyond(s.nearby_agents@, team, SAFE_DISTANCE) {
            AgentState::Fleeing
        } else {
            AgentState::Defending
        },
        AgentState::Dead => AgentState::Dead,
    }
}

/// The transition rule is deterministic: it is a pure function of the
/// current mode, the time spent in it, the behavior profile, the agent's
/// team, and the observation, so equal inputs always yield the equal next
/// mode.
pub proof fn lemma_transition_deterministic(
    c1: AgentState,
    d1: u64,
    b1: BehaviorConfig,
    t1: Option<String>,
    s1: GameState,
    c2: AgentState,
    d2: u64,
    b2: BehaviorConfig,
    t2: Option<String>,
    s2: GameState,
)
    requires
        c1 == c2,
        d1 == d2,
        b1 == b2,
        t1 == t2,
        s1 == s2,
    ensures
        spec_transition(c1, d1, b1, t1, s1) == spec_transition(c2, d2, b2, t2, s2),
{
}

/// Health below the flee threshold forces the Fleeing mode from every
/// engaged mode (Idle, Exploring, Chasing, Attacking). A fleeing agent whose
/// enemies have all withdrawn past the safe distance settles to Defending
/// instead, and a defending one holds its ground, so those modes are not
/// covered.
pub proof fn lemma_low_health_flees(
    cur: AgentState,
    dur: u64,
    b: BehaviorConfig,
    team: Option<String>,
    s: GameState,
)
    requires
        s.health < b.health_threshold,
        cur == AgentState::Idle || cur == AgentState::Exploring || (cur matches
            AgentState::Chasing(_)) || (cur matches AgentState::Attacking(_)),
    ensures
        spec_transition(cur, dur, b, team, s) == AgentState::Fleeing,
{
}

/// Under pressure the flight is universal: with health below the flee
/// threshold and some enemy inside the safe distance, every mode but the
/// terminal Dead transitions to Fleeing.
pub proof fn lemma_low_health_flees_under_pressure(
    cur: AgentState,
    dur: u64,
    b: BehaviorConfig,
    team: Option<String>,
    s: GameState,
)
    requires
        s.health < b.health_threshold,
        !spec_all_enemies_beyond(s.nearby_agents@, team, SAFE_DISTANCE),
        cur != AgentState::Dead,
    ensures
        spec_transition(cur, dur, b, team, s) == AgentState::Fleeing,
{
}

/// An exploring agent that sees no enemy and has explored for longer than
/// the timeout settles back to Idle, provided its health is not below the
/// flee threshold.
pub proof fn lemma_exploring_times_out(
    dur: u64,
    b: BehaviorConfig,
    team: Option<String>,
    s: GameState,
)
    requires
        s.health >= b.health_threshold,
        spec_nearest_enemy(s.nearby_agents@, team) is None,
        dur > EXPLORE_TIMEOUT_MS,
    ensures
        spec_transition(AgentState::Exploring, dur, b, team, s) == AgentState::Idle,
{
}

/// The scripted agent.
pub struct ScriptedAgent {
    pub id: AgentId,
    pub name: String,
    pub agent_type: String,
    pub team: Option<String>,
    pub current_state: AgentState,
    pub behavior: BehaviorConfig,
    pub memory: AgentMemory,
    pub goals: Vec<Goal>,
    /// Time spent in the current state, in milliseconds.
    pub state_duration: u64,
    /// When the last decision was made, in milliseconds.
    pub last_decision_ms: u64,
    /// The exploration waypoint currently steered for.
    pub target_position: Option<Vec3Fx>,
}

impl ScriptedAgent {
    pub open spec fn wf(self) -> bool {
        &&& self.behavior.wf()
        &&& self.memory.wf()
        &&& match self.target_position {
            Some(t) => t.in_range(COORD_LIMIT as int),
            None => true,
        }
    }

    /// A fresh agent: Idle, default profile, empty memory, the default goal
    /// set, and a randomly drawn id.
    pub fn new(name: String, team: Option<String>) -> (r: ScriptedAgent)
        ensures
            r.name@ == name@,
            r.team == team,
            r.agent_type@ == "ScriptedAgent"@,
            r.current_state == AgentState::Idle,
            r.behavior == BehaviorConfig::spec_default(),
            r.memory.known_enemies@.len() == 0,
            r.memory.known_allies@.len() == 0,
            r.memory.visited_positions@.len() == 0,
            r.memory.kill_count == 0,
            r.memory.death_count == 0,
            r.state_duration == 0,
            r.last_decision_ms == 0,
            r.target_position is None,
            r.goals@.len() == 3,
            r.wf(),
    {
        ScriptedAgent {
            id: new_agent_id(),
            name,
            agent_type: String::from_str("ScriptedAgent"),
            team,
            current_state: AgentState::Idle,
            behavior: Default::default(),
            memory: AgentMemory::empty(),
            goals: Self::create_default_goals(),
            state_duration: 0,
            last_decision_ms: 0,
            target_position: None,
        }
    }

    /// The same agent with the given behavior profile.
    pub fn with_behavior(self, behavior: BehaviorConfig) -> (r: ScriptedAgent)
        requires
            behavior.wf(),
            self.wf(),
        ensures
            r == (ScriptedAgent { behavior, ..self }),
            r.wf(),
    {
        ScriptedAgent { behavior, ..self }
    }

    /// The built-in goal set: survival first, elimination second,
    /// exploration last.
    pub fn create_default_goals() -> (r: Vec<Goal>)
        ensures
            r@.len() == 3,
            r@[0].name@ == "Survive"@,
            r@[0].priority == 1_000,
            r@[1].name@ == "EliminateEnemies"@,
            r@[1].priority == 800,
            r@[2].name@ == "Explore"@,
            r@[2].priority == 300,
    {
        let mut survive_conditions: Vec<(String, i64)> = Vec::new();
        survive_conditions.push((String::from_str("health"), 1_000));
        let mut survive_actions: Vec<String> = Vec::new();
        survive_actions.push(String::from_str("flee"));
        survive_actions.push(String::from_str("defend"));

        let mut eliminate_conditions: Vec<(String, i64)> = Vec::new();
        eliminate_conditions.push((String::from_str("enemy_nearby"), 1_000));
        let mut eliminate_actions: Vec<String> = Vec::new();
        eliminate_actions.push(String::from_str("chase"));
        eliminate_actions.push(String::from_str("attack"));

        let mut explore_actions: Vec<String> = Vec::new();
        explore_actions.push(String::from_str("explore"));

        let mut goals: Vec<Goal> = Vec::new();
        goals.push(Goal {
            name: String::from_str("Survive"),
            priority: 1_000,
            conditions: survive_conditions,
            actions: survive_actions,
        });
        goals.push(Goal {
            name: String::from_str("EliminateEnemies"),
            priority: 800,
            conditions: eliminate_conditions,
            actions: eliminate_actions,
        });
        goals.push(Goal {
            name: String::from_str("Explore"),
            priority: 300,
            conditions: explore_actions_goal_conditions(),
            actions: explore_actions,
        });
        goals
    }

    /// The next tactical mode for this observation; a pure function of the
    /// agent's current mode, time in mode, profile and team.
    pub fn transition_state(&self, state: &GameState) -> (r: AgentState)
        requires
            self.behavior.wf(),
        ensures
            r == spec_transition(
                self.current_state,
                self.state_duration,
                self.behavior,
                self.team,
                *state,
            ),
    {
        let low = state.health < self.behavior.health_threshold;
        match self.current_state {
            AgentState::Idle => {
                if low {
                    AgentState::Fleeing
                } else {
                    match self.find_nearest_enemy(&state.nearby_agents) {
                        Some(i) => {
                            let e = &state.nearby_agents[i];
                            if e.distance <= self.behavior.attack_range {
                                AgentState::Attacking(e.id)
                            } else if e.distance <= self.behavior.vision_range {
                                AgentState::Chasing(e.id)
                            } else {
                                AgentState::Exploring
                            }
                        },
                        None => AgentState::Exploring,
                    }
                }
            },
            AgentState::Exploring => {
                if low {
                    AgentState::Fleeing
                } else {
                    let rested = if self.state_duration > EXPLORE_TIMEOUT_MS {
                        AgentState::Idle
                    } else {
                        AgentState::Exploring
                    };
                    match self.find_nearest_enemy(&state.nearby_agents) {
                        Some(i) => {
                            let e = &state.nearby_agents[i];
                            if e.distance <= self.behavior.attack_range {
                                AgentState::Attacking(e.id)
                            } else if e.distance <= self.behavior.vision_range {
                                AgentState::Chasing(e.id)
                            } else {
                                rested
                            }
                        },
                        None => rested,
                    }
                }
            },
            AgentState::Chasing(target) => {
                if low {
                    AgentState::Fleeing
                } else {
                    match self.find_visible_target(&state.nearby_agents, target) {
                        Some(i) => {
                            let e = &state.nearby_agents[i];
                            if e.distance <= self.behavior.attack_range {
                                AgentState::Attacking(target)
                            } else if e.distance > self.behavior.vision_range {
                                AgentState::Exploring
                            } else {
                                AgentState::Chasing(target)
                            }
                        },
                        None => AgentState::Exploring,
                    }
                }
            },
            AgentState::Attacking(target) => {
                if low {
                    AgentState::Fleeing
                } else {
                    match self.find_visible_target(&state.nearby_agents, target) {
                        Some(i) => {
                            let e = &state.nearby_agents[i];
                            if e.distance <= self.behavior.attack_range {
                                AgentState::Attacking(target)
                            } else {
                                AgentState::Chasing(target)
                            }
                        },
                        None => AgentState::Exploring,
                    }
                }
            },
            AgentState::Fleeing => {
                if state.health > self.behavior.health_threshold + FLEE_RECOVERY_MARGIN {
                    AgentState::Idle
                } else if self.is_safe_distance(&state.nearby_agents) {
                    AgentState::Defending
                } else {
                    AgentState::Fleeing
                }
            },
            AgentState::Defending => {
                if state.health > self.behavior.health_threshold + DEFEND_RECOVERY_MARGIN {
                    AgentState::Idle
                } else if !self.is_safe_distance(&state.nearby_agents) {
                    AgentState::Fleeing
                } else {
                    AgentState::Defending
                }
            },
            AgentState::Dead => AgentState::Dead,
        }
    }

    /// The closest hostile entry, earliest on ties.
    fn find_nearest_enemy(&self, agents: &Vec<AgentInfo>) -> (r: Option<usize>)
        ensures
            match r {
                Some(i) => i < agents@.len() && spec_nearest_enemy(agents@, self.team) == Some(
                    i as int,
                ),
                None => spec_nearest_enemy(agents@, self.team) is None,
            },
    {
        let mut best: Option<usize> = None;
        let mut i: usize = 0;
        while i < agents.len()
            invariant
                0 <= i <= agents@.len(),
                (match best {
                    Some(j) => spec_nearest_enemy(agents@.take(i as int), self.team) == Some(
                        j as int,
                    ) && j < i,
                    None => spec_nearest_enemy(agents@.take(i as int), self.team) is None,
                }),
            decreases agents@.len() - i,
        {
            proof {
                assert(agents@.take(i + 1).drop_last() =~= agents@.take(i as int));
                assert(agents@.take(i + 1).last() == agents@[i as int]);
            }
            if is_enemy(&self.team, &agents[i].team) {
                match best {
                    Some(j) => {
                        if !(agents[j].distance <= agents[i].distance) {
                            best = Some(i);
                        }
                    },
                    None => {
                        best = Some(i);
                    },
                }
            }
            i = i + 1;
        }
        proof {
            assert(agents@.take(agents@.len() as int) =~= agents@);
        }
        best
    }

    /// The first visible hostile entry carrying `target`.
    fn find_visible_target(&self, agents: &Vec<AgentInfo>, target: AgentId) -> (r: Option<usize>)
        ensures
            match r {
                Some(i) => i < agents@.len() && spec_visible_target(agents@, self.team, target)
                    == Some(i as int),
                None => spec_visible_target(agents@, self.team, target) is None,
            },
    {
        let mut found: Option<usize> = None;
        let mut i: usize = 0;
        while i < agents.len()
            invariant
                0 <= i <= agents@.len(),
                (match found {
                    Some(j) => spec_visible_target(agents@.take(i as int), self.team, target)
                        == Some(j as int) && j < i,
                    None => spec_visible_target(agents@.take(i as int), self.team, target)
                        is None,
                }),
            decreases agents@.len() - i,
        {
            proof {
                assert(agents@.take(i + 1).drop_last() =~= agents@.take(i as int));
                assert(agents@.take(i + 1).last() == agents@[i as int]);
            }
            if found.is_none() {
                if agents[i].id == target && is_enemy(&self.team, &agents[i].team) {
                    found = Some(i);
                }
            }
            i = i + 1;
        }
        proof {
            assert(agents@.take(agents@.len() as int) =~= agents@);
        }
        found
    }

    /// Every visible enemy is beyond the safe distance.
    fn is_safe_distance(&self, agents: &Vec<AgentInfo>) -> (r: bool)
        ensures
            r == spec_all_enemies_beyond(agents@, self.team, SAFE_DISTANCE),
    {
        let mut i: usize = 0;
        while i < agents.len()
            invariant
                0 <= i <= agents@.len(),
                forall|k: int|
                    0 <= k < i && spec_is_enemy(self.team, (#[trigger] agents@[k]).team)
                        ==> agents@[k].distance > SAFE_DISTANCE,
            decreases agents@.len() - i,
        {
            if is_enemy(&self.team, &agents[i].team) && agents[i].distance <= SAFE_DISTANCE {
                return false;
            }
            i = i + 1;
        }
        true
    }
}

/// The empty condition list of the exploration goal.
fn explore_actions_goal_conditions() -> (r: Vec<(String, i64)>)
    ensures
        r@.len() == 0,
{
    Vec::new()
}

/// An owned copy of an optional team label.
fn clone_team(t: &Option<String>) -> (r: Option<String>)
    ensures
        r == *t,
{
    match t {
        Some(s) => Some(s.clone()),
        None => None,
    }
}

/// An owned copy of one observed agent.
fn clone_info(a: &AgentInfo) -> (r: AgentInfo)
    ensures
        r == *a,
{
    AgentInfo {
        id: a.id,
        position: a.position,
        health: a.health,
        team: clone_team(&a.team),
        distance: a.distance,
    }
}

/// Replaces the entry carrying `a.id` by `a`, or appends `a`.
fn upsert_info(list: &mut Vec<AgentInfo>, a: AgentInfo)
    requires
        unique_ids(old(list)@),
    ensures
        final(list)@ == spec_upsert(old(list)@, a),
        unique_ids(final(list)@),
{
    let mut i: usize = 0;
    while i < list.len()
        invariant
            unique_ids(list@),
            list@ == old(list)@,
            0 <= i <= list@.len(),
            forall|k: int| 0 <= k < i ==> (#[trigger] list@[k]).id != a.id,
        decreases list@.len() - i,
    {
        if list[i].id == a.id {
            proof {
                assert(has_id(list@, a.id));
                let k = idx_of_id(list@, a.id);
                if k != i as int {
                    assert(list@[k].id == list@[i as int].id);
                    assert(false);
                }
            }
            let slot = &mut list[i];
            *slot = a;
            return ;
        }
        i = i + 1;
    }
    proof {
        if has_id(list@, a.id) {
            let k = choose|k: int| 0 <= k < list@.len() && (#[trigger] list@[k]).id == a.id;
            assert(list@[k].id != a.id);
        }
    }
    list.push(a);
    proof {
        assert forall|p: int, q: int| 0 <= p < q < list@.len() implies (#[trigger] list@[p]).id
            != (#[trigger] list@[q]).id by {
            if q == list@.len() - 1 {
                assert(old(list)@[p].id != a.id);
            }
        }
    }
}

/// Removes the entry carrying `id`, if any.
fn remove_info_by_id(list: &mut Vec<AgentInfo>, id: AgentId)
    requires
        unique_ids(old(list)@),
    ensures
        final(list)@ == spec_remove_id(old(list)@, id),
        unique_ids(final(list)@),
{
    let mut i: usize = 0;
    while i < list.len()
        invariant
            unique_ids(list@),
            list@ == old(list)@,
            0 <= i <= list@.len(),
            forall|k: int| 0 <= k < i ==> (#[trigger] list@[k]).id != id,
        decreases list@.len() - i,
    {
        if list[i].id == id {
            proof {
                assert(has_id(list@, id));
                let k = idx_of_id(list@, id);
                if k != i as int {
                    assert(list@[k].id == list@[i as int].id);
                    assert(false);
                }
            }
            list.remove(i);
            proof {
                assert forall|p: int, q: int| 0 <= p < q < list@.len() implies
                    (#[trigger] list@[p]).id != (#[trigger] list@[q]).id by {
                    let op = if p < i as int { p } else { p + 1 };
                    let oq = if q < i as int { q } else { q + 1 };
                    assert(old(list)@[op].id != old(list)@[oq].id);
                }
            }
            return ;
        }
        i = i + 1;
    }
    proof {
        if has_id(list@, id) {
            let k = choose|k: int| 0 <= k < list@.len() && (#[trigger] list@[k]).id == id;
            assert(list@[k].id != id);
        }
    }
}

/// One agent folded into the ally/enemy memory.
pub open spec fn spec_mem_step(
    al: Seq<AgentInfo>,
    en: Seq<AgentInfo>,
    team: Option<String>,
    a: AgentInfo,
) -> (Seq<AgentInfo>, Seq<AgentInfo>) {
    if spec_is_ally(team, a.team) {
        (spec_upsert(al, a), en)
    } else if spec_is_enemy(team, a.team) {
        (al, spec_upsert(en, a))
    } else {
        (al, en)
    }
}

/// The ally/enemy memory after folding in every visible agent, front to
/// back. Allies are agents whose present label equals the observer's
/// present label; agents with a differing label are enemies; when both
/// labels are absent the sighting is recorded in neither list.
pub open spec fn spec_mem_after(
    al: Seq<AgentInfo>,
    en: Seq<AgentInfo>,
    team: Option<String>,
    agents: Seq<AgentInfo>,
) -> (Seq<AgentInfo>, Seq<AgentInfo>)
    decreases agents.len(),
{
    if agents.len() == 0 {
        (al, en)
    } else {
        let step = spec_mem_step(al, en, team, agents[0]);
        spec_mem_after(step.0, step.1, team, agents.drop_first())
    }
}

impl ScriptedAgent {
    /// Folds the current sightings into the ally/enemy memory.
    fn update_memory(&mut self, state: &GameState)
        requires
            unique_ids(old(self).memory.known_allies@),
            unique_ids(old(self).memory.known_enemies@),
        ensures
            ({
                let after = spec_mem_after(
                    old(self).memory.known_allies@,
                    old(self).memory.known_enemies@,
                    old(self).team,
                    state.nearby_agents@,
                );
                &&& final(self).memory.known_allies@ == after.0
                &&& final(self).memory.known_enemies@ == after.1
            }),
            unique_ids(final(self).memory.known_allies@),
            unique_ids(final(self).memory.known_enemies@),
            *final(self) == (ScriptedAgent {
                memory: AgentMemory {
                    known_allies: final(self).memory.known_allies,
                    known_enemies: final(self).memory.known_enemies,
                    ..old(self).memory
                },
                ..*old(self)
            }),
    {
        let ghost al0 = self.memory.known_allies@;
        let ghost en0 = self.memory.known_enemies@;
        proof {
            assert(state.nearby_agents@.skip(0) =~= state.nearby_agents@);
        }
        let mut i: usize = 0;
        while i < state.nearby_agents.len()
            invariant
                0 <= i <= state.nearby_agents@.len(),
                unique_ids(self.memory.known_allies@),
                unique_ids(self.memory.known_enemies@),
                spec_mem_after(
                    self.memory.known_allies@,
                    self.memory.known_enemies@,
                    self.team,
                    state.nearby_agents@.skip(i as int),
                ) == spec_mem_after(al0, en0, self.team, state.nearby_agents@),
                *self == (ScriptedAgent {
                    memory: AgentMemory {
                        known_allies: self.memory.known_allies,
                        known_enemies: self.memory.known_enemies,
                        ..old(self).memory
                    },
                    ..*old(self)
                }),
            decreases state.nearby_agents@.len() - i,
        {
            let ghost rest = state.nearby_agents@.skip(i as int);
            proof {
                assert(rest[0] == state.nearby_agents@[i as int]);
                assert(rest.drop_first() =~= state.nearby_agents@.skip(i + 1));
            }
            let a = clone_info(&state.nearby_agents[i]);
            if is_ally(&self.team, &a.team) {
                upsert_info(&mut self.memory.known_allies, a);
            } else if is_enemy(&self.team, &a.team) {
                upsert_info(&mut self.memory.known_enemies, a);
            }
            i = i + 1;
        }
        proof {
            assert(state.nearby_agents@.skip(state.nearby_agents@.len() as int)
                =~= Seq::<AgentInfo>::empty());
        }
    }

    /// Records the attacker; a cautious agent raises its flee threshold by a
    /// fifth, capped.
    pub fn on_damage_received(&mut self, damage: i64, attacker_id: AgentId) -> (r: Result<
        (),
        AgentError,
    >)
        requires
            old(self).wf(),
        ensures
            r is Ok,
            final(self).memory.last_damage_source == Some(attacker_id),
            final(self).behavior.health_threshold == if old(self).behavior.caution > 500 {
                spec_min_int(old(self).behavior.health_threshold * 12 / 10, THRESHOLD_CAP as int)
            } else {
                old(self).behavior.health_threshold as int
            },
            *final(self) == (ScriptedAgent {
                memory: AgentMemory {
                    last_damage_source: Some(attacker_id),
                    ..old(self).memory
                },
                behavior: BehaviorConfig {
                    health_threshold: final(self).behavior.health_threshold,
                    ..old(self).behavior
                },
                ..*old(self)
            }),
            final(self).wf(),
    {
        self.memory.last_damage_source = Some(attacker_id);
        if self.behavior.caution > 500 {
            let raised = self.behavior.health_threshold * 12 / 10;
            self.behavior.health_threshold = if raised < THRESHOLD_CAP {
                raised
            } else {
                THRESHOLD_CAP
            };
        }
        Ok(())
    }

    /// Counts the kill, forgets the victim, and grows bolder by a tenth.
    pub fn on_kill(&mut self, victim_id: AgentId) -> (r: Result<(), AgentError>)
        requires
            old(self).wf(),
        ensures
            r is Ok,
            final(self).memory.kill_count == spec_sat_add_u32(old(self).memory.kill_count, 1),
            final(self).memory.known_enemies@ == spec_remove_id(
                old(self).memory.known_enemies@,
                victim_id,
            ),
            final(self).behavior.aggression == spec_min_int(
                old(self).behavior.aggression * 11 / 10,
                1_000,
            ),
            *final(self) == (ScriptedAgent {
                memory: AgentMemory {
                    kill_count: final(self).memory.kill_count,
                    known_enemies: final(self).memory.known_enemies,
                    ..old(self).memory
                },
                behavior: BehaviorConfig {
                    aggression: final(self).behavior.aggression,
                    ..old(self).behavior
                },
                ..*old(self)
            }),
            final(self).wf(),
    {
        self.memory.kill_count = if self.memory.kill_count < 0xffff_ffff {
            self.memory.kill_count + 1
        } else {
            self.memory.kill_count
        };
        remove_info_by_id(&mut self.memory.known_enemies, victim_id);
        let raised = self.behavior.aggression * 11 / 10;
        self.behavior.aggression = if raised < 1_000 {
            raised
        } else {
            1_000
        };
        Ok(())
    }

    /// Counts the death, grows warier by a fifth, and becomes permanently
    /// Dead.
    pub fn on_death(&mut self) -> (r: Result<(), AgentError>)
        requires
            old(self).wf(),
        ensures
            r is Ok,
            final(self).memory.death_count == spec_sat_add_u32(old(self).memory.death_count, 1),
            final(self).behavior.caution == spec_min_int(
                old(self).behavior.caution * 12 / 10,
                1_000,
            ),
            final(self).current_state == AgentState::Dead,
            *final(self) == (ScriptedAgent {
                memory: AgentMemory {
                    death_count: final(self).memory.death_count,
                    ..old(self).memory
                },
                behavior: BehaviorConfig {
                    caution: final(self).behavior.caution,
                    ..old(self).behavior
                },
                current_state: AgentState::Dead,
                ..*old(self)
            }),
            final(self).wf(),
    {
        self.memory.death_count = if self.memory.death_count < 0xffff_ffff {
            self.memory.death_count + 1
        } else {
            self.memory.death_count
        };
        let raised = self.behavior.caution * 12 / 10;
        self.behavior.caution = if raised < 1_000 {
            raised
        } else {
            1_000
        };
        self.current_state = AgentState::Dead;
        Ok(())
    }

    /// A known ally reporting an enemy makes the agent bolder; a call for
    /// help makes it more cooperative. Strangers are ignored.
    pub fn on_message(&mut self, sender_id: AgentId, message: &str) -> (r: Result<
        (),
        AgentError,
    >)
        requires
            old(self).wf(),
        ensures
            r is Ok,
            ({
                let from_ally = has_id(old(self).memory.known_allies@, sender_id);
                let enemy_word = seq_contains(message@, "enemy"@);
                let help_word = seq_contains(message@, "help"@);
                &&& final(self).behavior.aggression == if from_ally && enemy_word {
                    spec_min_int(old(self).behavior.aggression * 11 / 10, 1_000)
                } else {
                    old(self).behavior.aggression as int
                }
                &&& final(self).behavior.cooperation == if from_ally && !enemy_word && help_word {
                    spec_min_int(old(self).behavior.cooperation * 11 / 10, 1_000)
                } else {
                    old(self).behavior.cooperation as int
                }
            }),
            *final(self) == (ScriptedAgent {
                behavior: BehaviorConfig {
                    aggression: final(self).behavior.aggression,
                    cooperation: final(self).behavior.cooperation,
                    ..old(self).behavior
                },
                ..*old(self)
            }),
            final(self).wf(),
    {
        if has_info_id(&self.memory.known_allies, sender_id) {
            if str_contains(message, "enemy") {
                let raised = self.behavior.aggression * 11 / 10;
                self.behavior.aggression = if raised < 1_000 {
                    raised
                } else {
                    1_000
                };
            } else if str_contains(message, "help") {
                let raised = self.behavior.cooperation * 11 / 10;
                self.behavior.cooperation = if raised < 1_000 {
                    raised
                } else {
                    1_000
                };
            }
        }
        Ok(())
    }
}

/// Whether some entry carries the id.
fn has_info_id(list: &Vec<AgentInfo>, id: AgentId) -> (r: bool)
    ensures
        r == has_id(list@, id),
{
    let mut i: usize = 0;
    while i < list.len()
        invariant
            0 <= i <= list@.len(),
            forall|k: int| 0 <= k < i ==> (#[trigger] list@[k]).id != id,
        decreases list@.len() - i,
    {
        if list[i].id == id {
            return true;
        }
        i = i + 1;
    }
    proof {
        if has_id(list@, id) {
            let k = choose|k: int| 0 <= k < list@.len() && (#[trigger] list@[k]).id == id;
            assert(list@[k].id != id);
        }
    }
    false
}

/// The flight weight of an enemy at fixed-point distance `d`: closer enemies
/// weigh more, by about one over the distance (in world units, with a small
/// offset so a touching enemy stays finite). The weight is a fixed-point
/// fraction: 1000 stands for weight one.
pub open spec fn spec_enemy_weight(d: int) -> int {
    1_000_000int / (d + 100)
}

/// One enemy's push on the flee direction: the unit vector away from it,
/// scaled by its weight.
pub open spec fn spec_flee_contrib(pos: Vec3Fx, e: AgentInfo) -> Vec3Fx {
    let dir = spec_normalize(spec_sub(pos, e.position), 1_000);
    let w = spec_enemy_weight(e.distance as int);
    Vec3Fx {
        x: spec_scaled_mag(dir.x as int, w, 1_000) as i64,
        y: spec_scaled_mag(dir.y as int, w, 1_000) as i64,
        z: spec_scaled_mag(dir.z as int, w, 1_000) as i64,
    }
}

/// The distance-weighted sum of the away-vectors from every visible enemy.
pub open spec fn spec_flee_sum(
    pos: Vec3Fx,
    agents: Seq<AgentInfo>,
    team: Option<String>,
) -> Vec3Fx
    decreases agents.len(),
{
    if agents.len() == 0 {
        Vec3Fx::spec_zero()
    } else {
        let rest = spec_flee_sum(pos, agents.drop_last(), team);
        if spec_is_enemy(team, agents.last().team) {
            spec_add(rest, spec_flee_contrib(pos, agents.last()))
        } else {
            rest
        }
    }
}

/// The flee direction: the normalized weighted sum of away-vectors at flee
/// speed; with no net push, a vector towards the arena corner at a slightly
/// lower speed.
pub open spec fn spec_flee_direction(team: Option<String>, s: GameState) -> Vec3Fx {
    let sum = spec_flee_sum(s.position, s.nearby_agents@, team);
    if sum != Vec3Fx::spec_zero() {
        spec_normalize(sum, FLEE_SPEED as int)
    } else {
        let corner = Vec3Fx {
            x: (-(s.arena_bounds.x / 2)) as i64,
            y: 0,
            z: (-(s.arena_bounds.y / 2)) as i64,
        };
        spec_normalize(spec_sub(corner, s.position), CORNER_SPEED as int)
    }
}

/// `|c| * m / d` with the sign of `c` reapplied (truncating division).
fn muldiv_trunc(c: i64, m: i64, d: i64) -> (r: i64)
    requires
        -2_000_000 <= c <= 2_000_000,
        0 <= m <= 1_000_000,
        1 <= d,
    ensures
        r == spec_scaled_mag(c as int, m as int, d as int),
        -d <= c <= d ==> -m <= r <= m,
{
    let ac: u64 = if c >= 0 {
        c as u64
    } else {
        (-c) as u64
    };
    proof {
        assert(ac * m <= 2_000_000 * 1_000_000) by (nonlinear_arith)
            requires 0 <= ac <= 2_000_000 && 0 <= m <= 1_000_000;
    }
    let q = (ac * (m as u64)) / (d as u64);
    proof {
        if -d <= c <= d {
            assert(ac <= d);
            assert(ac * m <= d * m) by (nonlinear_arith)
                requires 0 <= ac <= d && 0 <= m;
            vstd::arithmetic::div_mod::lemma_multiply_divide_le(
                ac as int * m as int,
                d as int,
                m as int,
            );
        }
        vstd::arithmetic::div_mod::lemma_multiply_divide_le(
            ac as int * m as int,
            d as int,
            2_000_000int * 1_000_000int,
        );
        assert(d * (2_000_000 * 1_000_000) >= ac * m) by (nonlinear_arith)
            requires 1 <= d && 0 <= ac * m <= 2_000_000 * 1_000_000;
    }
    if c >= 0 {
        q as i64
    } else {
        -(q as i64)
    }
}

impl ScriptedAgent {
    /// The direction a frightened agent runs: away from every visible enemy,
    /// weighted by closeness, or towards the arena corner when nothing
    /// pushes.
    pub fn calculate_flee_direction(&self, state: &GameState) -> (r: Vec3Fx)
        requires
            state.wf(),
        ensures
            r == spec_flee_direction(self.team, *state),
            r.in_range(FLEE_SPEED as int),
    {
        let agents = &state.nearby_agents;
        let mut acc = Vec3Fx::zero();
        let mut i: usize = 0;
        proof {
            assert(agents@.take(0) =~= Seq::<AgentInfo>::empty());
        }
        while i < agents.len()
            invariant
                state.wf(),
                agents == &state.nearby_agents,
                0 <= i <= agents@.len(),
                acc == spec_flee_sum(state.position, agents@.take(i as int), self.team),
                acc.in_range(10_000 * i as int),
                i <= 100_000,
            decreases agents@.len() - i,
        {
            proof {
                assert(agents@.take(i + 1).drop_last() =~= agents@.take(i as int));
                assert(agents@.take(i + 1).last() == agents@[i as int]);
            }
            if is_enemy(&self.team, &agents[i].team) {
                let e = &agents[i];
                let diff = crate::geom::vec3_sub(state.position, e.position);
                let dir = crate::geom::normalize_to(diff, 1_000);
                let dist_offset = (e.distance as u64) + 100;
                let w = (1_000_000u64 / dist_offset) as i64;
                proof {
                    vstd::arithmetic::div_mod::lemma_div_is_ordered_by_denominator(
                        1_000_000,
                        100,
                        dist_offset as int,
                    );
                }
                let cx = muldiv_trunc(dir.x, w, 1_000);
                let cy = muldiv_trunc(dir.y, w, 1_000);
                let cz = muldiv_trunc(dir.z, w, 1_000);
                acc = Vec3Fx { x: acc.x + cx, y: acc.y + cy, z: acc.z + cz };
            }
            i = i + 1;
        }
        proof {
            assert(agents@.take(agents@.len() as int) =~= agents@);
        }
        let is_zero = acc.x == 0 && acc.y == 0 && acc.z == 0;
        if !is_zero {
            crate::geom::normalize_to(acc, FLEE_SPEED)
        } else {
            let half_x = ((state.arena_bounds.x as u64) / 2) as i64;
            let half_y = ((state.arena_bounds.y as u64) / 2) as i64;
            let corner = Vec3Fx { x: -half_x, y: 0, z: -half_y };
            let diff = crate::geom::vec3_sub(corner, state.position);
            let r = crate::geom::normalize_to(diff, CORNER_SPEED);
            proof {
                assert(r.in_range(FLEE_SPEED as int));
            }
            r
        }
    }
}

/// `p` lies inside the arena's footprint (the arena is centered at the
/// origin); the upper edge is exclusive, as the random draw leaves it out.
pub open spec fn spec_in_arena_xz(p: Vec3Fx, bounds: crate::geom::Vec2Fx) -> bool {
    &&& -(bounds.x / 2) <= p.x < bounds.x / 2
    &&& -(bounds.y / 2) <= p.z < bounds.y / 2
}

/// The exploration memory after remembering `p`: the oldest entry falls out
/// when the memory is full.
pub open spec fn spec_push_visited(vs: Seq<Vec3Fx>, p: Vec3Fx) -> Seq<Vec3Fx> {
    if vs.len() >= MAX_VISITED {
        vs.drop_first().push(p)
    } else {
        vs.push(p)
    }
}

/// `p` keeps the minimum spacing from every remembered position.
pub open spec fn spec_far_from_all(vs: Seq<Vec3Fx>, p: Vec3Fx) -> bool {
    forall|i: int| 0 <= i < vs.len() ==> spec_dist2(#[trigger] vs[i], p) >= VISITED_MIN_DIST2
}

impl ScriptedAgent {
    /// `p` keeps the minimum spacing from every remembered position.
    fn far_from_visited(&self, p: Vec3Fx) -> (r: bool)
        requires
            self.memory.wf(),
            p.in_range(COORD_LIMIT as int),
        ensures
            r == spec_far_from_all(self.memory.visited_positions@, p),
    {
        let vs = &self.memory.visited_positions;
        let mut i: usize = 0;
        while i < vs.len()
            invariant
                self.memory.wf(),
                vs == &self.memory.visited_positions,
                p.in_range(COORD_LIMIT as int),
                0 <= i <= vs@.len(),
                forall|k: int| 0 <= k < i ==> spec_dist2(#[trigger] vs@[k], p)
                    >= VISITED_MIN_DIST2,
            decreases vs@.len() - i,
        {
            if crate::geom::dist2(vs[i], p) < VISITED_MIN_DIST2 {
                return false;
            }
            i = i + 1;
        }
        true
    }

    /// Draws a waypoint inside the arena, preferring one far from every
    /// remembered position; only a fresh waypoint is remembered. In a
    /// degenerate arena (either extent under two fixed-point steps, where no
    /// draw is possible) the origin is returned and nothing is remembered.
    pub fn generate_explore_position(&mut self, state: &GameState) -> (r: Vec3Fx)
        requires
            old(self).wf(),
            state.wf(),
        ensures
            final(self).wf(),
            *final(self) == (ScriptedAgent {
                memory: AgentMemory {
                    visited_positions: final(self).memory.visited_positions,
                    ..old(self).memory
                },
                ..*old(self)
            }),
            r.y == 0,
            r.in_range(COORD_LIMIT as int),
            spec_in_arena_xz(r, state.arena_bounds) || ((state.arena_bounds.x < 2
                || state.arena_bounds.y < 2) && r == Vec3Fx::spec_zero()),
            final(self).memory.visited_positions@ == old(self).memory.visited_positions@
                || (final(self).memory.visited_positions@ == spec_push_visited(
                old(self).memory.visited_positions@,
                r,
            ) && spec_far_from_all(old(self).memory.visited_positions@, r)),
    {
        if state.arena_bounds.x < 2 || state.arena_bounds.y < 2 {
            return Vec3Fx::zero();
        }
        let half_x = ((state.arena_bounds.x as u64) / 2) as i64;
        let half_y = ((state.arena_bounds.y as u64) / 2) as i64;
        let mut attempt: u32 = 0;
        while attempt < EXPLORE_ATTEMPTS
            invariant
                old(self).wf(),
                state.wf(),
                *self == *old(self),
                state.arena_bounds.x >= 2,
                state.arena_bounds.y >= 2,
                half_x == state.arena_bounds.x / 2,
                half_y == state.arena_bounds.y / 2,
                1 <= half_x <= 500_000_000,
                1 <= half_y <= 500_000_000,
            decreases EXPLORE_ATTEMPTS - attempt,
        {
            let x = random_in_range(-half_x, half_x);
            let z = random_in_range(-half_y, half_y);
            let pos = Vec3Fx { x, y: 0, z };
            if self.far_from_visited(pos) {
                if self.memory.visited_positions.len() >= MAX_VISITED {
                    self.memory.visited_positions.remove(0);
                    self.memory.visited_positions.push(pos);
                    proof {
                        assert(self.memory.visited_positions@ =~= spec_push_visited(
                            old(self).memory.visited_positions@,
                            pos,
                        ));
                    }
                } else {
                    self.memory.visited_positions.push(pos);
                }
                return pos;
            }
            attempt = attempt + 1;
        }
        let x = random_in_range(-half_x, half_x);
        let z = random_in_range(-half_y, half_y);
        Vec3Fx { x, y: 0, z }
    }
}

/// The time in state after a decision at `now`: the time since the previous
/// decision is added, saturating, and a clock that ran backwards adds
/// nothing.
pub open spec fn spec_new_duration(sd: u64, last: u64, now: u64) -> u64 {
    let e: int = if now >= last {
        now - last
    } else {
        0
    };
    if sd + e > 0xffff_ffff_ffff_ffff {
        0xffff_ffff_ffff_ffff as u64
    } else {
        (sd + e) as u64
    }
}

/// The waypoint and visited memory stayed as they were.
pub open spec fn spec_explore_unchanged(pre: ScriptedAgent, post: ScriptedAgent) -> bool {
    &&& post.target_position == pre.target_position
    &&& post.memory.visited_positions == pre.memory.visited_positions
}

/// How the exploration waypoint `t` steered for relates to the agent before
/// the decision: an unreached waypoint is kept; otherwise `t` was freshly
/// drawn inside the arena (or is the origin in a degenerate arena), and only
/// a draw far from every remembered position is remembered.
pub open spec fn spec_explore_target_ok(
    pre: ScriptedAgent,
    post: ScriptedAgent,
    s: GameState,
    t: Vec3Fx,
) -> bool {
    if (pre.target_position matches Some(ot) && spec_dist2(ot, s.position)
        >= WAYPOINT_REACHED_DIST2) {
        &&& t == pre.target_position->0
        &&& post.memory.visited_positions == pre.memory.visited_positions
    } else {
        &&& t.y == 0
        &&& (spec_in_arena_xz(t, s.arena_bounds) || ((s.arena_bounds.x < 2 || s.arena_bounds.y
            < 2) && t == Vec3Fx::spec_zero()))
        &&& (post.memory.visited_positions@ == pre.memory.visited_positions@
            || (post.memory.visited_positions@ == spec_push_visited(
            pre.memory.visited_positions@,
            t,
        ) && spec_far_from_all(pre.memory.visited_positions@, t)))
    }
}

/// Everything one decision promises: the clock bookkeeping, the memory fold,
/// the FSM transition, and the action the (possibly new) mode selects.
pub open spec fn spec_decide_post(
    pre: ScriptedAgent,
    post: ScriptedAgent,
    s: GameState,
    now_ms: u64,
    a: AgentAction,
) -> bool {
    let dur = spec_new_duration(pre.state_duration, pre.last_decision_ms, now_ms);
    let mem = spec_mem_after(
        pre.memory.known_allies@,
        pre.memory.known_enemies@,
        pre.team,
        s.nearby_agents@,
    );
    let ns = spec_transition(pre.current_state, dur, pre.behavior, pre.team, s);
    &&& post.current_state == ns
    &&& post.state_duration == (if ns == pre.current_state {
        dur
    } else {
        0
    })
    &&& post.last_decision_ms == now_ms
    &&& post.memory.known_allies@ == mem.0
    &&& post.memory.known_enemies@ == mem.1
    &&& post.memory.last_damage_source == pre.memory.last_damage_source
    &&& post.memory.kill_count == pre.memory.kill_count
    &&& post.memory.death_count == pre.memory.death_count
    &&& post.id == pre.id
    &&& post.name == pre.name
    &&& post.agent_type == pre.agent_type
    &&& post.team == pre.team
    &&& post.behavior == pre.behavior
    &&& post.goals == pre.goals
    &&& match ns {
        AgentState::Idle => a == AgentAction::Wait && spec_explore_unchanged(pre, post),
        AgentState::Dead => a == AgentAction::Wait && spec_explore_unchanged(pre, post),
        AgentState::Defending => a == AgentAction::Defend && spec_explore_unchanged(pre, post),
        AgentState::Fleeing => a == AgentAction::Move(spec_flee_direction(pre.team, s))
            && spec_explore_unchanged(pre, post),
        AgentState::Attacking(t) => a == (if spec_visible_target(
            s.nearby_agents@,
            pre.team,
            t,
        ) is Some {
            AgentAction::Attack(t)
        } else {
            AgentAction::Wait
        }) && spec_explore_unchanged(pre, post),
        AgentState::Chasing(t) => a == (match spec_visible_target(s.nearby_agents@, pre.team, t) {
            Some(i) => AgentAction::Move(
                spec_normalize(
                    spec_sub(s.nearby_agents@[i].position, s.position),
                    CHASE_SPEED as int,
                ),
            ),
            None => AgentAction::Wait,
        }) && spec_explore_unchanged(pre, post),
        AgentState::Exploring => match post.target_position {
            Some(t) => a == AgentAction::Move(
                spec_normalize(spec_sub(t, s.position), EXPLORE_SPEED as int),
            ) && spec_explore_target_ok(pre, post, s, t),
            None => false,
        },
    }
}

impl ScriptedAgent {
    /// One decision: fold the sightings into memory, take the FSM
    /// transition, and act for the resulting mode. Total and panic-free for
    /// every well-formed observation; `now_ms` is the caller's clock.
    pub fn decide(&mut self, state: &GameState, now_ms: u64) -> (a: AgentAction)
        requires
            old(self).wf(),
            state.wf(),
        ensures
            final(self).wf(),
            spec_decide_post(*old(self), *final(self), *state, now_ms, a),
    {
        let elapsed = if now_ms >= self.last_decision_ms {
            now_ms - self.last_decision_ms
        } else {
            0
        };
        self.state_duration = if self.state_duration <= 0xffff_ffff_ffff_ffffu64 - elapsed {
            self.state_duration + elapsed
        } else {
            0xffff_ffff_ffff_ffffu64
        };
        self.last_decision_ms = now_ms;
        self.update_memory(state);
        let new_state = self.transition_state(state);
        if !(new_state == self.current_state) {
            self.current_state = new_state;
            self.state_duration = 0;
        }
        match self.current_state {
            AgentState::Idle => AgentAction::Wait,
            AgentState::Dead => AgentAction::Wait,
            AgentState::Defending => AgentAction::Defend,
            AgentState::Fleeing => {
                let dir = self.calculate_flee_direction(state);
                AgentAction::Move(dir)
            },
            AgentState::Attacking(target) => {
                match self.find_visible_target(&state.nearby_agents, target) {
                    Some(_) => AgentAction::Attack(target),
                    None => AgentAction::Wait,
                }
            },
            AgentState::Chasing(target) => {
                match self.find_visible_target(&state.nearby_agents, target) {
                    Some(i) => {
                        let e = &state.nearby_agents[i];
                        let diff = crate::geom::vec3_sub(e.position, state.position);
                        AgentAction::Move(crate::geom::normalize_to(diff, CHASE_SPEED))
                    },
                    None => AgentAction::Wait,
                }
            },
            AgentState::Exploring => {
                let need_new = match &self.target_position {
                    None => true,
                    Some(t) => crate::geom::dist2(*t, state.position) < WAYPOINT_REACHED_DIST2,
                };
                if need_new {
                    let p = self.generate_explore_position(state);
                    self.target_position = Some(p);
                }
                match &self.target_position {
                    Some(t) => {
                        let diff = crate::geom::vec3_sub(*t, state.position);
                        AgentAction::Move(crate::geom::normalize_to(diff, EXPLORE_SPEED))
                    },
                    None => AgentAction::Wait,
                }
            },
        }
    }

    /// Makes the agent ready: Idle, with the clock aligned to `now_ms`.
    pub fn initialize(&mut self, now_ms: u64) -> (r: Result<(), AgentError>)
        requires
            old(self).wf(),
        ensures
            r is Ok,
            *final(self) == (ScriptedAgent {
                current_state: AgentState::Idle,
                last_decision_ms: now_ms,
                ..*old(self)
            }),
            final(self).wf(),
    {
        self.current_state = AgentState::Idle;
        self.last_decision_ms = now_ms;
        Ok(())
    }

    /// Retires the agent: its mode becomes the terminal Dead.
    pub fn shutdown(&mut self) -> (r: Result<(), AgentError>)
        requires
            old(self).wf(),
        ensures
            r is Ok,
            *final(self) == (ScriptedAgent { current_state: AgentState::Dead, ..*old(self) }),
            final(self).wf(),
    {
        self.current_state = AgentState::Dead;
        Ok(())
    }

    pub fn get_id(&self) -> (r: AgentId)
        ensures
            r == self.id,
    {
        self.id
    }

    pub fn get_name(&self) -> (r: &str)
        ensures
            r@ == self.name@,
    {
        self.name.as_str()
    }

    pub fn get_agent_type(&self) -> (r: &str)
        ensures
            r@ == self.agent_type@,
    {
        self.agent_type.as_str()
    }

    pub fn get_team(&self) -> (r: Option<&str>)
        ensures
            match r {
                Some(t) => self.team matches Some(mt) && t@ == mt@,
                None => self.team is None,
            },
    {
        match &self.team {
            Some(s) => Some(s.as_str()),
            None => None,
        }
    }
}



} // verus!
