//! The observation/action data model: the per-tick snapshot an agent sees,
//! the closed set of actions it may answer with, and the error taxonomy.

use vstd::prelude::*;
use crate::geom::{Vec2Fx, Vec3Fx, COORD_LIMIT};

verus! {

/// A process-unique 128-bit agent identifier.
pub type AgentId = u128;

/// What an agent knows of another agent it can currently see.
#[derive(Clone, Debug)]
pub struct AgentInfo {
    pub id: AgentId,
    pub position: Vec3Fx,
    /// Fixed-point health (one health point is `MILLI` steps).
    pub health: i64,
    /// The team label, if the agent fights for a team. Absence is not a label.
    pub team: Option<String>,
    /// Fixed-point distance from the observer, non-negative.
    pub distance: i64,
}

/// A world object an agent can currently see.
#[derive(Clone, Debug)]
pub struct ObjectInfo {
    pub id: AgentId,
    pub position: Vec3Fx,
    pub object_type: String,
    pub distance: i64,
}

/// The read-only snapshot of the world handed to an agent once per tick.
#[derive(Clone, Debug)]
pub struct GameState {
    pub agent_id: AgentId,
    pub position: Vec3Fx,
    /// Fixed-point health; the scripted rules read it against a nominal
    /// maximum of 100 points.
    pub health: i64,
    pub energy: i64,
    /// Other visible agents; never contains the observing agent itself.
    pub nearby_agents: Vec<AgentInfo>,
    pub nearby_objects: Vec<ObjectInfo>,
    /// The arena's side lengths; the arena is centered at the origin.
    pub arena_bounds: Vec2Fx,
    pub current_tick: u64,
    /// Remaining match time in milliseconds.
    pub time_remaining_ms: i64,
}

/// The single decision an agent produces per tick.
#[derive(Clone, Debug, PartialEq)]
pub enum AgentAction {
    /// Move along the given fixed-point direction vector.
    Move(Vec3Fx),
    /// Attack the agent with the given identifier.
    Attack(AgentId),
    /// Use the named item.
    UseItem(String),
    /// Broadcast the given message.
    Communicate(String),
    Wait,
    Defend,
}

/// Why a decision step or lifecycle call failed.
#[derive(Clone, Copy, Debug, PartialEq, Eq, Structural)]
pub enum AgentError {
    /// The remote service could not be reached.
    Transport,
    /// The remote service answered with a non-success status.
    Service,
    /// A reply did not match the recognized action grammar.
    Parse,
    /// No reply arrived within the configured window.
    Timeout,
    /// Invalid construction parameters.
    Config,
}

/// Two optional team labels mark allies exactly when both are present and
/// equal: an absent label never allies with another absent label.
pub open spec fn spec_is_ally(mine: Option<String>, theirs: Option<String>) -> bool {
    match (mine, theirs) {
        (Some(a), Some(b)) => a@ == b@,
        _ => false,
    }
}

/// An agent is hostile when its label differs from the observer's; two
/// absent labels do not differ, so such agents are neither allies nor
/// targets.
pub open spec fn spec_is_enemy(mine: Option<String>, theirs: Option<String>) -> bool {
    match (mine, theirs) {
        (Some(a), Some(b)) => a@ != b@,
        (None, None) => false,
        _ => true,
    }
}

pub fn is_ally(mine: &Option<String>, theirs: &Option<String>) -> (r: bool)
    ensures
        r == spec_is_ally(*mine, *theirs),
{
    match (mine, theirs) {
        (Some(a), Some(b)) => a.eq(b),
        _ => false,
    }
}

pub fn is_enemy(mine: &Option<String>, theirs: &Option<String>) -> (r: bool)
    ensures
        r == spec_is_enemy(*mine, *theirs),
{
    match (mine, theirs) {
        (Some(a), Some(b)) => !a.eq(b),
        (None, None) => false,
        _ => true,
    }
}

/// The smaller of two values.
pub open spec fn spec_min_int(a: int, b: int) -> int {
    if a < b {
        a
    } else {
        b
    }
}

/// `a + b`, stopping at the type's ceiling.
pub open spec fn spec_sat_add_u32(a: u32, b: u32) -> u32 {
    if a + b > 0xffff_ffff {
        0xffff_ffff as u32
    } else {
        (a + b) as u32
    }
}

/// `a + b`, stopping at the type's ceiling.
pub open spec fn spec_sat_add_u64(a: u64, b: u64) -> u64 {
    if a + b > 0xffff_ffff_ffff_ffff {
        0xffff_ffff_ffff_ffff as u64
    } else {
        (a + b) as u64
    }
}

/// An owned copy of an action.
pub fn clone_action(a: &AgentAction) -> (r: AgentAction)
    ensures
        r == *a,
{
    match a {
        AgentAction::Move(v) => AgentAction::Move(*v),
        AgentAction::Attack(id) => AgentAction::Attack(*id),
        AgentAction::UseItem(s) => AgentAction::UseItem(s.clone()),
        AgentAction::Communicate(s) => AgentAction::Communicate(s.clone()),
        AgentAction::Wait => AgentAction::Wait,
        AgentAction::Defend => AgentAction::Defend,
    }
}

impl AgentInfo {
    /// The geometry and scalars stay within the fixed-point budget.
    pub open spec fn wf(self) -> bool {
        &&& self.position.in_range(COORD_LIMIT as int)
        &&& 0 <= self.distance <= COORD_LIMIT
        &&& -COORD_LIMIT <= self.health <= COORD_LIMIT
    }
}

impl GameState {
    /// The observation's scalars stay within the fixed-point budget, so the
    /// decision rules are free of overflow. The bound on the agent list is a
    /// machine limit for the flee-vector summation.
    pub open spec fn wf(self) -> bool {
        &&& self.position.in_range(COORD_LIMIT as int)
        &&& -COORD_LIMIT <= self.health <= COORD_LIMIT
        &&& -COORD_LIMIT <= self.energy <= COORD_LIMIT
        &&& 0 <= self.arena_bounds.x <= COORD_LIMIT
        &&& 0 <= self.arena_bounds.y <= COORD_LIMIT
        &&& -COORD_LIMIT <= self.time_remaining_ms <= COORD_LIMIT
        &&& self.nearby_agents@.len() <= 100_000
        &&& forall|i: int| 0 <= i < self.nearby_agents@.len()
            ==> (#[trigger] self.nearby_agents@[i]).wf()
    }
}

} // verus!
