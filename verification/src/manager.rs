//! The agent manager: the sole owner of every registered agent instance, the
//! ordered set of currently active agent ids, and the respawn queue. Every
//! id in the active list has an entry in the registry; removing an agent
//! leaves both consistent.

use vstd::prelude::*;
use crate::model::{AgentError, AgentId};
use crate::remote::LLMAgent;
use crate::scripted::{AgentState, ScriptedAgent};

verus! {

/// One registered agent, of either decision engine.
pub enum AgentInstance {
    Scripted(ScriptedAgent),
    Remote(LLMAgent),
}

impl AgentInstance {
    pub open spec fn wf(self) -> bool {
        match self {
            AgentInstance::Scripted(a) => a.wf(),
            AgentInstance::Remote(a) => a.wf(),
        }
    }

    /// The instance's process-unique identifier.
    pub open spec fn spec_id(self) -> AgentId {
        match self {
            AgentInstance::Scripted(a) => a.id,
            AgentInstance::Remote(a) => a.id,
        }
    }

    /// The instance after its lifecycle start: a scripted agent becomes Idle
    /// with its clock aligned; a remote agent is unchanged (its liveness
    /// probe is the caller's best-effort concern).
    pub open spec fn spec_initialized(self, now_ms: u64) -> AgentInstance {
        match self {
            AgentInstance::Scripted(a) => AgentInstance::Scripted(
                ScriptedAgent {
                    current_state: AgentState::Idle,
                    last_decision_ms: now_ms,
                    ..a
                },
            ),
            AgentInstance::Remote(a) => AgentInstance::Remote(a),
        }
    }

    /// The instance after its lifecycle end: a scripted agent becomes Dead;
    /// a remote agent keeps its final statistics readable.
    pub open spec fn spec_shut_down(self) -> AgentInstance {
        match self {
            AgentInstance::Scripted(a) => AgentInstance::Scripted(
                ScriptedAgent { current_state: AgentState::Dead, ..a },
            ),
            AgentInstance::Remote(a) => AgentInstance::Remote(a),
        }
    }

    pub fn get_id(&self) -> (r: AgentId)
        ensures
            r == self.spec_id(),
    {
        match self {
            AgentInstance::Scripted(a) => a.get_id(),
            AgentInstance::Remote(a) => a.get_id(),
        }
    }

    /// Starts the instance's lifecycle; never fails.
    pub fn initialize(&mut self, now_ms: u64) -> (r: Result<(), AgentError>)
        requires
            old(self).wf(),
        ensures
            r is Ok,
            *final(self) == old(self).spec_initialized(now_ms),
            final(self).wf(),
            final(self).spec_id() == old(self).spec_id(),
    {
        match self {
            AgentInstance::Scripted(a) => a.initialize(now_ms),
            AgentInstance::Remote(a) => a.initialize(),
        }
    }

    /// Ends the instance's lifecycle; never fails.
    pub fn shutdown(&mut self) -> (r: Result<(), AgentError>)
        requires
            old(self).wf(),
        ensures
            r is Ok,
            *final(self) == old(self).spec_shut_down(),
            final(self).wf(),
            final(self).spec_id() == old(self).spec_id(),
    {
        match self {
            AgentInstance::Scripted(a) => a.shutdown(),
            AgentInstance::Remote(a) => a.shutdown(),
        }
    }
}

/// Some registry entry carries the id.
pub open spec fn mgr_has_id(s: Seq<AgentInstance>, id: AgentId) -> bool {
    exists|i: int| 0 <= i < s.len() && (#[trigger] s[i]).spec_id() == id
}

/// The index of the registry entry carrying the id (unique under
/// `mgr_unique_ids`).
pub open spec fn mgr_idx_of(s: Seq<AgentInstance>, id: AgentId) -> int {
    choose|i: int| 0 <= i < s.len() && (#[trigger] s[i]).spec_id() == id
}

/// No two registry entries share an id.
pub open spec fn mgr_unique_ids(s: Seq<AgentInstance>) -> bool {
    forall|i: int, j: int|
        0 <= i < j < s.len() ==> (#[trigger] s[i]).spec_id() != (#[trigger] s[j]).spec_id()
}

/// The registry with the entry for the agent's id replaced by it, or with
/// the agent appended: an id collision overwrites.
pub open spec fn spec_mgr_upsert(s: Seq<AgentInstance>, a: AgentInstance) -> Seq<AgentInstance> {
    if mgr_has_id(s, a.spec_id()) {
        s.update(mgr_idx_of(s, a.spec_id()), a)
    } else {
        s.push(a)
    }
}

/// The manager.
pub struct AgentManager {
    /// The registry: every instance the manager owns, one entry per id.
    pub agents: Vec<AgentInstance>,
    /// The ids currently taking part in ticks, insertion order, no
    /// duplicates.
    pub active_agents: Vec<AgentId>,
    /// Agents waiting to re-enter, with their scheduled times in
    /// milliseconds.
    pub respawn_queue: Vec<(AgentId, u64)>,
}

impl AgentManager {
    pub open spec fn wf(self) -> bool {
        &&& mgr_unique_ids(self.agents@)
        &&& (forall|i: int|
            0 <= i < self.agents@.len() ==> (#[trigger] self.agents@[i]).wf())
        &&& (forall|i: int|
            0 <= i < self.active_agents@.len() ==> mgr_has_id(
                self.agents@,
                #[trigger] self.active_agents@[i],
            ))
        &&& (forall|i: int, j: int|
            0 <= i < j < self.active_agents@.len() ==> (#[trigger] self.active_agents@[i])
                != (#[trigger] self.active_agents@[j]))
    }

    /// An empty manager.
    pub fn new() -> (r: AgentManager)
        ensures
            r.agents@.len() == 0,
            r.active_agents@.len() == 0,
            r.respawn_queue@.len() == 0,
            r.wf(),
    {
        AgentManager { agents: Vec::new(), active_agents: Vec::new(), respawn_queue: Vec::new() }
    }

    /// Registers and activates an agent; a colliding id overwrites the old
    /// instance, and activation is idempotent.
    pub fn add_agent(&mut self, agent: AgentInstance) -> (r: Result<(), AgentError>)
        requires
            old(self).wf(),
            agent.wf(),
        ensures
            r is Ok,
            final(self).wf(),
            final(self).agents@ == spec_mgr_upsert(old(self).agents@, agent),
            final(self).active_agents@ == (if old(self).active_agents@.contains(agent.spec_id()) {
                old(self).active_agents@
            } else {
                old(self).active_agents@.push(agent.spec_id())
            }),
            final(self).respawn_queue == old(self).respawn_queue,
    {
        let agent_id = agent.get_id();
        let mut i: usize = 0;
        while i < self.agents.len()
            invariant
                old(self).wf(),
                agent.wf(),
                agent_id == agent.spec_id(),
                0 <= i <= self.agents@.len(),
                *self == *old(self),
                forall|k: int| 0 <= k < i ==> (#[trigger] self.agents@[k]).spec_id() != agent_id,
            decreases self.agents@.len() - i,
        {
            if self.agents[i].get_id() == agent_id {
                proof {
                    assert(mgr_has_id(self.agents@, agent_id));
                    let k = mgr_idx_of(self.agents@, agent_id);
                    if k != i as int {
                        assert(self.agents@[k].spec_id() == self.agents@[i as int].spec_id());
                        assert(false);
                    }
                }
                let slot = &mut self.agents[i];
                *slot = agent;
                proof {
                    assert(mgr_unique_ids(self.agents@));
                    assert(self.agents@[i as int].spec_id() == agent_id);
                    assert(mgr_has_id(self.agents@, agent_id));
                    assert forall|k: int| 0 <= k < self.active_agents@.len() implies mgr_has_id(
                        self.agents@,
                        #[trigger] self.active_agents@[k],
                    ) by {
                        let m = mgr_idx_of(old(self).agents@, self.active_agents@[k]);
                        assert(old(self).agents@[m].spec_id() == self.active_agents@[k]);
                        if m == i as int {
                            assert(self.agents@[m].spec_id() == agent_id);
                        } else {
                            assert(self.agents@[m].spec_id() == self.active_agents@[k]);
                        }
                    }
                }
                return self.finish_add(agent_id);
            }
            i = i + 1;
        }
        proof {
            if mgr_has_id(self.agents@, agent_id) {
                let k = choose|k: int|
                    0 <= k < self.agents@.len() && (#[trigger] self.agents@[k]).spec_id()
                        == agent_id;
                assert(self.agents@[k].spec_id() != agent_id);
            }
        }
        self.agents.push(agent);
        proof {
            assert forall|p: int, q: int| 0 <= p < q < self.agents@.len() implies
                (#[trigger] self.agents@[p]).spec_id()
                    != (#[trigger] self.agents@[q]).spec_id() by {
                if q == self.agents@.len() - 1 {
                    assert(old(self).agents@[p].spec_id() != agent_id);
                }
            }
            assert(self.agents@[self.agents@.len() - 1].spec_id() == agent_id);
            assert(mgr_has_id(self.agents@, agent_id));
            assert forall|k: int| 0 <= k < self.active_agents@.len() implies mgr_has_id(
                self.agents@,
                #[trigger] self.active_agents@[k],
            ) by {
                let m = mgr_idx_of(old(self).agents@, self.active_agents@[k]);
                assert(old(self).agents@[m].spec_id() == self.active_agents@[k]);
                assert(self.agents@[m].spec_id() == self.active_agents@[k]);
            }
        }
        self.finish_add(agent_id)
    }

    /// Activates the id unless it is already active. Helper of `add_agent`,
    /// called once the registry holds the id.
    fn finish_add(&mut self, agent_id: AgentId) -> (r: Result<(), AgentError>)
        requires
            mgr_has_id(old(self).agents@, agent_id),
            mgr_unique_ids(old(self).agents@),
            forall|i: int|
                0 <= i < old(self).agents@.len() ==> (#[trigger] old(self).agents@[i]).wf(),
            forall|i: int|
                0 <= i < old(self).active_agents@.len() ==> mgr_has_id(
                    old(self).agents@,
                    #[trigger] old(self).active_agents@[i],
                ),
            forall|i: int, j: int|
                0 <= i < j < old(self).active_agents@.len() ==> (#[trigger] old(
                    self,
                ).active_agents@[i]) != (#[trigger] old(self).active_agents@[j]),
        ensures
            r is Ok,
            final(self).wf(),
            final(self).agents == old(self).agents,
            final(self).respawn_queue == old(self).respawn_queue,
            final(self).active_agents@ == (if old(self).active_agents@.contains(agent_id) {
                old(self).active_agents@
            } else {
                old(self).active_agents@.push(agent_id)
            }),
    {
        if !self.id_is_active(agent_id) {
            self.active_agents.push(agent_id);
            proof {
                assert forall|p: int, q: int| 0 <= p < q < self.active_agents@.len() implies
                    (#[trigger] self.active_agents@[p])
                        != (#[trigger] self.active_agents@[q]) by {
                    if q == self.active_agents@.len() - 1 {
                        assert(!old(self).active_agents@.contains(agent_id));
                        assert(old(self).active_agents@[p] != agent_id);
                    }
                }
            }
        }
        Ok(())
    }

    /// Whether the id is in the active list.
    fn id_is_active(&self, agent_id: AgentId) -> (r: bool)
        ensures
            r == self.active_agents@.contains(agent_id),
    {
        let mut i: usize = 0;
        while i < self.active_agents.len()
            invariant
                0 <= i <= self.active_agents@.len(),
                forall|k: int| 0 <= k < i ==> self.active_agents@[k] != agent_id,
            decreases self.active_agents@.len() - i,
        {
            if self.active_agents[i] == agent_id {
                return true;
            }
            i = i + 1;
        }
        proof {
            if self.active_agents@.contains(agent_id) {
                let k = choose|k: int|
                    0 <= k < self.active_agents@.len() && self.active_agents@[k] == agent_id;
                assert(self.active_agents@[k] != agent_id);
            }
        }
        false
    }

    /// Hands the instance back and deactivates the id; removing an absent id
    /// returns nothing and changes nothing.
    pub fn remove_agent(&mut self, agent_id: &AgentId) -> (r: Option<AgentInstance>)
        requires
            old(self).wf(),
        ensures
            final(self).wf(),
            final(self).respawn_queue == old(self).respawn_queue,
            match r {
                Some(a) => {
                    &&& mgr_has_id(old(self).agents@, *agent_id)
                    &&& a == old(self).agents@[mgr_idx_of(old(self).agents@, *agent_id)]
                    &&& final(self).agents@ == old(self).agents@.remove(
                        mgr_idx_of(old(self).agents@, *agent_id),
                    )
                },
                None => {
                    &&& !mgr_has_id(old(self).agents@, *agent_id)
                    &&& final(self).agents == old(self).agents
                },
            },
            final(self).active_agents@ == old(self).active_agents@.filter(
                |x: AgentId| x != *agent_id,
            ),
    {
        self.deactivate_agent(agent_id);
        let mut i: usize = 0;
        while i < self.agents.len()
            invariant
                old(self).wf(),
                self.wf(),
                self.agents == old(self).agents,
                self.respawn_queue == old(self).respawn_queue,
                self.active_agents@ == old(self).active_agents@.filter(
                    |x: AgentId| x != *agent_id,
                ),
                0 <= i <= self.agents@.len(),
                forall|k: int| 0 <= k < i ==> (#[trigger] self.agents@[k]).spec_id() != *agent_id,
            decreases self.agents@.len() - i,
        {
            if self.agents[i].get_id() == *agent_id {
                proof {
                    assert(mgr_has_id(self.agents@, *agent_id));
                    let k = mgr_idx_of(self.agents@, *agent_id);
                    if k != i as int {
                        assert(self.agents@[k].spec_id() == self.agents@[i as int].spec_id());
                        assert(false);
                    }
                }
                let a = self.agents.remove(i);
                proof {
                    assert forall|p: int, q: int| 0 <= p < q < self.agents@.len() implies
                        (#[trigger] self.agents@[p]).spec_id()
                            != (#[trigger] self.agents@[q]).spec_id() by {
                        let op = if p < i as int {
                            p
                        } else {
                            p + 1
                        };
                        let oq = if q < i as int {
                            q
                        } else {
                            q + 1
                        };
                        assert(old(self).agents@[op].spec_id()
                            != old(self).agents@[oq].spec_id());
                    }
                    assert forall|k: int| 0 <= k < self.active_agents@.len() implies mgr_has_id(
                        self.agents@,
                        #[trigger] self.active_agents@[k],
                    ) by {
                        let x = self.active_agents@[k];
                        assert(old(self).active_agents@.filter(
                            |y: AgentId| y != *agent_id,
                        ).contains(x));
                        lemma_filter_active_member(old(self).active_agents@, *agent_id, x);
                        let w = choose|w: int|
                            0 <= w < old(self).active_agents@.len() && old(
                                self,
                            ).active_agents@[w] == x;
                        assert(mgr_has_id(old(self).agents@, x));
                        let m = mgr_idx_of(old(self).agents@, x);
                        assert(old(self).agents@[m].spec_id() == x);
                        if m < i as int {
                            assert(self.agents@[m].spec_id() == x);
                        } else {
                            assert(m != i as int);
                            assert(self.agents@[m - 1].spec_id() == x);
                        }
                    }
                }
                return Some(a);
            }
            i = i + 1;
        }
        proof {
            if mgr_has_id(self.agents@, *agent_id) {
                let k = choose|k: int|
                    0 <= k < self.agents@.len() && (#[trigger] self.agents@[k]).spec_id()
                        == *agent_id;
                assert(self.agents@[k].spec_id() != *agent_id);
            }
            assert(!old(self).active_agents@.contains(*agent_id)) by {
                if old(self).active_agents@.contains(*agent_id) {
                    let w = choose|w: int|
                        0 <= w < old(self).active_agents@.len() && old(self).active_agents@[w]
                            == *agent_id;
                    assert(mgr_has_id(old(self).agents@, old(self).active_agents@[w]));
                    let m = mgr_idx_of(old(self).agents@, *agent_id);
                    assert(old(self).agents@[m].spec_id() == *agent_id);
                }
            }
            lemma_filter_no_member(old(self).active_agents@, *agent_id);
        }
        None
    }

    /// A view of the registered instance, if any.
    pub fn get_agent(&self, agent_id: &AgentId) -> (r: Option<&AgentInstance>)
        requires
            self.wf(),
        ensures
            match r {
                Some(a) => mgr_has_id(self.agents@, *agent_id) && *a == self.agents@[
                    mgr_idx_of(self.agents@, *agent_id)
                ],
                None => !mgr_has_id(self.agents@, *agent_id),
            },
    {
        let mut i: usize = 0;
        while i < self.agents.len()
            invariant
                self.wf(),
                0 <= i <= self.agents@.len(),
                forall|k: int| 0 <= k < i ==> (#[trigger] self.agents@[k]).spec_id() != *agent_id,
            decreases self.agents@.len() - i,
        {
            if self.agents[i].get_id() == *agent_id {
                proof {
                    assert(mgr_has_id(self.agents@, *agent_id));
                    let k = mgr_idx_of(self.agents@, *agent_id);
                    if k != i as int {
                        assert(self.agents@[k].spec_id() == self.agents@[i as int].spec_id());
                        assert(false);
                    }
                }
                return Some(&self.agents[i]);
            }
            i = i + 1;
        }
        proof {
            if mgr_has_id(self.agents@, *agent_id) {
                let k = choose|k: int|
                    0 <= k < self.agents@.len() && (#[trigger] self.agents@[k]).spec_id()
                        == *agent_id;
                assert(self.agents@[k].spec_id() != *agent_id);
            }
        }
        None
    }

    /// An exclusive borrow of the registered instance, if any: the registry
    /// afterwards holds whatever the caller leaves behind the borrow, and
    /// nothing else moves.
    pub fn get_agent_mut(&mut self, agent_id: &AgentId) -> (r: Option<&mut AgentInstance>)
        requires
            old(self).wf(),
        ensures
            match r {
                Some(a) => {
                    &&& mgr_has_id(old(self).agents@, *agent_id)
                    &&& *a == old(self).agents@[mgr_idx_of(old(self).agents@, *agent_id)]
                    &&& final(self).agents@ == old(self).agents@.update(
                        mgr_idx_of(old(self).agents@, *agent_id),
                        *final(a),
                    )
                    &&& final(self).active_agents == old(self).active_agents
                    &&& final(self).respawn_queue == old(self).respawn_queue
                },
                None => {
                    &&& !mgr_has_id(old(self).agents@, *agent_id)
                    &&& *final(self) == *old(self)
                },
            },
    {
        let mut i: usize = 0;
        while i < self.agents.len()
            invariant
                old(self).wf(),
                *self == *old(self),
                0 <= i <= self.agents@.len(),
                forall|k: int| 0 <= k < i ==> (#[trigger] self.agents@[k]).spec_id() != *agent_id,
            decreases self.agents@.len() - i,
        {
            if self.agents[i].get_id() == *agent_id {
                proof {
                    assert(mgr_has_id(self.agents@, *agent_id));
                    let k = mgr_idx_of(self.agents@, *agent_id);
                    if k != i as int {
                        assert(self.agents@[k].spec_id() == self.agents@[i as int].spec_id());
                        assert(false);
                    }
                }
                return Some(&mut self.agents[i]);
            }
            i = i + 1;
        }
        proof {
            if mgr_has_id(self.agents@, *agent_id) {
                let k = choose|k: int|
                    0 <= k < self.agents@.len() && (#[trigger] self.agents@[k]).spec_id()
                        == *agent_id;
                assert(self.agents@[k].spec_id() != *agent_id);
            }
        }
        None
    }

    /// The currently active ids, in activation order.
    pub fn get_active_agents(&self) -> (r: &Vec<AgentId>)
        ensures
            r == &self.active_agents,
    {
        &self.active_agents
    }

    /// How many agents are active.
    pub fn get_agent_count(&self) -> (r: usize)
        ensures
            r == self.active_agents@.len(),
    {
        self.active_agents.len()
    }

    /// Whether the id is active.
    pub fn is_agent_active(&self, agent_id: &AgentId) -> (r: bool)
        ensures
            r == self.active_agents@.contains(*agent_id),
    {
        self.id_is_active(*agent_id)
    }

    /// Takes the id out of the active list without destroying the instance;
    /// deactivating twice changes nothing more.
    pub fn deactivate_agent(&mut self, agent_id: &AgentId)
        requires
            old(self).wf(),
        ensures
            final(self).wf(),
            final(self).active_agents@ == old(self).active_agents@.filter(
                |x: AgentId| x != *agent_id,
            ),
            final(self).agents == old(self).agents,
            final(self).respawn_queue == old(self).respawn_queue,
    {
        let ghost pred = |x: AgentId| x != *agent_id;
        let mut kept: Vec<AgentId> = Vec::new();
        let mut i: usize = 0;
        proof {
            assert(self.active_agents@.take(0).filter(pred) =~= Seq::<AgentId>::empty());
        }
        while i < self.active_agents.len()
            invariant
                old(self).wf(),
                *self == *old(self),
                0 <= i <= self.active_agents@.len(),
                kept@ == self.active_agents@.take(i as int).filter(pred),
                pred == (|x: AgentId| x != *agent_id),
            decreases self.active_agents@.len() - i,
        {
            proof {
                reveal(Seq::filter);
                assert(self.active_agents@.take(i + 1).drop_last() =~= self.active_agents@.take(
                    i as int,
                ));
                assert(self.active_agents@.take(i + 1).last() == self.active_agents@[i as int]);
            }
            let x = self.active_agents[i];
            if x != *agent_id {
                kept.push(x);
            }
            i = i + 1;
        }
        proof {
            assert(self.active_agents@.take(self.active_agents@.len() as int)
                =~= self.active_agents@);
            lemma_filter_active(old(self).active_agents@, *agent_id);
            assert forall|k: int| 0 <= k < kept@.len() implies mgr_has_id(
                self.agents@,
                #[trigger] kept@[k],
            ) by {
                assert(kept@.contains(kept@[k]));
                lemma_filter_active_member(old(self).active_agents@, *agent_id, kept@[k]);
                let m = choose|m: int|
                    0 <= m < old(self).active_agents@.len() && old(self).active_agents@[m]
                        == kept@[k];
                assert(mgr_has_id(self.agents@, old(self).active_agents@[m]));
            }
        }
        self.active_agents = kept;
    }

    /// Puts a registered id back into the active list; activating an
    /// unregistered or already active id changes nothing.
    pub fn activate_agent(&mut self, agent_id: &AgentId)
        requires
            old(self).wf(),
        ensures
            final(self).wf(),
            final(self).agents == old(self).agents,
            final(self).respawn_queue == old(self).respawn_queue,
            final(self).active_agents@ == (if mgr_has_id(old(self).agents@, *agent_id) && !old(
                self,
            ).active_agents@.contains(*agent_id) {
                old(self).active_agents@.push(*agent_id)
            } else {
                old(self).active_agents@
            }),
    {
        let registered = match self.get_agent(agent_id) {
            Some(_) => true,
            None => false,
        };
        if registered && !self.id_is_active(*agent_id) {
            self.active_agents.push(*agent_id);
            proof {
                assert forall|p: int, q: int| 0 <= p < q < self.active_agents@.len() implies
                    (#[trigger] self.active_agents@[p])
                        != (#[trigger] self.active_agents@[q]) by {
                    if q == self.active_agents@.len() - 1 {
                        assert(old(self).active_agents@[p] != *agent_id);
                    }
                }
            }
        }
    }

    /// Drops every instance, every active id, and every pending respawn.
    pub fn clear_all(&mut self)
        ensures
            final(self).agents@.len() == 0,
            final(self).active_agents@.len() == 0,
            final(self).respawn_queue@.len() == 0,
            final(self).wf(),
    {
        self.agents.clear();
        self.active_agents.clear();
        self.respawn_queue.clear();
    }

    /// Starts every registered instance's lifecycle; no verified instance
    /// can fail, so the batch reports the first error only vacuously.
    pub fn initialize_all_agents(&mut self, now_ms: u64) -> (r: Result<(), AgentError>)
        requires
            old(self).wf(),
        ensures
            r is Ok,
            final(self).wf(),
            final(self).agents@.len() == old(self).agents@.len(),
            forall|i: int|
                0 <= i < old(self).agents@.len() ==> final(self).agents@[i] == (#[trigger] old(
                    self,
                ).agents@[i]).spec_initialized(now_ms),
            final(self).active_agents == old(self).active_agents,
            final(self).respawn_queue == old(self).respawn_queue,
    {
        let mut i: usize = 0;
        while i < self.agents.len()
            invariant
                old(self).wf(),
                self.agents@.len() == old(self).agents@.len(),
                0 <= i <= self.agents@.len(),
                forall|k: int|
                    0 <= k < i ==> self.agents@[k] == (#[trigger] old(
                        self,
                    ).agents@[k]).spec_initialized(now_ms),
                forall|k: int|
                    i <= k < self.agents@.len() ==> self.agents@[k] == #[trigger] old(
                        self,
                    ).agents@[k],
                self.active_agents == old(self).active_agents,
                self.respawn_queue == old(self).respawn_queue,
            decreases self.agents@.len() - i,
        {
            proof {
                assert(self.agents@[i as int] == old(self).agents@[i as int]);
                assert(old(self).agents@[i as int].wf());
            }
            let a = &mut self.agents[i];
            let res = a.initialize(now_ms);
            proof {
                assert(res is Ok);
            }
            i = i + 1;
        }
        proof {
            lemma_init_keeps_manager_wf(old(self).agents@, self.agents@, now_ms);
            assert forall|k: int| 0 <= k < self.active_agents@.len() implies mgr_has_id(
                self.agents@,
                #[trigger] self.active_agents@[k],
            ) by {
                let m = mgr_idx_of(old(self).agents@, self.active_agents@[k]);
                assert(old(self).agents@[m].spec_id() == self.active_agents@[k]);
                assert(self.agents@[m].spec_id() == self.active_agents@[k]);
            }
        }
        Ok(())
    }

    /// Ends every registered instance's lifecycle; no verified instance can
    /// fail.
    pub fn shutdown_all_agents(&mut self) -> (r: Result<(), AgentError>)
        requires
            old(self).wf(),
        ensures
            r is Ok,
            final(self).wf(),
            final(self).agents@.len() == old(self).agents@.len(),
            forall|i: int|
                0 <= i < old(self).agents@.len() ==> final(self).agents@[i] == (#[trigger] old(
                    self,
                ).agents@[i]).spec_shut_down(),
            final(self).active_agents == old(self).active_agents,
            final(self).respawn_queue == old(self).respawn_queue,
    {
        let mut i: usize = 0;
        while i < self.agents.len()
            invariant
                old(self).wf(),
                self.agents@.len() == old(self).agents@.len(),
                0 <= i <= self.agents@.len(),
                forall|k: int|
                    0 <= k < i ==> self.agents@[k] == (#[trigger] old(
                        self,
                    ).agents@[k]).spec_shut_down(),
                forall|k: int|
                    i <= k < self.agents@.len() ==> self.agents@[k] == #[trigger] old(
                        self,
                    ).agents@[k],
                self.active_agents == old(self).active_agents,
                self.respawn_queue == old(self).respawn_queue,
            decreases self.agents@.len() - i,
        {
            proof {
                assert(self.agents@[i as int] == old(self).agents@[i as int]);
                assert(old(self).agents@[i as int].wf());
            }
            let a = &mut self.agents[i];
            let res = a.shutdown();
            proof {
                assert(res is Ok);
            }
            i = i + 1;
        }
        proof {
            lemma_shutdown_keeps_manager_wf(old(self).agents@, self.agents@);
            assert forall|k: int| 0 <= k < self.active_agents@.len() implies mgr_has_id(
                self.agents@,
                #[trigger] self.active_agents@[k],
            ) by {
                let m = mgr_idx_of(old(self).agents@, self.active_agents@[k]);
                assert(old(self).agents@[m].spec_id() == self.active_agents@[k]);
                assert(self.agents@[m].spec_id() == self.active_agents@[k]);
            }
        }
        Ok(())
    }
}

impl Default for AgentManager {
    fn default() -> (r: AgentManager)
        ensures
            r.agents@.len() == 0,
            r.active_agents@.len() == 0,
            r.respawn_queue@.len() == 0,
            r.wf(),
    {
        AgentManager::new()
    }
}

/// A member of the filtered active list was a member of the original and is
/// not the removed id.
proof fn lemma_filter_active_member(s: Seq<AgentId>, removed: AgentId, x: AgentId)
    requires
        s.filter(|y: AgentId| y != removed).contains(x),
    ensures
        s.contains(x),
        x != removed,
    decreases s.len(),
{
    reveal(Seq::filter);
    let pred = |y: AgentId| y != removed;
    if s.len() > 0 {
        let f = s.filter(pred);
        if pred(s.last()) && f.len() > 0 && f.last() == x && s.last() == x {
            assert(s[s.len() - 1] == x);
        } else {
            let fi = choose|fi: int| 0 <= fi < f.len() && f[fi] == x;
            if pred(s.last()) && fi == f.len() - 1 {
                assert(s[s.len() - 1] == x);
            } else {
                assert(s.drop_last().filter(pred).contains(x));
                lemma_filter_active_member(s.drop_last(), removed, x);
                let j = choose|j: int| 0 <= j < s.drop_last().len() && s.drop_last()[j] == x;
                assert(s[j] == x);
            }
        }
    }
}

/// Filtering an id out of a list that never held it changes nothing.
proof fn lemma_filter_no_member(s: Seq<AgentId>, removed: AgentId)
    requires
        !s.contains(removed),
    ensures
        s.filter(|y: AgentId| y != removed) == s,
    decreases s.len(),
{
    reveal(Seq::filter);
    let pred = |y: AgentId| y != removed;
    if s.len() > 0 {
        assert(!s.drop_last().contains(removed)) by {
            if s.drop_last().contains(removed) {
                let j = choose|j: int| 0 <= j < s.drop_last().len() && s.drop_last()[j] == removed;
                assert(s[j] == removed);
            }
        }
        lemma_filter_no_member(s.drop_last(), removed);
        assert(s[s.len() - 1] == s.last());
        assert(pred(s.last()));
        assert(s.filter(pred) =~= s);
    } else {
        assert(s.filter(pred) =~= s);
    }
}

/// Pairwise-distinct ids.
pub open spec fn seq_distinct(s: Seq<AgentId>) -> bool {
    forall|i: int, j: int| 0 <= i < j < s.len() ==> s[i] != s[j]
}

/// Filtering keeps the remaining active ids distinct.
proof fn lemma_filter_active(s: Seq<AgentId>, removed: AgentId)
    requires
        seq_distinct(s),
    ensures
        seq_distinct(s.filter(|y: AgentId| y != removed)),
    decreases s.len(),
{
    reveal(Seq::filter);
    let pred = |y: AgentId| y != removed;
    if s.len() > 0 {
        assert(seq_distinct(s.drop_last()));
        lemma_filter_active(s.drop_last(), removed);
        if pred(s.last()) {
            let f = s.filter(pred);
            assert(f == s.drop_last().filter(pred).push(s.last()));
            assert forall|i: int, j: int| 0 <= i < j < f.len() implies f[i] != f[j] by {
                if j == f.len() - 1 {
                    if f[i] == s.last() {
                        assert(s.drop_last().filter(pred).contains(f[i]));
                        lemma_filter_active_member(s.drop_last(), removed, f[i]);
                        let m = choose|m: int|
                            0 <= m < s.drop_last().len() && s.drop_last()[m] == f[i];
                        assert(s[m] == s[s.len() - 1]);
                        assert(false);
                    }
                }
            }
        }
    }
}

/// Initializing every instance keeps the ids, their order, their uniqueness
/// and their well-formedness.
proof fn lemma_init_keeps_manager_wf(pre: Seq<AgentInstance>, post: Seq<AgentInstance>, now_ms: u64)
    requires
        pre.len() == post.len(),
        forall|i: int| 0 <= i < pre.len() ==> post[i] == (#[trigger] pre[i]).spec_initialized(
            now_ms,
        ),
        mgr_unique_ids(pre),
        forall|i: int| 0 <= i < pre.len() ==> (#[trigger] pre[i]).wf(),
    ensures
        mgr_unique_ids(post),
        forall|i: int| 0 <= i < post.len() ==> (#[trigger] post[i]).wf(),
        forall|i: int| 0 <= i < post.len() ==> (#[trigger] post[i]).spec_id() == pre[i].spec_id(),
{
    assert forall|i: int| 0 <= i < post.len() implies (#[trigger] post[i]).wf() && post[
        i
    ].spec_id() == pre[i].spec_id() by {
        assert(pre[i].wf());
    }
}

/// Shutting every instance down keeps the ids, their order, their uniqueness
/// and their well-formedness.
proof fn lemma_shutdown_keeps_manager_wf(pre: Seq<AgentInstance>, post: Seq<AgentInstance>)
    requires
        pre.len() == post.len(),
        forall|i: int| 0 <= i < pre.len() ==> post[i] == (#[trigger] pre[i]).spec_shut_down(),
        mgr_unique_ids(pre),
        forall|i: int| 0 <= i < pre.len() ==> (#[trigger] pre[i]).wf(),
    ensures
        mgr_unique_ids(post),
        forall|i: int| 0 <= i < post.len() ==> (#[trigger] post[i]).wf(),
        forall|i: int| 0 <= i < post.len() ==> (#[trigger] post[i]).spec_id() == pre[i].spec_id(),
{
    assert forall|i: int| 0 <= i < post.len() implies (#[trigger] post[i]).wf() && post[
        i
    ].spec_id() == pre[i].spec_id() by {
        assert(pre[i].wf());
    }
}

} // verus!
