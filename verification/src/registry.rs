//! The sessions of all agents, one per agent, created on first use.
use vstd::prelude::*;

use crate::buffers::{BufferSnapshot, BufferState, snapshot_of};
use crate::error::MemoryResult;
use crate::ids::AgentId;
use crate::session::SessionState;

verus! {

/// The states of the four core buffers of a new session.
pub open spec fn core_states() -> Seq<BufferState> {
    seq![
        BufferState::empty_spec(crate::buffers::BufferName::Goal),
        BufferState::empty_spec(crate::buffers::BufferName::Retrieval),
        BufferState::empty_spec(crate::buffers::BufferName::Imaginal),
        BufferState::empty_spec(crate::buffers::BufferName::Task),
    ]
}

/// A session as `SessionState::new` makes it for `agent`.
pub open spec fn is_fresh(s: SessionState, agent: Seq<char>) -> bool {
    &&& s.wf()
    &&& s.agent()@ == agent
    &&& s.step() == 0
    &&& s.states() == core_states()
}

/// What `get_or_create` leaves and answers: the agent's session stands at
/// `i`; it is the one there was, or a new one added at the end.
pub open spec fn get_or_create_effect(
    before: SessionRegistry,
    after: SessionRegistry,
    agent: Seq<char>,
    i: usize,
) -> bool {
    &&& after.wf()
    &&& i < after.sessions().len()
    &&& after.keys()[i as int] == agent
    &&& (before.has_session(agent) ==> after.sessions() == before.sessions() && after.keys() == before.keys())
    &&& (!before.has_session(agent) ==> {
        &&& i == before.sessions().len()
        &&& after.sessions() == before.sessions().push(after.sessions()[i as int])
        &&& after.keys() == before.keys().push(agent)
        &&& is_fresh(after.sessions()[i as int], agent)
    })
    &&& after.has_session(agent)
    &&& after.session_of(agent) == after.sessions()[i as int]
}

/// Every agent's session; a session is made for an agent the first time it
/// is asked for. Each session is kept under the agent it was made for.
#[derive(Debug)]
pub struct SessionRegistry {
    agents: Vec<AgentId>,
    sessions: Vec<SessionState>,
}

impl SessionRegistry {
    /// The sessions, in the order they were made.
    pub closed spec fn sessions(&self) -> Seq<SessionState> {
        self.sessions@
    }

    /// The agent each session is kept under, in the same order.
    pub closed spec fn keys(&self) -> Seq<Seq<char>> {
        self.agents@.map_values(|a: AgentId| a@)
    }

    /// Each session is well formed, each has its key, and no two have one
    /// key.
    pub open spec fn wf(&self) -> bool {
        &&& self.keys().len() == self.sessions().len()
        &&& forall|i: int| 0 <= i < self.sessions().len() ==> (#[trigger] self.sessions()[i]).wf()
        &&& forall|i: int, j: int|
            0 <= i < j < self.keys().len() ==> #[trigger] self.keys()[i] != #[trigger] self.keys()[j]
    }

    /// Whether the agent has a session.
    pub open spec fn has_session(&self, agent: Seq<char>) -> bool {
        exists|i: int| 0 <= i < self.keys().len() && #[trigger] self.keys()[i] == agent
    }

    /// The agent's session.
    pub open spec fn session_of(&self, agent: Seq<char>) -> SessionState {
        self.sessions()[choose|i: int| 0 <= i < self.keys().len() && #[trigger] self.keys()[i] == agent]
    }

    /// The sessions by agent.
    pub open spec fn session_map(&self) -> Map<Seq<char>, SessionState> {
        Map::new(|a: Seq<char>| self.has_session(a), |a: Seq<char>| self.session_of(a))
    }

    /// A registry with no session.
    pub fn new() -> (r: Self)
        ensures
            r.wf(),
            r.sessions().len() == 0,
            r.session_map() == Map::<Seq<char>, SessionState>::empty(),
    {
        let r = SessionRegistry { agents: Vec::new(), sessions: Vec::new() };
        assert(r.keys() =~= Seq::<Seq<char>>::empty());
        assert(r.session_map() =~= Map::<Seq<char>, SessionState>::empty());
        r
    }

    /// Finds the agent's session, making it when there is none, and returns
    /// where it stands among the sessions.
    pub fn get_or_create(&mut self, agent_id: AgentId) -> (i: usize)
        requires
            old(self).wf(),
        ensures
            get_or_create_effect(*old(self), *final(self), agent_id@, i),
    {
        let mut i: usize = 0;
        while i < self.agents.len()
            invariant
                self.wf(),
                i <= self.keys().len(),
                forall|j: int| 0 <= j < i ==> #[trigger] self.keys()[j] != agent_id@,
            decreases self.keys().len() - i,
        {
            if self.agents[i].same(&agent_id) {
                proof {
                    assert(self.keys()[i as int] == self.agents@[i as int]@);
                    self.lemma_session_of_at(i as int);
                }
                return i;
            }
            assert(self.keys()[i as int] == self.agents@[i as int]@);
            i = i + 1;
        }
        let ghost old_reg = *self;
        let ghost agent = agent_id@;
        assert(!old_reg.has_session(agent));
        let s = SessionState::new(agent_id.copy());
        let ghost fresh = s;
        self.agents.push(agent_id);
        self.sessions.push(s);
        proof {
            assert(self.sessions@ == old_reg.sessions().push(fresh));
            assert(self.keys() =~= old_reg.keys().push(agent));
            assert forall|a: int, b: int| 0 <= a < b < self.keys().len() implies #[trigger] self.keys()[a]
                != #[trigger] self.keys()[b] by {
                assert(old_reg.keys()[a] == self.keys()[a]);
                if b < i {
                    assert(old_reg.keys()[b] == self.keys()[b]);
                }
            }
            assert forall|a: int| 0 <= a < self.sessions().len() implies (#[trigger] self.sessions()[a]).wf() by {
                if a < i {
                    assert(old_reg.sessions()[a] == self.sessions()[a]);
                    assert(old_reg.sessions()[a].wf());
                } else {
                    assert(self.sessions()[a] == fresh);
                }
            }
            assert(core_states() =~= self.sessions@[i as int].states());
            self.lemma_session_of_at(i as int);
        }
        i
    }

    /// The session that stands at `i` is the one of its key.
    proof fn lemma_session_of_at(&self, i: int)
        requires
            self.wf(),
            0 <= i < self.sessions().len(),
        ensures
            self.has_session(self.keys()[i]),
            self.session_of(self.keys()[i]) == self.sessions()[i],
    {
        let a = self.keys()[i];
        assert(self.has_session(a));
        let j = choose|j: int| 0 <= j < self.keys().len() && #[trigger] self.keys()[j] == a;
        if j < i {
            assert(self.keys()[j] != self.keys()[i]);
        } else if i < j {
            assert(self.keys()[i] != self.keys()[j]);
        }
    }

    /// The agent's session, made first when there is none.
    pub open spec fn session_or_fresh(&self, agent: Seq<char>, s: SessionState) -> bool {
        if self.has_session(agent) {
            s == self.session_of(agent)
        } else {
            is_fresh(s, agent)
        }
    }

    /// Runs `mutate` on the agent's session, made first when there is none,
    /// and hands back what it returns. `mutate` must keep the session well
    /// formed; the session stays under the agent whatever it does to the
    /// session's own agent field.
    pub fn with_session<T>(
        &mut self,
        agent_id: AgentId,
        mutate: impl FnOnce(&mut SessionState) -> MemoryResult<T>,
    ) -> (r: MemoryResult<T>)
        requires
            old(self).wf(),
            forall|m: &mut SessionState| (*m).wf() ==> call_requires(mutate, (m,)),
            forall|m: &mut SessionState, out: MemoryResult<T>|
                call_ensures(mutate, (m,), out) && (*m).wf() ==> (*final(m)).wf(),
        ensures
            final(self).wf(),
            exists|m: &mut SessionState|
                {
                    &&& old(self).session_or_fresh(agent_id@, *m)
                    &&& call_ensures(mutate, (m,), r)
                    &&& final(self).session_map() == old(self).session_map().insert(
                        agent_id@,
                        *final(m),
                    )
                },
    {
        let ghost old_reg = *self;
        let ghost agent = agent_id@;
        let i = self.get_or_create(agent_id);
        let ghost mid = *self;
        let mut session = self.sessions.remove(i);
        let ghost before = session;
        let r = mutate(&mut session);
        self.sessions.insert(i, session);
        proof {
            assert(self.sessions@ == mid.sessions().update(i as int, session));
            assert(self.keys() == mid.keys());
            assert forall|x: int| 0 <= x < self.sessions().len() implies (#[trigger] self.sessions()[x]).wf() by {
                if x != i {
                    assert(mid.sessions()[x] == self.sessions()[x]);
                }
            }
            self.lemma_session_of_at(i as int);
            self.lemma_map_after_replace(old_reg, mid, i, agent);
            assert(before == mid.sessions()[i as int]);
            assert(old_reg.session_or_fresh(agent, before));
        }
        r
    }

    /// Replacing the session at `i` of `mid`, whose sessions are those of
    /// `old_reg` or those and one more for `agent`, changes the agent's entry
    /// alone.
    proof fn lemma_map_after_replace(&self, old_reg: SessionRegistry, mid: SessionRegistry, i: usize, agent: Seq<char>)
        requires
            self.wf(),
            old_reg.wf(),
            mid.wf(),
            get_or_create_effect(old_reg, mid, agent, i),
            i < mid.sessions().len(),
            self.keys() == mid.keys(),
            self.sessions().len() == mid.sessions().len(),
            forall|j: int| 0 <= j < mid.sessions().len() && j != i ==> mid.sessions()[j] == #[trigger] self.sessions()[j],
        ensures
            self.session_map() == old_reg.session_map().insert(agent, self.sessions()[i as int]),
    {
        self.lemma_session_of_at(i as int);
        assert forall|a: Seq<char>| #[trigger] self.session_map().contains_key(a)
            <==> old_reg.session_map().insert(agent, self.sessions()[i as int]).contains_key(a) by {
            if self.has_session(a) && a != agent {
                let j = choose|j: int| 0 <= j < self.keys().len() && #[trigger] self.keys()[j] == a;
                if !old_reg.has_session(agent) {
                    assert(j < old_reg.keys().len());
                    assert(old_reg.keys()[j] == mid.keys()[j]);
                } else {
                    assert(old_reg.keys()[j] == mid.keys()[j]);
                }
            }
            if old_reg.has_session(a) && a != agent {
                let j = choose|j: int| 0 <= j < old_reg.keys().len() && #[trigger] old_reg.keys()[j] == a;
                if !old_reg.has_session(agent) {
                    assert(mid.keys()[j] == old_reg.keys()[j]);
                }
                assert(self.keys()[j] == a);
            }
        }
        assert forall|a: Seq<char>| #[trigger] self.session_map().contains_key(a) implies self.session_map()[a]
            == old_reg.session_map().insert(agent, self.sessions()[i as int])[a] by {
            if a != agent {
                let j = choose|j: int| 0 <= j < self.keys().len() && #[trigger] self.keys()[j] == a;
                self.lemma_session_of_at(j);
                assert(mid.keys()[i as int] == agent);
                assert(self.keys()[i as int] == agent);
                assert(j != i);
                assert(mid.sessions()[j] == self.sessions()[j]);
                if !old_reg.has_session(agent) {
                    assert(j < old_reg.sessions().len());
                    assert(old_reg.keys()[j] == mid.keys()[j]);
                    assert(old_reg.sessions()[j] == mid.sessions()[j]);
                } else {
                    assert(old_reg.keys()[j] == mid.keys()[j]);
                    assert(old_reg.sessions()[j] == mid.sessions()[j]);
                }
                assert(old_reg.keys()[j] == a);
                old_reg.lemma_session_of_at(j);
                assert(old_reg.session_map()[a] == old_reg.sessions()[j]);
            }
        }
        assert(self.session_map() =~= old_reg.session_map().insert(agent, self.sessions()[i as int]));
    }

    /// The snapshots of the agent's buffers, in name order; a session is made
    /// for the agent when it has none.
    pub fn snapshot(&mut self, agent_id: AgentId) -> (r: MemoryResult<Vec<BufferSnapshot>>)
        requires
            old(self).wf(),
        ensures
            final(self).wf(),
            old(self).has_session(agent_id@) ==> final(self).sessions() == old(self).sessions(),
            final(self).has_session(agent_id@),
            old(self).session_or_fresh(agent_id@, final(self).session_of(agent_id@)),
            r matches Ok(v) && v@ == final(self).session_of(agent_id@).states().map_values(
                |s: BufferState| snapshot_of(s),
            ),
    {
        let ghost old_reg = *self;
        let i = self.get_or_create(agent_id);
        proof {
            if old_reg.has_session(agent_id@) {
                let j = choose|j: int| 0 <= j < old_reg.keys().len() && #[trigger] old_reg.keys()[j] == agent_id@;
                old_reg.lemma_session_of_at(j);
                self.lemma_session_of_at(j);
            }
        }
        Ok(self.sessions[i].snapshot())
    }
}

impl Default for SessionRegistry {
    fn default() -> (r: Self)
        ensures
            r.wf(),
            r.session_map() == Map::<Seq<char>, SessionState>::empty(),
    {
        SessionRegistry::new()
    }
}

} // verus!
