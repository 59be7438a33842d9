//! The per-agent session: the agent's buffers and its cognitive step counter.
use vstd::prelude::*;

use crate::buffers::{
    BufferName, BufferSnapshot, BufferState, key_lt, lemma_key_lt_irreflexive,
    lemma_key_lt_total, lemma_key_lt_transitive, name_key, name_text, snapshot_of,
};
use crate::error::{MemoryError, MemoryResult};
use crate::ids::{AgentId, ChunkId, ChunkType};

verus! {

pub type BufferKey = (nat, Seq<char>);

/// Buffer states listed in strictly increasing order of their names.
pub open spec fn sorted_states(s: Seq<BufferState>) -> bool {
    forall|i: int, j: int|
        0 <= i < j < s.len() ==> key_lt(name_key(#[trigger] s[i].name), name_key(#[trigger] s[j].name))
}

/// Whether some state in `s` belongs to the buffer with key `k`.
pub open spec fn holds_key(s: Seq<BufferState>, k: BufferKey) -> bool {
    exists|i: int| 0 <= i < s.len() && name_key(#[trigger] s[i].name) == k
}

/// The state of the buffer with key `k` in `s`.
pub open spec fn state_at_key(s: Seq<BufferState>, k: BufferKey) -> BufferState {
    s[choose|i: int| 0 <= i < s.len() && name_key(#[trigger] s[i].name) == k]
}

/// The buffers of a list of states, by key.
pub open spec fn state_map(s: Seq<BufferState>) -> Map<BufferKey, BufferState> {
    Map::new(|k: BufferKey| holds_key(s, k), |k: BufferKey| state_at_key(s, k))
}

/// The state that `set_buffer` leaves in a buffer.
pub open spec fn set_state(
    name: BufferName,
    chunk_id: ChunkId,
    chunk_type: ChunkType,
    now_ms: u64,
) -> BufferState {
    BufferState { name, chunk_id: Some(chunk_id), chunk_type: Some(chunk_type), updated_at_ms: now_ms }
}

/// The state that `clear_buffer` leaves in a buffer.
pub open spec fn cleared_state(s: BufferState, now_ms: u64) -> BufferState {
    BufferState { name: s.name, chunk_id: None, chunk_type: None, updated_at_ms: now_ms }
}

/// `n + 1`, saturating at `u64::MAX`.
pub open spec fn step_after(n: u64) -> u64 {
    if n == u64::MAX { n } else { (n + 1) as u64 }
}

/// The message of the error for a buffer that does not exist.
pub open spec fn missing_buffer_text(name: BufferName) -> Seq<char> {
    "buffer "@ + name_text(name)
}

/// What `set_buffer` leaves: the buffer holds the chunk, its type and the
/// time (a new buffer is created), nothing else changes, and one cognitive
/// step is counted.
pub open spec fn set_effect(
    before: SessionState,
    after: SessionState,
    name: BufferName,
    chunk_id: ChunkId,
    chunk_type: ChunkType,
    now_ms: u64,
) -> bool {
    &&& after.wf()
    &&& after.agent() == before.agent()
    &&& after.step() == step_after(before.step())
    &&& after.buffer_map() == before.buffer_map().insert(
        name_key(name),
        set_state(
            if before.buffer_map().contains_key(name_key(name)) {
                before.buffer_map()[name_key(name)].name
            } else {
                name
            },
            chunk_id,
            chunk_type,
            now_ms,
        ),
    )
}

/// What `clear_buffer` leaves and answers: an existing buffer is emptied at
/// `now_ms` and one step is counted; for a buffer that does not exist the
/// session is unchanged and the answer is `NotFound`.
pub open spec fn clear_effect(
    before: SessionState,
    after: SessionState,
    name: BufferName,
    now_ms: u64,
    r: MemoryResult<BufferSnapshot>,
) -> bool {
    &&& after.wf()
    &&& after.agent() == before.agent()
    &&& before.buffer_map().contains_key(name_key(name)) ==> {
        &&& after.step() == step_after(before.step())
        &&& after.buffer_map() == before.buffer_map().insert(
            name_key(name),
            cleared_state(before.buffer_map()[name_key(name)], now_ms),
        )
        &&& r == Ok::<BufferSnapshot, MemoryError>(
            snapshot_of(cleared_state(before.buffer_map()[name_key(name)], now_ms)),
        )
    }
    &&& !before.buffer_map().contains_key(name_key(name)) ==> {
        &&& after == before
        &&& r matches Err(MemoryError::NotFound(m)) && m@ == missing_buffer_text(name)
    }
}

/// What `commit_retrieval` leaves: the retrieval buffer holds the chunk, its
/// type and the time, nothing else changes, and one step is counted.
pub open spec fn commit_effect(
    before: SessionState,
    after: SessionState,
    chunk_id: ChunkId,
    chunk_type: ChunkType,
    now_ms: u64,
) -> bool {
    &&& after.wf()
    &&& after.agent() == before.agent()
    &&& after.step() == step_after(before.step())
    &&& after.buffer_map() == before.buffer_map().insert(
        name_key(BufferName::Retrieval),
        set_state(BufferName::Retrieval, chunk_id, chunk_type, now_ms),
    )
}

/// What `buffer_snapshot` answers: the buffer's snapshot, or `NotFound`.
pub open spec fn read_result(
    s: SessionState,
    name: BufferName,
    r: MemoryResult<BufferSnapshot>,
) -> bool {
    &&& s.buffer_map().contains_key(name_key(name)) ==> r == Ok::<BufferSnapshot, MemoryError>(
        snapshot_of(s.buffer_map()[name_key(name)]),
    )
    &&& !s.buffer_map().contains_key(name_key(name)) ==> (r matches Err(MemoryError::NotFound(m))
        && m@ == missing_buffer_text(name))
}

pub proof fn lemma_sorted_unique(s: Seq<BufferState>, i: int, j: int)
    requires
        sorted_states(s),
        0 <= i < s.len(),
        0 <= j < s.len(),
        name_key(s[i].name) == name_key(s[j].name),
    ensures
        i == j,
{
    if i < j {
        assert(key_lt(name_key(s[i].name), name_key(s[j].name)));
        lemma_key_lt_irreflexive(name_key(s[i].name));
    } else if j < i {
        assert(key_lt(name_key(s[j].name), name_key(s[i].name)));
        lemma_key_lt_irreflexive(name_key(s[i].name));
    }
}

pub proof fn lemma_state_map_at(s: Seq<BufferState>, i: int)
    requires
        sorted_states(s),
        0 <= i < s.len(),
    ensures
        state_map(s).contains_key(name_key(s[i].name)),
        state_map(s)[name_key(s[i].name)] == s[i],
{
    let k = name_key(s[i].name);
    assert(holds_key(s, k));
    let j = choose|j: int| 0 <= j < s.len() && name_key(#[trigger] s[j].name) == k;
    lemma_sorted_unique(s, i, j);
}

/// Replacing the state at `i` by one with the same key replaces that key's
/// entry and nothing else.
proof fn lemma_update_map(s: Seq<BufferState>, i: int, t: BufferState)
    requires
        sorted_states(s),
        0 <= i < s.len(),
        name_key(t.name) == name_key(s[i].name),
    ensures
        sorted_states(s.update(i, t)),
        state_map(s.update(i, t)) == state_map(s).insert(name_key(t.name), t),
{
    let u = s.update(i, t);
    assert(sorted_states(u)) by {
        assert forall|a: int, b: int| 0 <= a < b < u.len() implies key_lt(
            name_key(#[trigger] u[a].name),
            name_key(#[trigger] u[b].name),
        ) by {
            assert(key_lt(name_key(s[a].name), name_key(s[b].name)));
        }
    }
    assert forall|k: BufferKey| #[trigger] state_map(u).contains_key(k) <==> state_map(
        s,
    ).insert(name_key(t.name), t).contains_key(k) by {
        if holds_key(u, k) {
            let j = choose|j: int| 0 <= j < u.len() && name_key(#[trigger] u[j].name) == k;
            if j != i {
                assert(name_key(s[j].name) == k);
            }
        }
        if holds_key(s, k) {
            let j = choose|j: int| 0 <= j < s.len() && name_key(#[trigger] s[j].name) == k;
            assert(name_key(u[j].name) == k);
        }
        if k == name_key(t.name) {
            assert(name_key(u[i].name) == k);
        }
    }
    assert forall|k: BufferKey| #[trigger] state_map(u).contains_key(k) implies state_map(u)[k]
        == state_map(s).insert(name_key(t.name), t)[k] by {
        let j = choose|j: int| 0 <= j < u.len() && name_key(#[trigger] u[j].name) == k;
        lemma_state_map_at(u, j);
        if j != i {
            lemma_state_map_at(s, j);
            if k == name_key(t.name) {
                lemma_sorted_unique(u, i, j);
            }
        }
    }
    assert(state_map(u) =~= state_map(s).insert(name_key(t.name), t));
}

/// Inserting a state with a new key at its sorted position adds that key's
/// entry and nothing else.
proof fn lemma_insert_map(s: Seq<BufferState>, i: int, t: BufferState)
    requires
        sorted_states(s),
        0 <= i <= s.len(),
        forall|j: int| 0 <= j < i ==> key_lt(name_key(#[trigger] s[j].name), name_key(t.name)),
        i < s.len() ==> key_lt(name_key(t.name), name_key(s[i].name)),
    ensures
        sorted_states(s.insert(i, t)),
        state_map(s.insert(i, t)) == state_map(s).insert(name_key(t.name), t),
{
    let u = s.insert(i, t);
    let kt = name_key(t.name);
    assert forall|j: int| i < j < s.len() implies key_lt(kt, name_key(#[trigger] s[j].name)) by {
        assert(key_lt(name_key(s[i].name), name_key(s[j].name)));
        lemma_key_lt_transitive(kt, name_key(s[i].name), name_key(s[j].name));
    }
    assert(sorted_states(u)) by {
        assert forall|a: int, b: int| 0 <= a < b < u.len() implies key_lt(
            name_key(#[trigger] u[a].name),
            name_key(#[trigger] u[b].name),
        ) by {
            if a < i && b < i {
                assert(key_lt(name_key(s[a].name), name_key(s[b].name)));
            } else if a < i && b == i {
            } else if a < i {
                assert(key_lt(name_key(s[a].name), kt));
                assert(key_lt(kt, name_key(s[b - 1].name)));
                lemma_key_lt_transitive(name_key(s[a].name), kt, name_key(s[b - 1].name));
            } else if a == i {
                assert(key_lt(kt, name_key(s[b - 1].name)));
            } else {
                assert(key_lt(name_key(s[a - 1].name), name_key(s[b - 1].name)));
            }
        }
    }
    assert forall|k: BufferKey| #[trigger] state_map(u).contains_key(k) <==> state_map(
        s,
    ).insert(kt, t).contains_key(k) by {
        if holds_key(u, k) {
            let j = choose|j: int| 0 <= j < u.len() && name_key(#[trigger] u[j].name) == k;
            if j < i {
                assert(name_key(s[j].name) == k);
            } else if j > i {
                assert(name_key(s[j - 1].name) == k);
            }
        }
        if holds_key(s, k) {
            let j = choose|j: int| 0 <= j < s.len() && name_key(#[trigger] s[j].name) == k;
            if j < i {
                assert(name_key(u[j].name) == k);
            } else {
                assert(name_key(u[j + 1].name) == k);
            }
        }
        if k == kt {
            assert(name_key(u[i].name) == k);
        }
    }
    assert forall|k: BufferKey| #[trigger] state_map(u).contains_key(k) implies state_map(u)[k]
        == state_map(s).insert(kt, t)[k] by {
        let j = choose|j: int| 0 <= j < u.len() && name_key(#[trigger] u[j].name) == k;
        lemma_state_map_at(u, j);
        if j < i {
            lemma_state_map_at(s, j);
            if k == kt {
                lemma_sorted_unique(u, i, j);
            }
        } else if j > i {
            lemma_state_map_at(s, j - 1);
            if k == kt {
                lemma_sorted_unique(u, i, j);
            }
        }
    }
    assert(state_map(u) =~= state_map(s).insert(kt, t));
}

/// The working memory of one agent: its buffers, ordered by name, and the
/// number of buffer changes so far.
#[derive(Debug, Clone)]
pub struct SessionState {
    pub agent_id: AgentId,
    buffers: Vec<BufferState>,
    cognitive_step: u64,
}

impl SessionState {
    /// The buffer states in name order.
    pub closed spec fn states(&self) -> Seq<BufferState> {
        self.buffers@
    }

    /// The agent the session belongs to.
    pub closed spec fn agent(&self) -> AgentId {
        self.agent_id
    }

    /// The number of buffer changes made so far.
    pub closed spec fn step(&self) -> u64 {
        self.cognitive_step
    }

    pub open spec fn wf(&self) -> bool {
        sorted_states(self.states())
    }

    /// The session's buffers by key.
    pub open spec fn buffer_map(&self) -> Map<BufferKey, BufferState> {
        state_map(self.states())
    }

    /// A new session whose four core buffers are empty.
    pub fn new(agent_id: AgentId) -> (r: Self)
        ensures
            r.wf(),
            r.agent() == agent_id,
            r.step() == 0,
            r.states() == seq![
                BufferState::empty_spec(BufferName::Goal),
                BufferState::empty_spec(BufferName::Retrieval),
                BufferState::empty_spec(BufferName::Imaginal),
                BufferState::empty_spec(BufferName::Task),
            ],
    {
        let mut buffers: Vec<BufferState> = Vec::new();
        buffers.push(BufferState::empty(BufferName::Goal));
        buffers.push(BufferState::empty(BufferName::Retrieval));
        buffers.push(BufferState::empty(BufferName::Imaginal));
        buffers.push(BufferState::empty(BufferName::Task));
        let r = SessionState { agent_id, buffers, cognitive_step: 0 };
        assert(r.states() =~= seq![
            BufferState::empty_spec(BufferName::Goal),
            BufferState::empty_spec(BufferName::Retrieval),
            BufferState::empty_spec(BufferName::Imaginal),
            BufferState::empty_spec(BufferName::Task),
        ]);
        r
    }

    pub fn agent_id(&self) -> (r: &AgentId)
        ensures
            *r == self.agent(),
    {
        &self.agent_id
    }

    /// Index of the first state whose name is not below `name`.
    fn position(&self, name: &BufferName) -> (i: usize)
        requires
            self.wf(),
        ensures
            i <= self.states().len(),
            forall|j: int|
                0 <= j < i ==> key_lt(name_key(#[trigger] self.states()[j].name), name_key(*name)),
            i < self.states().len() ==> !key_lt(
                name_key(self.states()[i as int].name),
                name_key(*name),
            ),
    {
        let mut i: usize = 0;
        while i < self.buffers.len() && self.buffers[i].name.precedes(name)
            invariant
                i <= self.buffers.len(),
                forall|j: int|
                    0 <= j < i ==> key_lt(name_key(#[trigger] self.buffers@[j].name), name_key(*name)),
            decreases self.buffers.len() - i,
        {
            i = i + 1;
        }
        i
    }

    /// Puts a chunk into a buffer, creating the buffer if it does not exist,
    /// and counts one cognitive step.
    pub fn set_buffer(
        &mut self,
        name: BufferName,
        chunk_id: ChunkId,
        chunk_type: ChunkType,
        now_ms: u64,
    ) -> (r: BufferSnapshot)
        requires
            old(self).wf(),
        ensures
            set_effect(*old(self), *final(self), name, chunk_id, chunk_type, now_ms),
            r == snapshot_of(final(self).buffer_map()[name_key(name)]),
    {
        self.cognitive_step = self.cognitive_step.saturating_add(1);
        let i = self.position(&name);
        let ghost s = self.buffers@;
        let ghost k = name_key(name);
        if i < self.buffers.len() && self.buffers[i].name.same(&name) {
            let state = BufferState {
                name: self.buffers[i].name.copy(),
                chunk_id: Some(chunk_id),
                chunk_type: Some(chunk_type),
                updated_at_ms: now_ms,
            };
            let snap = state.snapshot();
            proof {
                lemma_state_map_at(s, i as int);
                lemma_update_map(s, i as int, state);
            }
            self.buffers.set(i, state);
            proof {
                lemma_state_map_at(self.buffers@, i as int);
            }
            snap
        } else {
            proof {
                if i < s.len() {
                    lemma_key_lt_total(name_key(s[i as int].name), k);
                }
                if holds_key(s, k) {
                    let j = choose|j: int| 0 <= j < s.len() && name_key(#[trigger] s[j].name) == k;
                    if j < i {
                        lemma_key_lt_irreflexive(k);
                    } else if j > i {
                        assert(key_lt(name_key(s[i as int].name), name_key(s[j].name)));
                        lemma_key_lt_transitive(k, name_key(s[i as int].name), k);
                        lemma_key_lt_irreflexive(k);
                    }
                }
            }
            let state = BufferState {
                name,
                chunk_id: Some(chunk_id),
                chunk_type: Some(chunk_type),
                updated_at_ms: now_ms,
            };
            let snap = state.snapshot();
            proof {
                lemma_insert_map(s, i as int, state);
            }
            self.buffers.insert(i, state);
            proof {
                lemma_state_map_at(self.buffers@, i as int);
            }
            snap
        }
    }

    /// Empties an existing buffer, counting one cognitive step; a buffer that
    /// does not exist is reported and nothing changes.
    pub fn clear_buffer(&mut self, name: &BufferName, now_ms: u64) -> (r: MemoryResult<
        BufferSnapshot,
    >)
        requires
            old(self).wf(),
        ensures
            clear_effect(*old(self), *final(self), *name, now_ms, r),
    {
        let i = self.position(name);
        let ghost s = self.buffers@;
        let ghost k = name_key(*name);
        if i < self.buffers.len() && self.buffers[i].name.same(name) {
            self.cognitive_step = self.cognitive_step.saturating_add(1);
            let state = BufferState {
                name: self.buffers[i].name.copy(),
                chunk_id: None,
                chunk_type: None,
                updated_at_ms: now_ms,
            };
            let snap = state.snapshot();
            proof {
                lemma_state_map_at(s, i as int);
                lemma_update_map(s, i as int, state);
            }
            self.buffers.set(i, state);
            Ok(snap)
        } else {
            proof {
                if i < s.len() {
                    lemma_key_lt_total(name_key(s[i as int].name), k);
                }
                if holds_key(s, k) {
                    let j = choose|j: int| 0 <= j < s.len() && name_key(#[trigger] s[j].name) == k;
                    if j < i {
                        lemma_key_lt_irreflexive(k);
                    } else if j > i {
                        assert(key_lt(name_key(s[i as int].name), name_key(s[j].name)));
                        lemma_key_lt_transitive(k, name_key(s[i as int].name), k);
                        lemma_key_lt_irreflexive(k);
                    }
                }
            }
            let m = String::from_str("buffer ").concat(name.as_str());
            Err(MemoryError::NotFound(m))
        }
    }

    /// Puts the retrieved chunk into the retrieval buffer.
    pub fn commit_retrieval(&mut self, chunk_id: ChunkId, chunk_type: ChunkType, now_ms: u64) -> (r:
        BufferSnapshot)
        requires
            old(self).wf(),
        ensures
            commit_effect(*old(self), *final(self), chunk_id, chunk_type, now_ms),
            r == snapshot_of(final(self).buffer_map()[name_key(BufferName::Retrieval)]),
    {
        proof {
            if self.buffer_map().contains_key(name_key(BufferName::Retrieval)) {
                let s = self.states();
                let j = choose|j: int|
                    0 <= j < s.len() && name_key(#[trigger] s[j].name) == name_key(
                        BufferName::Retrieval,
                    );
                lemma_state_map_at(s, j);
            }
        }
        self.set_buffer(BufferName::Retrieval, chunk_id, chunk_type, now_ms)
    }

    /// The snapshot of one buffer, or an error when it does not exist.
    pub fn buffer_snapshot(&self, name: &BufferName) -> (r: MemoryResult<BufferSnapshot>)
        requires
            self.wf(),
        ensures
            read_result(*self, *name, r),
    {
        let i = self.position(name);
        let ghost s = self.buffers@;
        let ghost k = name_key(*name);
        if i < self.buffers.len() && self.buffers[i].name.same(name) {
            proof {
                lemma_state_map_at(s, i as int);
            }
            Ok(self.buffers[i].snapshot())
        } else {
            proof {
                if i < s.len() {
                    lemma_key_lt_total(name_key(s[i as int].name), k);
                }
                if holds_key(s, k) {
                    let j = choose|j: int| 0 <= j < s.len() && name_key(#[trigger] s[j].name) == k;
                    if j < i {
                        lemma_key_lt_irreflexive(k);
                    } else if j > i {
                        assert(key_lt(name_key(s[i as int].name), name_key(s[j].name)));
                        lemma_key_lt_transitive(k, name_key(s[i as int].name), k);
                        lemma_key_lt_irreflexive(k);
                    }
                }
            }
            let m = String::from_str("buffer ").concat(name.as_str());
            Err(MemoryError::NotFound(m))
        }
    }

    /// Snapshots of every buffer, in name order.
    pub fn snapshot(&self) -> (r: Vec<BufferSnapshot>)
        ensures
            r@ == self.states().map_values(|s: BufferState| snapshot_of(s)),
    {
        let mut r: Vec<BufferSnapshot> = Vec::new();
        let mut i: usize = 0;
        while i < self.buffers.len()
            invariant
                i <= self.buffers.len(),
                r@ == self.buffers@.subrange(0, i as int).map_values(|s: BufferState| snapshot_of(s)),
            decreases self.buffers.len() - i,
        {
            r.push(self.buffers[i].snapshot());
            i = i + 1;
            assert(r@ =~= self.buffers@.subrange(0, i as int).map_values(|s: BufferState| snapshot_of(s)));
        }
        assert(self.buffers@.subrange(0, i as int) =~= self.buffers@);
        r
    }

    pub fn cognitive_step(&self) -> (r: u64)
        ensures
            r == self.step(),
    {
        self.cognitive_step
    }
}

impl BufferState {
    pub open spec fn empty_spec(name: BufferName) -> BufferState {
        BufferState { name, chunk_id: None, chunk_type: None, updated_at_ms: 0 }
    }
}

} // verus!
