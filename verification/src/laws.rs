//! Properties of the library that relate several operations: what a read
//! gives back after a write, what a repeated request is answered, and what
//! an operation leaves untouched.
use vstd::prelude::*;

use crate::buffers::{BufferName, BufferSnapshot, BufferState, key_lt, name_key, snapshot_of};
use crate::error::{MemoryError, MemoryResult};
use crate::ids::{ChunkId, ChunkType};
use crate::keyed::lemma_keyed_at;
use crate::memory::{
    CueCheck, cue_check,
    AssociationWrite, CandidateEntry, CandidateQuery, ChunkKey, CreateChunk, MemoryStore,
    PracticeEventWrite, StoredChunkState, UpdateChunk, admits, admitted_rows, append_effect,
    associate_effect, association_key, blank_field_error, chunk_key, create_effect, delete_effect,
    entry_ok, get_result, is_history, same_chunk, strengths, update_effect,
};
use crate::api::parsed_buffer_name;
use crate::buffers::name_text;
use crate::chunk::{Chunk, Slot, SlotValue, normalized_text, slot_value, value_type_text};
use crate::numbers::{float_syntax, is_ascii_digit, is_exp_mark, is_sign, number_run, number_step};
use crate::text::is_blank;
use crate::client::{encode_byte, encoded, hex_digit, is_unreserved};
use crate::registry::{SessionRegistry, core_states, get_or_create_effect, is_fresh};
use crate::rules::{
    BufferCondition, ProductionRule, float_rank, holds_on, listed_before, ranks_before, rule_applies, specificity_of,
};
use crate::session::{
    BufferKey, SessionState, sorted_states, state_map, clear_effect, commit_effect, lemma_sorted_unique, read_result, set_effect,
    step_after,
};

verus! {

// ---- sessions -------------------------------------------------------------

/// A buffer that was set reads back the chunk, its type and the time it was
/// set.
pub proof fn law_read_after_set(
    before: SessionState,
    after: SessionState,
    name: BufferName,
    chunk_id: ChunkId,
    chunk_type: ChunkType,
    now_ms: u64,
    read: MemoryResult<BufferSnapshot>,
)
    requires
        before.wf(),
        set_effect(before, after, name, chunk_id, chunk_type, now_ms),
        read_result(after, name, read),
    ensures
        read matches Ok(snap) && {
            &&& name_key(snap.name) == name_key(name)
            &&& snap.chunk_id == Some(chunk_id)
            &&& snap.chunk_type == Some(chunk_type)
            &&& snap.updated_at_ms == now_ms
        },
{
    if before.buffer_map().contains_key(name_key(name)) {
        let s = before.states();
        let j = choose|j: int|
            0 <= j < s.len() && name_key(#[trigger] s[j].name) == name_key(name);
        crate::session::lemma_state_map_at(s, j);
    }
}

/// Setting one buffer leaves every other buffer as it was.
pub proof fn law_set_leaves_other_buffers(
    before: SessionState,
    after: SessionState,
    name: BufferName,
    chunk_id: ChunkId,
    chunk_type: ChunkType,
    now_ms: u64,
    other: BufferKey,
)
    requires
        before.wf(),
        set_effect(before, after, name, chunk_id, chunk_type, now_ms),
        other != name_key(name),
    ensures
        after.buffer_map().contains_key(other) == before.buffer_map().contains_key(other),
        before.buffer_map().contains_key(other) ==> after.buffer_map()[other]
            == before.buffer_map()[other],
{
}

/// Every change of a buffer counts one cognitive step: setting a buffer,
/// and clearing one that exists.
pub proof fn law_buffer_change_is_one_step(
    before: SessionState,
    set_after: SessionState,
    cleared_after: SessionState,
    name: BufferName,
    chunk_id: ChunkId,
    chunk_type: ChunkType,
    now_ms: u64,
    cleared: MemoryResult<BufferSnapshot>,
)
    requires
        before.wf(),
        set_effect(before, set_after, name, chunk_id, chunk_type, now_ms),
        clear_effect(before, cleared_after, name, now_ms, cleared),
        before.buffer_map().contains_key(name_key(name)),
    ensures
        set_after.step() == step_after(before.step()),
        cleared_after.step() == step_after(before.step()),
{
}

/// Clearing a buffer that does not exist is refused and changes nothing,
/// not even the step count.
pub proof fn law_clear_unknown_changes_nothing(
    before: SessionState,
    after: SessionState,
    name: BufferName,
    now_ms: u64,
    r: MemoryResult<BufferSnapshot>,
)
    requires
        before.wf(),
        clear_effect(before, after, name, now_ms, r),
        !before.buffer_map().contains_key(name_key(name)),
    ensures
        after == before,
        after.step() == before.step(),
        r matches Err(MemoryError::NotFound(_)),
{
}

/// A cleared buffer still exists and reads back empty, stamped with the
/// time it was cleared.
pub proof fn law_read_after_clear(
    before: SessionState,
    after: SessionState,
    name: BufferName,
    now_ms: u64,
    r: MemoryResult<BufferSnapshot>,
    read: MemoryResult<BufferSnapshot>,
)
    requires
        before.wf(),
        clear_effect(before, after, name, now_ms, r),
        before.buffer_map().contains_key(name_key(name)),
        read_result(after, name, read),
    ensures
        read == r,
        read matches Ok(snap) && snap.chunk_id is None && snap.chunk_type is None
            && snap.updated_at_ms == now_ms,
{
}

/// A committed retrieval is what the retrieval buffer reads back, and the
/// other buffers keep what they held.
pub proof fn law_read_after_commit(
    before: SessionState,
    after: SessionState,
    chunk_id: ChunkId,
    chunk_type: ChunkType,
    now_ms: u64,
    read: MemoryResult<BufferSnapshot>,
    other: BufferKey,
)
    requires
        before.wf(),
        commit_effect(before, after, chunk_id, chunk_type, now_ms),
        read_result(after, BufferName::Retrieval, read),
        other != name_key(BufferName::Retrieval),
    ensures
        read == Ok::<BufferSnapshot, MemoryError>(
            BufferSnapshot {
                name: BufferName::Retrieval,
                chunk_id: Some(chunk_id),
                chunk_type: Some(chunk_type),
                updated_at_ms: now_ms,
            },
        ),
        after.buffer_map().contains_key(other) == before.buffer_map().contains_key(other),
        before.buffer_map().contains_key(other) ==> after.buffer_map()[other]
            == before.buffer_map()[other],
{
}

/// A session lists its buffers in strictly increasing order of their names,
/// so the order of a snapshot never depends on the order of the changes;
/// and each entry of the snapshot is what reading that buffer gives.
pub proof fn law_snapshot_in_name_order(s: SessionState, snaps: Seq<BufferSnapshot>)
    requires
        s.wf(),
        snaps == s.states().map_values(|b: BufferState| snapshot_of(b)),
    ensures
        forall|i: int, j: int|
            0 <= i < j < snaps.len() ==> key_lt(name_key(#[trigger] snaps[i].name), name_key(#[trigger] snaps[j].name)),
        forall|i: int|
            0 <= i < snaps.len() ==> read_result(s, (#[trigger] snaps[i]).name, Ok::<BufferSnapshot, MemoryError>(snaps[i])),
{
    assert forall|i: int| 0 <= i < snaps.len() implies read_result(
        s,
        (#[trigger] snaps[i]).name,
        Ok::<BufferSnapshot, MemoryError>(snaps[i]),
    ) by {
        crate::session::lemma_state_map_at(s.states(), i);
        assert(snaps[i] == snapshot_of(s.states()[i]));
    }
    assert forall|i: int, j: int| 0 <= i < j < snaps.len() implies key_lt(
        name_key(#[trigger] snaps[i].name),
        name_key(#[trigger] snaps[j].name),
    ) by {
        assert(snaps[i].name == s.states()[i].name);
        assert(snaps[j].name == s.states()[j].name);
    }
}

/// A new session holds the four core buffers, empty, in the order goal,
/// retrieval, imaginal, task.
pub proof fn law_new_session_core_buffers(s: SessionState, agent: Seq<char>, snaps: Seq<BufferSnapshot>)
    requires
        is_fresh(s, agent),
        snaps == s.states().map_values(|b: BufferState| snapshot_of(b)),
    ensures
        snaps.len() == 4,
        snaps[0].name == BufferName::Goal,
        snaps[1].name == BufferName::Retrieval,
        snaps[2].name == BufferName::Imaginal,
        snaps[3].name == BufferName::Task,
        forall|i: int| 0 <= i < 4 ==> (#[trigger] snaps[i]).chunk_id is None && snaps[i].chunk_type is None,
        s.step() == 0,
{
    assert(s.states() == core_states());
}

// ---- sessions over a history of changes --------------------------------------

/// A change asked of a session: set a buffer, clear one, or commit a
/// retrieval.
pub enum BufferChange {
    SetBuffer { name: BufferName, chunk_id: ChunkId, chunk_type: ChunkType, now_ms: u64 },
    ClearBuffer { name: BufferName, now_ms: u64 },
    CommitRetrieval { chunk_id: ChunkId, chunk_type: ChunkType, now_ms: u64 },
}

/// What the change leaves, as `set_buffer`, `clear_buffer` and
/// `commit_retrieval` state it.
pub open spec fn change_effect(before: SessionState, after: SessionState, c: BufferChange) -> bool {
    match c {
        BufferChange::SetBuffer { name, chunk_id, chunk_type, now_ms } => set_effect(
            before,
            after,
            name,
            chunk_id,
            chunk_type,
            now_ms,
        ),
        BufferChange::ClearBuffer { name, now_ms } => exists|r: MemoryResult<BufferSnapshot>|
            #[trigger] clear_effect(before, after, name, now_ms, r),
        BufferChange::CommitRetrieval { chunk_id, chunk_type, now_ms } => commit_effect(
            before,
            after,
            chunk_id,
            chunk_type,
            now_ms,
        ),
    }
}

/// `states` is the run of `changes` from its first state.
pub open spec fn is_run(states: Seq<SessionState>, changes: Seq<BufferChange>) -> bool {
    &&& states.len() == changes.len() + 1
    &&& forall|i: int| 0 <= i < changes.len() ==> change_effect(states[i], states[i + 1], #[trigger] changes[i])
}

/// The change is carried out: every set and commit, and a clear of a
/// buffer that exists.
pub open spec fn is_carried_out(before: SessionState, c: BufferChange) -> bool {
    match c {
        BufferChange::ClearBuffer { name, .. } => before.buffer_map().contains_key(name_key(name)),
        _ => true,
    }
}

/// How many of the first `k` changes of the run were carried out.
pub open spec fn carried_out(states: Seq<SessionState>, changes: Seq<BufferChange>, k: nat) -> nat
    decreases k,
{
    if k == 0 {
        0
    } else {
        carried_out(states, changes, (k - 1) as nat) + if is_carried_out(
            states[k - 1],
            changes[k - 1],
        ) {
            1nat
        } else {
            0nat
        }
    }
}

proof fn lemma_carried_out_monotone(states: Seq<SessionState>, changes: Seq<BufferChange>, a: nat, b: nat)
    requires
        a <= b,
    ensures
        carried_out(states, changes, a) <= carried_out(states, changes, b),
    decreases b - a,
{
    if a < b {
        lemma_carried_out_monotone(states, changes, a, (b - 1) as nat);
    }
}

proof fn lemma_steps_counted_prefix(states: Seq<SessionState>, changes: Seq<BufferChange>, k: nat)
    requires
        is_run(states, changes),
        states[0].step() == 0,
        k <= changes.len(),
        carried_out(states, changes, changes.len() as nat) < u64::MAX,
    ensures
        states[k as int].step() == carried_out(states, changes, k),
    decreases k,
{
    if k > 0 {
        let i = k - 1;
        lemma_steps_counted_prefix(states, changes, (k - 1) as nat);
        lemma_carried_out_monotone(states, changes, k, changes.len() as nat);
        let c = changes[i];
        assert(change_effect(states[i], states[i + 1], c));
        match c {
            BufferChange::ClearBuffer { name, now_ms } => {
                let r = choose|r: MemoryResult<BufferSnapshot>| #[trigger] clear_effect(states[i], states[i + 1], name, now_ms, r);
            },
            _ => {},
        }
    }
}

/// Each change that is carried out advances the step count by one, and a
/// refused clear leaves it: after any run from a new session, the step
/// count is the number of changes carried out.
pub proof fn law_steps_count_changes(states: Seq<SessionState>, changes: Seq<BufferChange>, agent: Seq<char>)
    requires
        is_run(states, changes),
        is_fresh(states[0], agent),
        carried_out(states, changes, changes.len() as nat) < u64::MAX,
    ensures
        states.last().step() == carried_out(states, changes, changes.len() as nat),
{
    lemma_steps_counted_prefix(states, changes, changes.len() as nat);
}

/// The keys of the four core buffers.
pub open spec fn core_keys() -> Set<BufferKey> {
    set![
        name_key(BufferName::Goal),
        name_key(BufferName::Retrieval),
        name_key(BufferName::Imaginal),
        name_key(BufferName::Task),
    ]
}

/// The keys of the buffers that the first `k` changes set.
pub open spec fn set_keys(changes: Seq<BufferChange>, k: nat) -> Set<BufferKey>
    decreases k,
{
    if k == 0 {
        Set::empty()
    } else {
        let earlier = set_keys(changes, (k - 1) as nat);
        match changes[k - 1] {
            BufferChange::SetBuffer { name, .. } => earlier.insert(name_key(name)),
            _ => earlier,
        }
    }
}

/// The distinct names of the custom buffers that the first `k` changes set.
pub open spec fn custom_names(changes: Seq<BufferChange>, k: nat) -> Set<Seq<char>>
    decreases k,
{
    if k == 0 {
        Set::empty()
    } else {
        let earlier = custom_names(changes, (k - 1) as nat);
        match changes[k - 1] {
            BufferChange::SetBuffer { name: BufferName::Custom(n), .. } => earlier.insert(n@),
            _ => earlier,
        }
    }
}

proof fn lemma_custom_keys(changes: Seq<BufferChange>, k: nat)
    requires
        k <= changes.len(),
    ensures
        custom_names(changes, k).finite(),
        forall|n: Seq<char>| set_keys(changes, k).contains((4nat, n)) <==> #[trigger] custom_names(changes, k).contains(n),
        forall|x: BufferKey| #[trigger] set_keys(changes, k).contains(x) && x.0 != 4 ==> core_keys().contains(x),
    decreases k,
{
    if k > 0 {
        let j = (k - 1) as nat;
        lemma_custom_keys(changes, j);
        match changes[k - 1] {
            BufferChange::SetBuffer { name, .. } => {
                assert(set_keys(changes, k) == set_keys(changes, j).insert(name_key(name)));
                match name {
                    BufferName::Custom(n) => {
                        assert(custom_names(changes, k) == custom_names(changes, j).insert(n@));
                    },
                    _ => {
                        assert(custom_names(changes, k) == custom_names(changes, j));
                        assert(name_key(name).0 < 4);
                        assert(core_keys().contains(name_key(name)));
                    },
                }
                assert forall|x: BufferKey| #[trigger] set_keys(changes, k).contains(x) && x.0 != 4 implies core_keys().contains(x) by {
                    if x != name_key(name) {
                        assert(set_keys(changes, j).contains(x));
                    }
                }
            },
            _ => {
                assert(set_keys(changes, k) == set_keys(changes, j));
                assert(custom_names(changes, k) == custom_names(changes, j));
            },
        }
    } else {
        assert(set_keys(changes, 0) == Set::<BufferKey>::empty());
    }
}

proof fn lemma_core_keys_len()
    ensures
        core_keys().finite(),
        core_keys().len() == 4,
        forall|x: BufferKey| #[trigger] core_keys().contains(x) ==> x.0 < 4,
{
    let e = Set::<BufferKey>::empty();
    let a = name_key(BufferName::Goal);
    let b = name_key(BufferName::Retrieval);
    let c = name_key(BufferName::Imaginal);
    let d = name_key(BufferName::Task);
    assert(!e.contains(a));
    assert(!e.insert(a).contains(b));
    assert(!e.insert(a).insert(b).contains(c));
    assert(!e.insert(a).insert(b).insert(c).contains(d));
    assert(core_keys() == e.insert(a).insert(b).insert(c).insert(d));
}

proof fn lemma_buffer_count(s: Seq<BufferState>)
    requires
        sorted_states(s),
    ensures
        state_map(s).dom().finite(),
        state_map(s).dom().len() == s.len(),
    decreases s.len(),
{
    if s.len() == 0 {
        assert(state_map(s).dom() =~= Set::empty());
    } else {
        let t = s.drop_last();
        assert(sorted_states(t));
        lemma_buffer_count(t);
        let k = name_key(s.last().name);
        assert(state_map(s).dom() =~= state_map(t).dom().insert(k)) by {
            assert forall|x: BufferKey| state_map(s).dom().contains(x) implies #[trigger] state_map(
                t,
            ).dom().insert(k).contains(x) by {
                let i = choose|i: int| 0 <= i < s.len() && name_key(#[trigger] s[i].name) == x;
                if i < s.len() - 1 {
                    assert(t[i] == s[i]);
                }
            }
            assert forall|x: BufferKey| #[trigger] state_map(t).dom().insert(k).contains(x) implies state_map(
                s,
            ).dom().contains(x) by {
                if x == k {
                    assert(name_key(s[s.len() - 1].name) == x);
                } else {
                    let i = choose|i: int| 0 <= i < t.len() && name_key(#[trigger] t[i].name) == x;
                    assert(s[i] == t[i]);
                }
            }
        }
        if state_map(t).dom().contains(k) {
            let i = choose|i: int| 0 <= i < t.len() && name_key(#[trigger] t[i].name) == k;
            assert(s[i] == t[i]);
            lemma_sorted_unique(s, i, s.len() - 1);
        }
    }
}

proof fn lemma_core_keys()
    ensures
        state_map(core_states()).dom() == core_keys(),
{
    let c = core_states();
    assert(name_key(c[0].name) == name_key(BufferName::Goal));
    assert(name_key(c[1].name) == name_key(BufferName::Retrieval));
    assert(name_key(c[2].name) == name_key(BufferName::Imaginal));
    assert(name_key(c[3].name) == name_key(BufferName::Task));
    assert forall|x: BufferKey| state_map(c).dom().contains(x) implies #[trigger] core_keys().contains(x) by {
        let i = choose|i: int| 0 <= i < c.len() && name_key(#[trigger] c[i].name) == x;
    }
    assert(state_map(c).dom() =~= core_keys());
}

proof fn lemma_buffers_of_run(states: Seq<SessionState>, changes: Seq<BufferChange>, agent: Seq<char>, k: nat)
    requires
        is_run(states, changes),
        is_fresh(states[0], agent),
        k <= changes.len(),
    ensures
        states[k as int].wf(),
        states[k as int].buffer_map().dom() == core_keys().union(set_keys(changes, k)),
        states[k as int].buffer_map().dom().finite(),
        states[k as int].buffer_map().dom().len() == 4 + custom_names(changes, k).len(),
    decreases k,
{
    lemma_core_keys_len();
    lemma_custom_keys(changes, k);
    if k == 0 {
        lemma_core_keys();
        assert(core_keys().union(Set::<BufferKey>::empty()) =~= core_keys());
        assert(custom_names(changes, 0) =~= Set::<Seq<char>>::empty());
    } else {
        let i = k - 1;
        lemma_buffers_of_run(states, changes, agent, (k - 1) as nat);
        lemma_custom_keys(changes, (k - 1) as nat);
        let before = states[i];
        let after = states[i + 1];
        let c = changes[i];
        assert(change_effect(before, after, c));
        let prior = core_keys().union(set_keys(changes, (k - 1) as nat));
        match c {
            BufferChange::SetBuffer { name, chunk_id, chunk_type, now_ms } => {
                assert(after.buffer_map().dom() =~= prior.insert(name_key(name)));
                assert(core_keys().union(set_keys(changes, k)) =~= prior.insert(name_key(name)));
                match name {
                    BufferName::Custom(n) => {
                        if custom_names(changes, (k - 1) as nat).contains(n@) {
                            assert(set_keys(changes, (k - 1) as nat).contains((4nat, n@)));
                            assert(prior.insert(name_key(name)) =~= prior);
                            assert(custom_names(changes, k) =~= custom_names(changes, (k - 1) as nat));
                        } else {
                            if prior.contains((4nat, n@)) {
                                if core_keys().contains((4nat, n@)) {
                                } else {
                                    assert(set_keys(changes, (k - 1) as nat).contains((4nat, n@)));
                                }
                            }
                            assert(!prior.contains(name_key(name)));
                        }
                    },
                    _ => {
                        assert(core_keys().contains(name_key(name)));
                        assert(prior.insert(name_key(name)) =~= prior);
                        assert(custom_names(changes, k) == custom_names(changes, (k - 1) as nat));
                    },
                }
            },
            BufferChange::ClearBuffer { name, now_ms } => {
                let r = choose|r: MemoryResult<BufferSnapshot>| #[trigger] clear_effect(before, after, name, now_ms, r);
                assert(after.buffer_map().dom() =~= prior);
                assert(set_keys(changes, k) == set_keys(changes, (k - 1) as nat));
            },
            BufferChange::CommitRetrieval { chunk_id, chunk_type, now_ms } => {
                assert(core_keys().contains(name_key(BufferName::Retrieval)));
                assert(after.buffer_map().dom() =~= prior);
                assert(set_keys(changes, k) == set_keys(changes, (k - 1) as nat));
            },
        }
    }
}

/// After any run of changes from a new session, the session holds the four
/// core buffers and each buffer that a change set, and nothing else; its
/// snapshot lists each of them once, four core buffers and one for each
/// distinct custom name that was set.
pub proof fn law_buffers_of_a_run(
    states: Seq<SessionState>,
    changes: Seq<BufferChange>,
    agent: Seq<char>,
    snaps: Seq<BufferSnapshot>,
)
    requires
        is_run(states, changes),
        is_fresh(states[0], agent),
        snaps == states.last().states().map_values(|b: BufferState| snapshot_of(b)),
    ensures
        states.last().buffer_map().dom() == core_keys().union(set_keys(changes, changes.len() as nat)),
        snaps.len() == states.last().buffer_map().dom().len(),
        snaps.len() == 4 + custom_names(changes, changes.len() as nat).len(),
{
    lemma_buffers_of_run(states, changes, agent, changes.len() as nat);
    lemma_buffer_count(states.last().states());
}

// ---- sessions of all agents ------------------------------------------------

/// Asking twice for an agent's session gives the same session and makes no
/// second one.
pub proof fn law_get_or_create_idempotent(
    r0: SessionRegistry,
    r1: SessionRegistry,
    r2: SessionRegistry,
    agent: Seq<char>,
    i1: usize,
    i2: usize,
)
    requires
        r0.wf(),
        get_or_create_effect(r0, r1, agent, i1),
        get_or_create_effect(r1, r2, agent, i2),
    ensures
        r2.sessions() == r1.sessions(),
        i1 == i2,
{
    if i1 != i2 {
        if i1 < i2 {
            assert(r2.keys()[i1 as int] != r2.keys()[i2 as int]);
        } else {
            assert(r2.keys()[i2 as int] != r2.keys()[i1 as int]);
        }
    }
}

/// Working on one agent's session leaves every other agent's session as it
/// was.
pub proof fn law_sessions_are_isolated(
    before: SessionRegistry,
    after: SessionRegistry,
    agent: Seq<char>,
    worked: SessionState,
    other: Seq<char>,
)
    requires
        after.session_map() == before.session_map().insert(agent, worked),
        other != agent,
    ensures
        after.session_map().contains_key(other) == before.session_map().contains_key(other),
        before.session_map().contains_key(other) ==> after.session_map()[other]
            == before.session_map()[other],
{
}

// ---- the memory store --------------------------------------------------------

/// A chunk that was created reads back as created.
pub proof fn law_read_after_create(
    before: MemoryStore,
    after: MemoryStore,
    req: CreateChunk,
    r: MemoryResult<Chunk>,
    read: Option<Chunk>,
)
    requires
        before.wf(),
        create_effect(before, after, req, r),
        r is Ok,
        get_result(after, req.chunk.agent_id@, req.chunk.chunk_id@, read),
    ensures
        read matches Some(c) && same_chunk(c, req.chunk),
{
}

/// Creating the same chunk twice: the second request is a conflict and
/// changes nothing.
pub proof fn law_create_twice_conflicts(
    s0: MemoryStore,
    s1: MemoryStore,
    s2: MemoryStore,
    req: CreateChunk,
    again: CreateChunk,
    r1: MemoryResult<Chunk>,
    r2: MemoryResult<Chunk>,
)
    requires
        s0.wf(),
        create_effect(s0, s1, req, r1),
        r1 is Ok,
        create_effect(s1, s2, again, r2),
        blank_field_error(again.fields()) is None,
        again.chunk.agent_id@ == req.chunk.agent_id@,
        again.chunk.chunk_id@ == req.chunk.chunk_id@,
    ensures
        r2 matches Err(MemoryError::Conflict(_)),
        s2 == s1,
{
    assert(blank_field_error(req.fields()) is None);
}

/// A deleted chunk no longer reads, and deleting it again is `NotFound`.
pub proof fn law_deleted_chunk_is_gone(
    s0: MemoryStore,
    s1: MemoryStore,
    s2: MemoryStore,
    agent: Seq<char>,
    id: Seq<char>,
    r1: MemoryResult<()>,
    read: Option<Chunk>,
    r2: MemoryResult<()>,
)
    requires
        s0.wf(),
        delete_effect(s0, s1, agent, id, r1),
        r1 is Ok,
        get_result(s1, agent, id, read),
        delete_effect(s1, s2, agent, id, r2),
    ensures
        read is None,
        r2 matches Err(MemoryError::NotFound(_)),
        s2 == s1,
{
}

/// A deleted chunk keeps its key: creating a chunk under it again is a
/// conflict and changes nothing.
pub proof fn law_deleted_key_stays_taken(
    s0: MemoryStore,
    s1: MemoryStore,
    s2: MemoryStore,
    req: CreateChunk,
    r1: MemoryResult<()>,
    r2: MemoryResult<Chunk>,
)
    requires
        s0.wf(),
        delete_effect(s0, s1, req.chunk.agent_id@, req.chunk.chunk_id@, r1),
        r1 is Ok,
        create_effect(s1, s2, req, r2),
        blank_field_error(req.fields()) is None,
    ensures
        r2 matches Err(MemoryError::Conflict(_)),
        s2 == s1,
{
}

/// Optimistic versions: of two updates made against the same version, the
/// second is a conflict and changes nothing.
pub proof fn law_stale_update_conflicts(
    s0: MemoryStore,
    s1: MemoryStore,
    s2: MemoryStore,
    req: UpdateChunk,
    again: UpdateChunk,
    r1: MemoryResult<Chunk>,
    r2: MemoryResult<Chunk>,
)
    requires
        s0.wf(),
        update_effect(s0, s1, req, r1),
        r1 is Ok,
        update_effect(s1, s2, again, r2),
        blank_field_error(again.fields()) is None,
        again.agent_id@ == req.agent_id@,
        again.chunk_id@ == req.chunk_id@,
        again.expected_version == req.expected_version,
        s0.chunk_map()[(req.agent_id@, req.chunk_id@)].version < u64::MAX,
    ensures
        r2 matches Err(MemoryError::Conflict(_)),
        s2 == s1,
{
}

/// A practice event id is recorded once: a second event with the same id
/// is a conflict and changes nothing.
pub proof fn law_duplicate_event_conflicts(
    s0: MemoryStore,
    s1: MemoryStore,
    s2: MemoryStore,
    e: PracticeEventWrite,
    again: PracticeEventWrite,
    r1: MemoryResult<()>,
    r2: MemoryResult<()>,
)
    requires
        s0.wf(),
        append_effect(s0, s1, e, r1),
        r1 is Ok,
        append_effect(s1, s2, again, r2),
        blank_field_error(again.fields()) is None,
        s1.is_active((again.agent_id@, again.chunk_id@)),
        again.event_id@ == e.event_id@,
    ensures
        r2 matches Err(MemoryError::Conflict(_)),
        s2 == s1,
{
    assert(blank_field_error(e.fields()) is None);
    assert(s0.is_active((e.agent_id@, e.chunk_id@)));
    assert(!s0.event_map().contains_key(e.event_id@));
    assert(s1.event_map().contains_key(again.event_id@));
}

// ---- production rules --------------------------------------------------------

/// Conflict resolution selects one rule: two rules that each apply and are
/// each listed before every other applying rule are the same rule.
pub proof fn law_selected_rule_is_unique(
    rules: Seq<ProductionRule>,
    buffers: Seq<BufferSnapshot>,
    retrieved: Option<Chunk>,
    i: int,
    j: int,
)
    requires
        0 <= i < rules.len(),
        0 <= j < rules.len(),
        rule_applies(rules[i], buffers, retrieved),
        rule_applies(rules[j], buffers, retrieved),
        forall|k: int| 0 <= k < rules.len() && k != i && rule_applies(#[trigger] rules[k], buffers, retrieved)
            ==> listed_before(rules, i, k),
        forall|k: int| 0 <= k < rules.len() && k != j && rule_applies(#[trigger] rules[k], buffers, retrieved)
            ==> listed_before(rules, j, k),
    ensures
        i == j,
{
    if i != j {
        assert(listed_before(rules, i, j));
        assert(listed_before(rules, j, i));
        crate::rules::lemma_listed_before_asymmetric(rules, i, j);
    }
}

/// A practice that was recorded is part of its chunk's history, as
/// retrieval reads it.
pub proof fn law_recorded_practice_is_in_history(
    before: MemoryStore,
    after: MemoryStore,
    e: PracticeEventWrite,
    r: MemoryResult<()>,
    history: Seq<PracticeEventWrite>,
)
    requires
        before.wf(),
        append_effect(before, after, e, r),
        r is Ok,
        is_history(history, after.event_map(), e.agent_id@, e.chunk_id@),
    ensures
        exists|k: int| 0 <= k < history.len() && history[k] == e,
{
    assert(after.event_map().contains_key(e.event_id@));
    assert(after.event_map()[e.event_id@] == e);
    let k = choose|k: int| 0 <= k < history.len() && history[k].event_id@ == e.event_id@;
    assert(history[k] == e);
}

/// The rows that the query admits are rows of the store, active and
/// admitted, and every such row is among them.
proof fn lemma_admitted_rows(rows: Seq<StoredChunkState>, q: CandidateQuery)
    ensures
        forall|k: int| 0 <= k < admitted_rows(rows, q).len() ==> {
            let a = #[trigger] admitted_rows(rows, q)[k];
            &&& a.active
            &&& admits(q, a.chunk)
            &&& exists|i: int| 0 <= i < rows.len() && rows[i] == a
        },
        forall|i: int| 0 <= i < rows.len() && (#[trigger] rows[i]).active && admits(q, rows[i].chunk)
            ==> exists|k: int| 0 <= k < admitted_rows(rows, q).len() && admitted_rows(rows, q)[k] == rows[i],
    decreases rows.len(),
{
    if rows.len() > 0 {
        let init = rows.drop_last();
        lemma_admitted_rows(init, q);
        let a = admitted_rows(rows, q);
        let b = admitted_rows(init, q);
        assert forall|k: int| 0 <= k < a.len() implies {
            let x = #[trigger] a[k];
            &&& x.active
            &&& admits(q, x.chunk)
            &&& exists|i: int| 0 <= i < rows.len() && rows[i] == x
        } by {
            if k < b.len() {
                assert(a[k] == b[k]);
                let i = choose|i: int| 0 <= i < init.len() && init[i] == b[k];
                assert(rows[i] == a[k]);
            } else {
                assert(a[k] == rows.last());
                assert(rows[rows.len() - 1] == a[k]);
            }
        }
        assert forall|i: int| 0 <= i < rows.len() && (#[trigger] rows[i]).active && admits(q, rows[i].chunk)
            implies exists|k: int| 0 <= k < a.len() && a[k] == rows[i] by {
            if i < rows.len() - 1 {
                assert(init[i] == rows[i]);
                let k = choose|k: int| 0 <= k < b.len() && b[k] == init[i];
                assert(a[k] == rows[i]);
            } else {
                assert(a[a.len() - 1] == rows[i]);
            }
        }
    }
}

/// Retrieval considers exactly the query's agent's active chunks (of the
/// type it names): every pooled chunk is one, and every one is pooled.
pub proof fn law_pool_is_the_admitted_chunks(store: MemoryStore, q: CandidateQuery, pool: Seq<CandidateEntry>)
    requires
        store.wf(),
        pool.len() == admitted_rows(store.chunk_rows(), q).len(),
        forall|k: int|
            0 <= k < pool.len() ==> entry_ok(
                store,
                q,
                #[trigger] pool[k],
                admitted_rows(store.chunk_rows(), q)[k].chunk,
            ),
    ensures
        forall|k: int| 0 <= k < pool.len() ==> {
            let c = (#[trigger] pool[k]).chunk;
            &&& store.is_active((c.agent_id@, c.chunk_id@))
            &&& c.agent_id@ == q.agent_id@
            &&& (q.chunk_type matches Some(t) ==> c.chunk_type@ == t@)
        },
        forall|key: ChunkKey| #[trigger] store.is_active(key) && key.0 == q.agent_id@ && (q.chunk_type matches Some(t)
            ==> store.chunk_map()[key].chunk.chunk_type@ == t@) ==> exists|k: int| 0 <= k < pool.len()
            && pool[k].chunk.agent_id@ == key.0 && pool[k].chunk.chunk_id@ == key.1,
{
    let rows = store.chunk_rows();
    let f = |s: StoredChunkState| chunk_key(s);
    lemma_admitted_rows(rows, q);
    assert forall|k: int| 0 <= k < pool.len() implies {
        let c = (#[trigger] pool[k]).chunk;
        &&& store.is_active((c.agent_id@, c.chunk_id@))
        &&& c.agent_id@ == q.agent_id@
        &&& (q.chunk_type matches Some(t) ==> c.chunk_type@ == t@)
    } by {
        let a = admitted_rows(rows, q)[k];
        let i = choose|i: int| 0 <= i < rows.len() && rows[i] == a;
        lemma_keyed_at(rows, f, i);
    }
    assert forall|key: ChunkKey| #[trigger] store.is_active(key) && key.0 == q.agent_id@ && (q.chunk_type matches Some(t)
        ==> store.chunk_map()[key].chunk.chunk_type@ == t@) implies exists|k: int| 0 <= k < pool.len()
        && pool[k].chunk.agent_id@ == key.0 && pool[k].chunk.chunk_id@ == key.1 by {
        let i = choose|i: int| 0 <= i < rows.len() && f(#[trigger] rows[i]) == key;
        lemma_keyed_at(rows, f, i);
        assert(rows[i].active && admits(q, rows[i].chunk));
        let k = choose|k: int| 0 <= k < admitted_rows(rows, q).len() && admitted_rows(rows, q)[k] == rows[i];
        assert(pool[k].chunk.agent_id@ == key.0);
    }
}

/// The strength of every stored association from `src` to `dst` is among
/// the strengths retrieval reads for that pair.
proof fn lemma_strength_listed(rows: Seq<AssociationWrite>, i: int, agent: Seq<char>, src: Seq<char>, dst: Seq<char>)
    requires
        0 <= i < rows.len(),
        rows[i].agent_id@ == agent,
        rows[i].src_chunk_id@ == src,
        rows[i].dst_chunk_id@ == dst,
    ensures
        strengths(rows, agent, src, dst).contains(rows[i].strength),
    decreases rows.len(),
{
    let s = strengths(rows, agent, src, dst);
    if i == rows.len() - 1 {
        assert(s[s.len() - 1] == rows[i].strength);
    } else {
        lemma_strength_listed(rows.drop_last(), i, agent, src, dst);
        let rest = strengths(rows.drop_last(), agent, src, dst);
        let k = choose|k: int| 0 <= k < rest.len() && rest[k] == rows[i].strength;
        assert(s[k] == rest[k]);
    }
}

/// An association that was recorded spreads: its strength is among those
/// that retrieval reads from its source chunk to its target.
pub proof fn law_association_reaches_retrieval(
    before: MemoryStore,
    after: MemoryStore,
    a: AssociationWrite,
    r: MemoryResult<()>,
)
    requires
        before.wf(),
        associate_effect(before, after, a, r),
        r is Ok,
    ensures
        strengths(after.association_rows(), a.agent_id@, a.src_chunk_id@, a.dst_chunk_id@).contains(a.strength),
{
    let rows = after.association_rows();
    let f = |x: AssociationWrite| association_key(x);
    assert(after.association_map().contains_key(association_key(a)));
    let i = choose|i: int| 0 <= i < rows.len() && f(#[trigger] rows[i]) == association_key(a);
    lemma_keyed_at(rows, f, i);
    lemma_strength_listed(rows, i, a.agent_id@, a.src_chunk_id@, a.dst_chunk_id@);
}


// ---- percent-encoding ------------------------------------------------------

/// The value of an upper-case hexadecimal digit.
pub open spec fn hex_value(c: char) -> nat {
    if '0' <= c && c <= '9' {
        (c as u32 - 48) as nat
    } else if 'A' <= c && c <= 'F' {
        (c as u32 - 55) as nat
    } else {
        0
    }
}

/// Percent-decoding: `%` and two hexadecimal digits give the byte they
/// write; any other character gives its own code as a byte.
pub open spec fn percent_decoded(s: Seq<char>) -> Seq<u8>
    decreases s.len(),
{
    if s.len() == 0 {
        Seq::empty()
    } else if s[0] == '%' && s.len() >= 3 {
        seq![(hex_value(s[1]) * 16 + hex_value(s[2])) as u8] + percent_decoded(s.skip(3))
    } else {
        seq![(s[0] as u32) as u8] + percent_decoded(s.skip(1))
    }
}

/// The bytes written as their own characters.
pub open spec fn as_chars(bs: Seq<u8>) -> Seq<char> {
    bs.map_values(|b: u8| (b as u32) as char)
}

proof fn lemma_encoded_front(b: u8, rest: Seq<u8>)
    ensures
        encoded(seq![b] + rest) == encode_byte(b) + encoded(rest),
    decreases rest.len(),
{
    let x = seq![b] + rest;
    if rest.len() == 0 {
        assert(x =~= seq![b]);
        assert(x.drop_last() =~= Seq::<u8>::empty());
        assert(encoded(Seq::<u8>::empty()) == Seq::<char>::empty());
        assert(encoded(x) == encoded(x.drop_last()) + encode_byte(x.last()));
        assert(encoded(x) =~= encode_byte(b));
        assert(encode_byte(b) + encoded(rest) =~= encode_byte(b));
    } else {
        lemma_encoded_front(b, rest.drop_last());
        assert(x.drop_last() =~= seq![b] + rest.drop_last());
        assert(x.last() == rest.last());
        assert(encoded(x) == encoded(x.drop_last()) + encode_byte(x.last()));
        assert(encoded(rest) == encoded(rest.drop_last()) + encode_byte(rest.last()));
        assert(encode_byte(b) + encoded(rest) =~= encode_byte(b) + encoded(rest.drop_last()) + encode_byte(
            rest.last(),
        ));
    }
}

proof fn lemma_decode_byte(b: u8, rest: Seq<char>)
    ensures
        percent_decoded(encode_byte(b) + rest) == seq![b] + percent_decoded(rest),
{
    let e = encode_byte(b);
    let s = e + rest;
    if is_unreserved(b) {
        assert(s[0] == (b as u32) as char);
        assert(s.skip(1) =~= rest);
        assert(((b as u32) as char) as u32 == b as u32);
    } else {
        let hi = (b / 16) as nat;
        let lo = (b % 16) as nat;
        assert(s[0] == '%');
        assert(s[1] == hex_digit(hi));
        assert(s[2] == hex_digit(lo));
        assert(s.skip(3) =~= rest);
        assert(hex_value(hex_digit(hi)) == hi) by {
            if hi < 10 {
                assert(((hi + 48) as u32) as char as u32 == (hi + 48) as u32);
            } else {
                assert(((hi + 55) as u32) as char as u32 == (hi + 55) as u32);
            }
        }
        assert(hex_value(hex_digit(lo)) == lo) by {
            if lo < 10 {
                assert(((lo + 48) as u32) as char as u32 == (lo + 48) as u32);
            } else {
                assert(((lo + 55) as u32) as char as u32 == (lo + 55) as u32);
            }
        }
        assert(hi * 16 + lo == b);
    }
}

/// Percent-decoding what `encode_component` writes gives back the bytes it
/// encoded, so encoding loses nothing.
pub proof fn law_percent_encoding_round_trips(bs: Seq<u8>)
    ensures
        percent_decoded(encoded(bs)) == bs,
    decreases bs.len(),
{
    if bs.len() > 0 {
        let rest = bs.skip(1);
        assert(bs =~= seq![bs[0]] + rest);
        lemma_encoded_front(bs[0], rest);
        lemma_decode_byte(bs[0], encoded(rest));
        law_percent_encoding_round_trips(rest);
    }
}

proof fn lemma_encoded_len(bs: Seq<u8>)
    ensures
        encoded(bs).len() >= bs.len(),
        (exists|i: int| 0 <= i < bs.len() && !is_unreserved(#[trigger] bs[i])) ==> encoded(bs).len() > bs.len(),
    decreases bs.len(),
{
    if bs.len() > 0 {
        let t = bs.drop_last();
        lemma_encoded_len(t);
        if exists|i: int| 0 <= i < bs.len() && !is_unreserved(#[trigger] bs[i]) {
            let i = choose|i: int| 0 <= i < bs.len() && !is_unreserved(#[trigger] bs[i]);
            if i < bs.len() - 1 {
                assert(t[i] == bs[i]);
            }
        }
    }
}

/// Encoding leaves a byte string written as it is exactly when every byte
/// is an ASCII letter or digit or one of `-`, `_`, `.`, `~`.
pub proof fn law_unreserved_text_is_kept(bs: Seq<u8>)
    ensures
        encoded(bs) == as_chars(bs) <==> forall|i: int| 0 <= i < bs.len() ==> is_unreserved(#[trigger] bs[i]),
    decreases bs.len(),
{
    lemma_encoded_len(bs);
    if bs.len() > 0 {
        let t = bs.drop_last();
        law_unreserved_text_is_kept(t);
        if forall|i: int| 0 <= i < bs.len() ==> is_unreserved(#[trigger] bs[i]) {
            assert(forall|i: int| 0 <= i < t.len() ==> is_unreserved(#[trigger] t[i]) ) by {
                assert forall|i: int| 0 <= i < t.len() implies is_unreserved(#[trigger] t[i]) by {
                    assert(t[i] == bs[i]);
                }
            }
            assert(is_unreserved(bs.last()));
            assert(as_chars(bs) =~= as_chars(t).push((bs.last() as u32) as char));
            assert(encoded(bs) =~= as_chars(bs));
        } else {
            assert(as_chars(bs).len() == bs.len());
        }
    } else {
        assert(as_chars(bs) =~= Seq::<char>::empty());
    }
}


// ---- what the parts answer ---------------------------------------------------

/// A chunk answers a cue only with a slot under the cue's key whose value
/// has the cue's type and, once trimmed and lower-cased, the cue's text;
/// any other value of that key does not answer it. Numbers are compared
/// where they are read, as floating point.
pub proof fn law_cue_answered_by_equal_value(c: Chunk, cue: Slot)
    requires
        !(cue.value is Number),
    ensures
        cue_check(c, cue) == CueCheck::Matched <==> (slot_value(c.slots@, cue.key@) matches Some(v) && !(v is Number)
            && value_type_text(v) == value_type_text(cue.value) && normalized_text(v) == normalized_text(cue.value)),
        slot_value(c.slots@, cue.key@) matches Some(v) ==> (normalized_text(v) != normalized_text(cue.value)
            ==> cue_check(c, cue) == CueCheck::Unmatched),
{
}

/// Ranking by utility follows the order of the `f64` values: a larger
/// positive value ranks higher, every positive value ranks above every
/// negative one, a negative value of smaller magnitude ranks above one of
/// larger magnitude, and the two zeros tie.
pub proof fn law_utility_rank_follows_value(a: u64, b: u64)
    ensures
        a < 0x8000_0000_0000_0000 && b < 0x8000_0000_0000_0000 && a > b ==> float_rank(a) > float_rank(b),
        a < 0x8000_0000_0000_0000 && b >= 0x8000_0000_0000_0000 && (a != 0 || b != 0x8000_0000_0000_0000)
            ==> float_rank(a) > float_rank(b),
        a >= 0x8000_0000_0000_0000 && b >= 0x8000_0000_0000_0000 && a < b ==> float_rank(a) > float_rank(b),
        float_rank(0) == float_rank(0x8000_0000_0000_0000),
{
}

/// Of two rules that are equally specific, the one whose utility is the
/// larger non-negative value, or that is non-negative against a negative
/// one, ranks first.
pub proof fn law_higher_utility_ranks_first(x: ProductionRule, y: ProductionRule)
    requires
        specificity_of(x) == specificity_of(y),
        x.utility < 0x8000_0000_0000_0000,
        y.utility >= 0x8000_0000_0000_0000 && y.utility != 0x8000_0000_0000_0000 || (y.utility
            < x.utility),
    ensures
        ranks_before(x, y),
{
    law_utility_rank_follows_value(x.utility, y.utility);
}

/// A buffer condition holds of a buffer only when it is the named buffer,
/// it holds a chunk, and that chunk has the id and the type the condition
/// pins; and whenever all that is so, it holds.
pub proof fn law_buffer_condition_pins(c: BufferCondition, s: BufferSnapshot)
    ensures
        holds_on(c, s) <==> {
            &&& name_key(s.name) == name_key(c.buffer)
            &&& s.chunk_id is Some
            &&& forall|id: ChunkId| c.chunk_id == Some(id) ==> s.chunk_id->0@ == id@
            &&& forall|t: ChunkType| c.chunk_type == Some(t) ==> (s.chunk_type is Some && s.chunk_type->0@ == t@)
        },
{
    if let Some(id) = c.chunk_id {
        assert(c.chunk_id == Some(id));
    }
    if let Some(t) = c.chunk_type {
        assert(c.chunk_type == Some(t));
    }
}

/// Each core buffer's name reads as that core buffer, never as a custom
/// one, and any name that reads as a buffer is that buffer's name.
pub proof fn law_core_buffer_names_read_back(n: BufferName, v: Seq<char>)
    ensures
        !(n is Custom) ==> parsed_buffer_name(name_text(n)) == Some(n),
        parsed_buffer_name(v) matches Some(b) ==> (!(b is Custom) ==> name_text(b) == v),
        parsed_buffer_name(v) matches Some(b) ==> ((b is Custom) ==> v != "goal"@ && v != "retrieval"@
            && v != "imaginal"@ && v != "task"@ && !is_blank(v)),
{
    reveal_strlit("goal");
    reveal_strlit("retrieval");
    reveal_strlit("imaginal");
    reveal_strlit("task");
    assert("goal"@[0] == 'g' && "retrieval"@[0] == 'r' && "imaginal"@[0] == 'i' && "task"@[0] == 't');
    assert("goal"@.len() == 4 && "retrieval"@.len() == 9 && "imaginal"@.len() == 8 && "task"@.len() == 4);
    match n {
        BufferName::Goal => {},
        BufferName::Retrieval => {},
        BufferName::Imaginal => {},
        BufferName::Task => {},
        BufferName::Custom(_) => {},
    }
}


// ---- numbers on the command line --------------------------------------------

/// Every character is a decimal digit.
pub open spec fn all_digits(s: Seq<char>) -> bool {
    forall|i: int| 0 <= i < s.len() ==> is_ascii_digit(#[trigger] s[i])
}

/// The reader's state after `s`, started in state `q`.
pub open spec fn number_run_from(q: u8, s: Seq<char>) -> u8
    decreases s.len(),
{
    if s.len() == 0 {
        q
    } else {
        number_step(number_run_from(q, s.drop_last()), s.last())
    }
}

proof fn lemma_run_from_start(s: Seq<char>)
    ensures
        number_run(s) == number_run_from(0, s),
    decreases s.len(),
{
    if s.len() > 0 {
        lemma_run_from_start(s.drop_last());
    }
}

proof fn lemma_run_one(q: u8, c: char)
    ensures
        number_run_from(q, seq![c]) == number_step(q, c),
{
    let s = seq![c];
    assert(s.drop_last() =~= Seq::<char>::empty());
    assert(s.last() == c);
    assert(number_run_from(q, s.drop_last()) == q);
}

proof fn lemma_run_concat(q: u8, a: Seq<char>, b: Seq<char>)
    ensures
        number_run_from(q, a + b) == number_run_from(number_run_from(q, a), b),
    decreases b.len(),
{
    if b.len() == 0 {
        assert(a + b =~= a);
    } else {
        lemma_run_concat(q, a, b.drop_last());
        assert((a + b).drop_last() =~= a + b.drop_last());
        assert((a + b).last() == b.last());
    }
}

/// Digits keep the reader in the digit state it reaches: the integer
/// digits from the start, a sign or integer digits; the fraction digits
/// after a point; the exponent digits after the mark or its sign.
proof fn lemma_run_digits(q: u8, d: Seq<char>)
    requires
        all_digits(d),
        d.len() > 0,
    ensures
        (q == 0 || q == 1 || q == 2) ==> number_run_from(q, d) == 2,
        (q == 3 || q == 4 || q == 5) ==> number_run_from(q, d) == 5,
        (q == 6 || q == 7 || q == 8) ==> number_run_from(q, d) == 8,
    decreases d.len(),
{
    let t = d.drop_last();
    assert(is_ascii_digit(d.last()));
    if t.len() > 0 {
        assert(all_digits(t)) by {
            assert forall|i: int| 0 <= i < t.len() implies is_ascii_digit(#[trigger] t[i]) by {
                assert(t[i] == d[i]);
            }
        }
        lemma_run_digits(q, t);
    } else {
        assert(number_run_from(q, t) == q);
    }
}

/// A run of decimal digits, with or without a sign, is a number that
/// `f64::from_str` reads.
pub proof fn law_digits_are_numbers(d: Seq<char>, sign: Seq<char>)
    requires
        all_digits(d),
        d.len() > 0,
        sign.len() == 0 || (sign.len() == 1 && is_sign(sign[0])),
    ensures
        float_syntax(d),
        float_syntax(sign + d),
{
    lemma_run_from_start(d);
    lemma_run_digits(0, d);
    lemma_run_from_start(sign + d);
    lemma_run_concat(0, sign, d);
    if sign.len() == 1 {
        assert(sign =~= seq![sign[0]]);
        lemma_run_one(0, sign[0]);
        assert(number_run_from(0, sign) == 1);
        lemma_run_digits(1, d);
    } else {
        assert(sign + d =~= d);
    }
}

/// Digits, a point and digits, with digits on at least one side of the
/// point, and optionally an exponent (`e` or `E`, an optional sign and
/// digits), make a number that `f64::from_str` reads.
pub proof fn law_decimals_are_numbers(i: Seq<char>, f: Seq<char>, mark: char, sign: Seq<char>, e: Seq<char>)
    requires
        all_digits(i),
        all_digits(f),
        i.len() + f.len() > 0,
        is_exp_mark(mark),
        sign.len() == 0 || (sign.len() == 1 && is_sign(sign[0])),
        all_digits(e),
        e.len() > 0,
    ensures
        float_syntax(i + seq!['.'] + f),
        float_syntax(i + seq!['.'] + f + seq![mark] + sign + e),
        i.len() > 0 ==> float_syntax(i + seq![mark] + sign + e),
{
    let m = i + seq!['.'] + f;
    let qi: u8 = if i.len() > 0 { 2 } else { 0 };
    if i.len() > 0 {
        lemma_run_digits(0, i);
    } else {
        assert(number_run_from(0, i) == 0);
    }
    lemma_run_concat(0, i, seq!['.']);
    assert(seq!['.'].drop_last() =~= Seq::<char>::empty());
    let qp: u8 = if i.len() > 0 { 4 } else { 3 };
    lemma_run_one(qi, '.');
    assert(number_run_from(qi, seq!['.']) == qp);
    lemma_run_concat(0, i + seq!['.'], f);
    let qf: u8 = if f.len() > 0 { 5 } else { qp };
    if f.len() > 0 {
        lemma_run_digits(qp, f);
    } else {
        assert(number_run_from(qp, f) == qp);
    }
    assert(number_run_from(0, m) == qf);
    assert(qf == 4 || qf == 5);
    lemma_run_from_start(m);
    // the exponent
    assert(seq![mark].drop_last() =~= Seq::<char>::empty());
    lemma_run_concat(0, m, seq![mark]);
    lemma_run_one(qf, mark);
    assert(number_run_from(qf, seq![mark]) == 6);
    lemma_run_concat(0, m + seq![mark], sign);
    let qs: u8 = if sign.len() == 1 { 7 } else { 6 };
    if sign.len() == 1 {
        assert(sign =~= seq![sign[0]]);
        lemma_run_one(6, sign[0]);
    } else {
        assert(number_run_from(6, sign) == 6);
    }
    assert(number_run_from(6, sign) == qs);
    lemma_run_concat(0, m + seq![mark] + sign, e);
    lemma_run_digits(qs, e);
    lemma_run_from_start(m + seq![mark] + sign + e);
    if i.len() > 0 {
        lemma_run_concat(0, i, seq![mark]);
        lemma_run_one(2, mark);
        assert(number_run_from(2, seq![mark]) == 6);
        lemma_run_concat(0, i + seq![mark], sign);
        lemma_run_concat(0, i + seq![mark] + sign, e);
        lemma_run_from_start(i + seq![mark] + sign + e);
    }
}

} // verus!
