//! The in-memory repository behind the API: chunks with optimistic versions
//! and soft deletion, practice events, associations, buffer pointers and
//! production-rule records.
use vstd::prelude::*;

use crate::buffers::{BufferName, name_key};
use crate::chunk::{
    Chunk, PracticeEvent, Slot, SlotValue, normalized_text, slot_key, slot_map, slot_value, slots_wf,
    upsert_slot_in, value_type_text,
};
use crate::order::{
    chars_lt, lemma_chars_lt_total, lemma_chars_lt_transitive, str_eq, str_lt,
};
use crate::error::{MemoryError, MemoryResult};
use crate::ids::{AgentId, ChunkId, RuleId};
use crate::keyed::{
    has_key, keyed_map, keys_unique, lemma_keyed_at, lemma_keyed_empty, lemma_keyed_push,
    lemma_keyed_update,
};
use crate::rules::{BufferCondition, ProductionRule, RetrievedChunkCondition};
use crate::text::{blank, is_blank};

verus! {

/// The first field of `fields` (name, value) whose value is blank, as the
/// message that refuses it.
pub open spec fn blank_field_error(fields: Seq<(Seq<char>, Seq<char>)>) -> Option<Seq<char>>
    decreases fields.len(),
{
    if fields.len() == 0 {
        None
    } else if is_blank(fields[0].1) {
        Some(fields[0].0 + " must not be empty"@)
    } else {
        blank_field_error(fields.drop_first())
    }
}

/// The result of a validation that `blank_field_error` decides.
pub open spec fn validated(r: MemoryResult<()>, fields: Seq<(Seq<char>, Seq<char>)>) -> bool {
    match blank_field_error(fields) {
        None => r is Ok,
        Some(m) => r matches Err(MemoryError::Validation(e)) && e@ == m,
    }
}

/// `r` is the refusal of the first blank field of `fields`.
pub open spec fn refused<T>(r: MemoryResult<T>, fields: Seq<(Seq<char>, Seq<char>)>) -> bool {
    match blank_field_error(fields) {
        None => false,
        Some(m) => r matches Err(MemoryError::Validation(e)) && e@ == m,
    }
}

fn require_text(field: &str, value: &str) -> (r: MemoryResult<()>)
    ensures
        is_blank(value@) ==> (r matches Err(MemoryError::Validation(e)) && e@ == field@
            + " must not be empty"@),
        !is_blank(value@) ==> r is Ok,
{
    if blank(value) {
        Err(MemoryError::Validation(String::from_str(field).concat(" must not be empty")))
    } else {
        Ok(())
    }
}

/// The bit pattern of the `f64` value 1.0, the weight of an encoding event.
pub open spec fn unit_weight() -> u64 {
    0x3FF0_0000_0000_0000
}

/// A request to store a new chunk, with the id of its encoding event.
#[derive(Debug, Clone, PartialEq)]
pub struct CreateChunk {
    pub chunk: Chunk,
    pub initial_practice_event_id: String,
}

impl CreateChunk {
    pub open spec fn fields(&self) -> Seq<(Seq<char>, Seq<char>)> {
        seq![
            ("agent_id"@, self.chunk.agent_id@),
            ("chunk_id"@, self.chunk.chunk_id@),
            ("chunk_type"@, self.chunk.chunk_type@),
            ("initial_practice_event_id"@, self.initial_practice_event_id@),
        ]
    }

    pub fn validate(&self) -> (r: MemoryResult<()>)
        ensures
            validated(r, self.fields()),
    {
        proof {
            reveal_with_fuel(blank_field_error, 5);
        }
        require_text("agent_id", self.chunk.agent_id.as_str())?;
        require_text("chunk_id", self.chunk.chunk_id.as_str())?;
        require_text("chunk_type", self.chunk.chunk_type.as_str())?;
        require_text("initial_practice_event_id", self.initial_practice_event_id.as_str())?;
        Ok(())
    }
}

/// A request to replace a chunk's slots, given the version it was read at.
#[derive(Debug, Clone, PartialEq)]
pub struct UpdateChunk {
    pub agent_id: AgentId,
    pub chunk_id: ChunkId,
    pub expected_version: u64,
    pub slots: Vec<Slot>,
}

impl UpdateChunk {
    pub open spec fn fields(&self) -> Seq<(Seq<char>, Seq<char>)> {
        seq![("agent_id"@, self.agent_id@), ("chunk_id"@, self.chunk_id@)]
    }

    pub fn validate(&self) -> (r: MemoryResult<()>)
        ensures
            validated(r, self.fields()),
    {
        proof {
            reveal_with_fuel(blank_field_error, 5);
        }
        require_text("agent_id", self.agent_id.as_str())?;
        require_text("chunk_id", self.chunk_id.as_str())?;
        Ok(())
    }
}

/// A practice event (encoding, retrieval or rehearsal) of a chunk.
///
/// `weight` is an `f64`, carried as its bit pattern.
#[derive(Debug, Clone, PartialEq)]
pub struct PracticeEventWrite {
    pub event_id: String,
    pub agent_id: AgentId,
    pub chunk_id: ChunkId,
    pub occurred_at_ms: u64,
    pub kind: String,
    pub weight: u64,
}

impl PracticeEventWrite {
    pub open spec fn fields(&self) -> Seq<(Seq<char>, Seq<char>)> {
        seq![
            ("event_id"@, self.event_id@),
            ("agent_id"@, self.agent_id@),
            ("chunk_id"@, self.chunk_id@),
            ("kind"@, self.kind@),
        ]
    }

    pub fn validate(&self) -> (r: MemoryResult<()>)
        ensures
            validated(r, self.fields()),
    {
        proof {
            reveal_with_fuel(blank_field_error, 5);
        }
        require_text("event_id", self.event_id.as_str())?;
        require_text("agent_id", self.agent_id.as_str())?;
        require_text("chunk_id", self.chunk_id.as_str())?;
        require_text("kind", self.kind.as_str())?;
        Ok(())
    }

    pub fn copy(&self) -> (r: Self)
        ensures
            r == *self,
    {
        PracticeEventWrite {
            event_id: self.event_id.clone(),
            agent_id: self.agent_id.copy(),
            chunk_id: self.chunk_id.copy(),
            occurred_at_ms: self.occurred_at_ms,
            kind: self.kind.clone(),
            weight: self.weight,
        }
    }
}

/// A spreading-activation association from one chunk to another.
///
/// `strength` is an `f64`, carried as its bit pattern.
#[derive(Debug, Clone, PartialEq)]
pub struct AssociationWrite {
    pub agent_id: AgentId,
    pub src_chunk_id: ChunkId,
    pub dst_chunk_id: ChunkId,
    pub source: String,
    pub strength: u64,
    pub fan: u64,
    pub updated_at_ms: u64,
}

impl AssociationWrite {
    pub open spec fn fields(&self) -> Seq<(Seq<char>, Seq<char>)> {
        seq![
            ("agent_id"@, self.agent_id@),
            ("src_chunk_id"@, self.src_chunk_id@),
            ("dst_chunk_id"@, self.dst_chunk_id@),
            ("source"@, self.source@),
        ]
    }

    pub fn validate(&self) -> (r: MemoryResult<()>)
        ensures
            validated(r, self.fields()),
    {
        proof {
            reveal_with_fuel(blank_field_error, 5);
        }
        require_text("agent_id", self.agent_id.as_str())?;
        require_text("src_chunk_id", self.src_chunk_id.as_str())?;
        require_text("dst_chunk_id", self.dst_chunk_id.as_str())?;
        require_text("source", self.source.as_str())?;
        Ok(())
    }
}

/// A request to point a buffer at a chunk.
#[derive(Debug, Clone, PartialEq)]
pub struct BufferSetCurrent {
    pub agent_id: AgentId,
    pub buffer_name: BufferName,
    pub chunk_id: ChunkId,
    pub set_at_ms: u64,
}

impl BufferSetCurrent {
    pub open spec fn fields(&self) -> Seq<(Seq<char>, Seq<char>)> {
        seq![("agent_id"@, self.agent_id@), ("chunk_id"@, self.chunk_id@)]
    }

    pub fn validate(&self) -> (r: MemoryResult<()>)
        ensures
            validated(r, self.fields()),
    {
        proof {
            reveal_with_fuel(blank_field_error, 5);
        }
        require_text("agent_id", self.agent_id.as_str())?;
        require_text("chunk_id", self.chunk_id.as_str())?;
        Ok(())
    }
}

/// A stored production rule with its outcome counters.
///
/// `avg_reward` is an `f64`, carried as its bit pattern.
#[derive(Debug, Clone, PartialEq)]
pub struct ProductionRuleRecord {
    pub agent_id: AgentId,
    pub rule: ProductionRule,
    pub success_count: u64,
    pub failure_count: u64,
    pub avg_reward: u64,
}

/// Two rule records hold the same data.
/// Two optional retrieved-chunk conditions are the same.
pub open spec fn same_retrieved_condition(
    a: Option<RetrievedChunkCondition>,
    b: Option<RetrievedChunkCondition>,
) -> bool {
    match (a, b) {
        (None, None) => true,
        (Some(x), Some(y)) => x.chunk_id == y.chunk_id && x.chunk_type == y.chunk_type && x.slots@ == y.slots@,
        _ => false,
    }
}

pub open spec fn same_record(a: ProductionRuleRecord, b: ProductionRuleRecord) -> bool {
    &&& a.agent_id == b.agent_id
    &&& a.rule.rule_id == b.rule.rule_id
    &&& a.rule.name == b.rule.name
    &&& a.rule.enabled == b.rule.enabled
    &&& a.rule.utility == b.rule.utility
    &&& a.rule.version == b.rule.version
    &&& a.rule.conditions@ == b.rule.conditions@
    &&& same_retrieved_condition(a.rule.retrieved_chunk, b.rule.retrieved_chunk)
    &&& a.success_count == b.success_count
    &&& a.failure_count == b.failure_count
    &&& a.avg_reward == b.avg_reward
}

fn copy_condition(c: &BufferCondition) -> (r: BufferCondition)
    ensures
        r == *c,
{
    BufferCondition {
        buffer: c.buffer.copy(),
        chunk_id: match &c.chunk_id {
            Some(id) => Some(id.copy()),
            None => None,
        },
        chunk_type: match &c.chunk_type {
            Some(t) => Some(t.copy()),
            None => None,
        },
    }
}

impl ProductionRuleRecord {
    pub open spec fn fields(&self) -> Seq<(Seq<char>, Seq<char>)> {
        seq![
            ("agent_id"@, self.agent_id@),
            ("rule_id"@, self.rule.rule_id@),
            ("name"@, self.rule.name@),
        ]
    }

    pub fn validate(&self) -> (r: MemoryResult<()>)
        ensures
            validated(r, self.fields()),
    {
        proof {
            reveal_with_fuel(blank_field_error, 5);
        }
        require_text("agent_id", self.agent_id.as_str())?;
        require_text("rule_id", self.rule.rule_id.as_str())?;
        require_text("name", self.rule.name.as_str())?;
        Ok(())
    }

    pub fn copy(&self) -> (r: Self)
        ensures
            same_record(r, *self),
    {
        let mut conditions: Vec<BufferCondition> = Vec::new();
        let mut i: usize = 0;
        while i < self.rule.conditions.len()
            invariant
                i <= self.rule.conditions@.len(),
                conditions@ == self.rule.conditions@.subrange(0, i as int),
            decreases self.rule.conditions@.len() - i,
        {
            conditions.push(copy_condition(&self.rule.conditions[i]));
            i = i + 1;
            assert(conditions@ =~= self.rule.conditions@.subrange(0, i as int));
        }
        assert(self.rule.conditions@.subrange(0, i as int) =~= self.rule.conditions@);
        ProductionRuleRecord {
            agent_id: self.agent_id.copy(),
            rule: ProductionRule {
                rule_id: self.rule.rule_id.copy(),
                name: self.rule.name.clone(),
                enabled: self.rule.enabled,
                utility: self.rule.utility,
                version: self.rule.version,
                conditions,
                retrieved_chunk: match &self.rule.retrieved_chunk {
                    Some(c) => Some(c.copy()),
                    None => None,
                },
            },
            success_count: self.success_count,
            failure_count: self.failure_count,
            avg_reward: self.avg_reward,
        }
    }
}

/// A chunk as stored: with its version and whether it is still active.
#[derive(Debug, Clone)]
pub struct StoredChunkState {
    pub chunk: Chunk,
    pub version: u64,
    pub active: bool,
}

/// The buffer pointer of one agent's buffer.
#[derive(Debug, Clone)]
pub struct BufferPointer {
    pub agent_id: AgentId,
    pub buffer_name: BufferName,
    pub chunk_id: ChunkId,
}

pub type ChunkKey = (Seq<char>, Seq<char>);

pub type AssociationKey = (Seq<char>, Seq<char>, Seq<char>, Seq<char>);

pub type PointerKey = (Seq<char>, (nat, Seq<char>));

pub open spec fn chunk_key(s: StoredChunkState) -> ChunkKey {
    (s.chunk.agent_id@, s.chunk.chunk_id@)
}

pub open spec fn event_key(e: PracticeEventWrite) -> Seq<char> {
    e.event_id@
}

pub open spec fn association_key(a: AssociationWrite) -> AssociationKey {
    (a.agent_id@, a.src_chunk_id@, a.dst_chunk_id@, a.source@)
}

pub open spec fn pointer_key(p: BufferPointer) -> PointerKey {
    (p.agent_id@, name_key(p.buffer_name))
}

pub open spec fn rule_key(r: ProductionRuleRecord) -> ChunkKey {
    (r.agent_id@, r.rule.rule_id@)
}

/// Two chunks hold the same data.
pub open spec fn same_chunk(a: Chunk, b: Chunk) -> bool {
    &&& a.agent_id == b.agent_id
    &&& a.chunk_id == b.chunk_id
    &&& a.chunk_type == b.chunk_type
    &&& a.slots@ == b.slots@
    &&& a.created_at_ms == b.created_at_ms
    &&& a.updated_at_ms == b.updated_at_ms
    &&& a.retrieval_count == b.retrieval_count
    &&& a.base_bias == b.base_bias
}

/// The slot map that inserting `slots` one after another into `m` gives.
pub open spec fn with_slots(m: Map<Seq<char>, Slot>, slots: Seq<Slot>) -> Map<Seq<char>, Slot>
    decreases slots.len(),
{
    if slots.len() == 0 {
        m
    } else {
        with_slots(m, slots.drop_last()).insert(slot_key(slots.last()), slots.last())
    }
}

/// `n + 1`, saturating at `u64::MAX`.
pub open spec fn bump(n: u64) -> u64 {
    if n == u64::MAX { n } else { (n + 1) as u64 }
}

/// The message of a chunk that is missing or deleted.
pub open spec fn missing_chunk_text(id: Seq<char>) -> Seq<char> {
    "chunk "@ + id
}

/// Declarative memory held in process: every table is a list with unique
/// keys, read as a map from key to record.
#[derive(Debug, Clone)]
pub struct MemoryStore {
    chunks: Vec<StoredChunkState>,
    practice_events: Vec<PracticeEventWrite>,
    associations: Vec<AssociationWrite>,
    buffers: Vec<BufferPointer>,
    rules: Vec<ProductionRuleRecord>,
}

fn not_found_chunk(chunk_id: &ChunkId) -> (r: MemoryError)
    ensures
        r matches MemoryError::NotFound(m) && m@ == missing_chunk_text(chunk_id@),
{
    MemoryError::NotFound(String::from_str("chunk ").concat(chunk_id.as_str()))
}

impl MemoryStore {
    pub closed spec fn chunk_rows(&self) -> Seq<StoredChunkState> {
        self.chunks@
    }

    pub closed spec fn event_rows(&self) -> Seq<PracticeEventWrite> {
        self.practice_events@
    }

    pub closed spec fn association_rows(&self) -> Seq<AssociationWrite> {
        self.associations@
    }

    pub closed spec fn pointer_rows(&self) -> Seq<BufferPointer> {
        self.buffers@
    }

    pub closed spec fn rule_rows(&self) -> Seq<ProductionRuleRecord> {
        self.rules@
    }

    /// Stored chunks by (agent, chunk id).
    pub open spec fn chunk_map(&self) -> Map<ChunkKey, StoredChunkState> {
        keyed_map(self.chunk_rows(), |s: StoredChunkState| chunk_key(s))
    }

    /// Practice events by event id.
    pub open spec fn event_map(&self) -> Map<Seq<char>, PracticeEventWrite> {
        keyed_map(self.event_rows(), |e: PracticeEventWrite| event_key(e))
    }

    /// Associations by (agent, source chunk, target chunk, source label).
    pub open spec fn association_map(&self) -> Map<AssociationKey, AssociationWrite> {
        keyed_map(self.association_rows(), |a: AssociationWrite| association_key(a))
    }

    /// Buffer pointers by (agent, buffer).
    pub open spec fn pointer_map(&self) -> Map<PointerKey, BufferPointer> {
        keyed_map(self.pointer_rows(), |p: BufferPointer| pointer_key(p))
    }

    /// Rule records by (agent, rule id).
    pub open spec fn rule_map(&self) -> Map<ChunkKey, ProductionRuleRecord> {
        keyed_map(self.rule_rows(), |r: ProductionRuleRecord| rule_key(r))
    }

    /// The chunk with this key is stored and not deleted.
    pub open spec fn is_active(&self, k: ChunkKey) -> bool {
        self.chunk_map().contains_key(k) && self.chunk_map()[k].active
    }

    pub open spec fn wf(&self) -> bool {
        &&& keys_unique(self.chunk_rows(), |s: StoredChunkState| chunk_key(s))
        &&& keys_unique(self.event_rows(), |e: PracticeEventWrite| event_key(e))
        &&& keys_unique(self.association_rows(), |a: AssociationWrite| association_key(a))
        &&& keys_unique(self.pointer_rows(), |p: BufferPointer| pointer_key(p))
        &&& keys_unique(self.rule_rows(), |r: ProductionRuleRecord| rule_key(r))
        &&& forall|i: int|
            0 <= i < self.chunk_rows().len() ==> slots_wf(#[trigger] self.chunk_rows()[i].chunk.slots@)
    }

    /// The tables other than the chunk table are those of `other`.
    pub open spec fn same_except_chunks(&self, other: &Self) -> bool {
        &&& self.event_map() == other.event_map()
        &&& self.association_map() == other.association_map()
        &&& self.pointer_map() == other.pointer_map()
        &&& self.rule_map() == other.rule_map()
    }

    pub fn new() -> (r: Self)
        ensures
            r.wf(),
            r.chunk_map() == Map::<ChunkKey, StoredChunkState>::empty(),
            r.event_map() == Map::<Seq<char>, PracticeEventWrite>::empty(),
            r.association_map() == Map::<AssociationKey, AssociationWrite>::empty(),
            r.pointer_map() == Map::<PointerKey, BufferPointer>::empty(),
            r.rule_map() == Map::<ChunkKey, ProductionRuleRecord>::empty(),
    {
        let r = MemoryStore {
            chunks: Vec::new(),
            practice_events: Vec::new(),
            associations: Vec::new(),
            buffers: Vec::new(),
            rules: Vec::new(),
        };
        proof {
            lemma_keyed_empty(r.chunks@, |s: StoredChunkState| chunk_key(s));
            lemma_keyed_empty(r.practice_events@, |e: PracticeEventWrite| event_key(e));
            lemma_keyed_empty(r.associations@, |a: AssociationWrite| association_key(a));
            lemma_keyed_empty(r.buffers@, |p: BufferPointer| pointer_key(p));
            lemma_keyed_empty(r.rules@, |x: ProductionRuleRecord| rule_key(x));
        }
        r
    }

    fn find_chunk(&self, agent_id: &AgentId, chunk_id: &ChunkId) -> (r: Option<usize>)
        requires
            self.wf(),
        ensures
            match r {
                Some(i) => i < self.chunks@.len() && chunk_key(self.chunks@[i as int]) == (
                    agent_id@,
                    chunk_id@,
                ) && self.chunk_map()[(agent_id@, chunk_id@)] == self.chunks@[i as int],
                None => !self.chunk_map().contains_key((agent_id@, chunk_id@)),
            },
    {
        let mut i: usize = 0;
        while i < self.chunks.len()
            invariant
                self.wf(),
                i <= self.chunks@.len(),
                forall|j: int|
                    0 <= j < i ==> chunk_key(#[trigger] self.chunks@[j]) != (agent_id@, chunk_id@),
            decreases self.chunks@.len() - i,
        {
            let c = &self.chunks[i].chunk;
            if c.agent_id.same(agent_id) && c.chunk_id.same(chunk_id) {
                proof {
                    lemma_keyed_at(self.chunks@, |s: StoredChunkState| chunk_key(s), i as int);
                }
                return Some(i);
            }
            i = i + 1;
        }
        proof {
            let f = |s: StoredChunkState| chunk_key(s);
            if has_key(self.chunks@, f, (agent_id@, chunk_id@)) {
                let j = choose|j: int|
                    0 <= j < self.chunks@.len() && f(#[trigger] self.chunks@[j]) == (
                        agent_id@,
                        chunk_id@,
                    );
                assert(chunk_key(self.chunks@[j]) != (agent_id@, chunk_id@));
            }
        }
        None
    }

    fn find_event(&self, event_id: &String) -> (r: Option<usize>)
        requires
            self.wf(),
        ensures
            match r {
                Some(i) => i < self.practice_events@.len() && event_key(
                    self.practice_events@[i as int],
                ) == event_id@,
                None => !self.event_map().contains_key(event_id@),
            },
    {
        let mut i: usize = 0;
        while i < self.practice_events.len()
            invariant
                self.wf(),
                i <= self.practice_events@.len(),
                forall|j: int|
                    0 <= j < i ==> event_key(#[trigger] self.practice_events@[j]) != event_id@,
            decreases self.practice_events@.len() - i,
        {
            if self.practice_events[i].event_id == *event_id {
                return Some(i);
            }
            i = i + 1;
        }
        proof {
            let f = |e: PracticeEventWrite| event_key(e);
            if has_key(self.practice_events@, f, event_id@) {
                let j = choose|j: int|
                    0 <= j < self.practice_events@.len() && f(#[trigger] self.practice_events@[j])
                        == event_id@;
                assert(event_key(self.practice_events@[j]) != event_id@);
            }
        }
        None
    }

    /// Inserts or replaces a practice event by id.
    fn put_event(&mut self, e: PracticeEventWrite)
        requires
            old(self).wf(),
        ensures
            final(self).wf(),
            final(self).event_map() == old(self).event_map().insert(event_key(e), e),
            final(self).chunk_map() == old(self).chunk_map(),
            final(self).association_map() == old(self).association_map(),
            final(self).pointer_map() == old(self).pointer_map(),
            final(self).rule_map() == old(self).rule_map(),
    {
        let ghost f = |x: PracticeEventWrite| event_key(x);
        match self.find_event(&e.event_id) {
            Some(i) => {
                proof {
                    lemma_keyed_update(self.practice_events@, f, i as int, e);
                }
                self.practice_events.set(i, e);
            },
            None => {
                proof {
                    lemma_keyed_push(self.practice_events@, f, e);
                }
                self.practice_events.push(e);
            },
        }
    }

    /// Inserts or replaces a stored chunk by key.
    fn put_chunk(&mut self, s: StoredChunkState)
        requires
            old(self).wf(),
            slots_wf(s.chunk.slots@),
        ensures
            final(self).wf(),
            final(self).chunk_map() == old(self).chunk_map().insert(chunk_key(s), s),
            final(self).same_except_chunks(&*old(self)),
    {
        let ghost f = |x: StoredChunkState| chunk_key(x);
        match self.find_chunk(&s.chunk.agent_id, &s.chunk.chunk_id) {
            Some(i) => {
                proof {
                    lemma_keyed_update(self.chunks@, f, i as int, s);
                }
                self.chunks.set(i, s);
            },
            None => {
                proof {
                    lemma_keyed_push(self.chunks@, f, s);
                }
                self.chunks.push(s);
            },
        }
    }

    /// Stores a chunk, replacing any chunk with the same key, at version 1,
    /// and records its encoding event.
    pub fn upsert_chunk(&mut self, req: CreateChunk) -> (r: MemoryResult<Chunk>)
        requires
            old(self).wf(),
            req.chunk.wf(),
        ensures
            final(self).wf(),
            blank_field_error(req.fields()) is Some ==> {
                &&& refused(r, req.fields())
                &&& *final(self) == *old(self)
            },
            blank_field_error(req.fields()) is None ==> {
                &&& r matches Ok(c) && same_chunk(c, req.chunk)
                &&& final(self).chunk_map() == old(self).chunk_map().insert(
                    (req.chunk.agent_id@, req.chunk.chunk_id@),
                    StoredChunkState { chunk: req.chunk, version: 1, active: true },
                )
                &&& final(self).event_map().dom() == old(self).event_map().dom().insert(
                    req.initial_practice_event_id@,
                )
                &&& final(self).event_map()[req.initial_practice_event_id@].kind@ == "encode"@
                &&& final(self).event_map()[req.initial_practice_event_id@].agent_id
                    == req.chunk.agent_id
                &&& final(self).event_map()[req.initial_practice_event_id@].chunk_id
                    == req.chunk.chunk_id
                &&& final(self).event_map()[req.initial_practice_event_id@].occurred_at_ms
                    == req.chunk.created_at_ms
                &&& final(self).event_map()[req.initial_practice_event_id@].weight == unit_weight()
                &&& forall|k: Seq<char>|
                    k != req.initial_practice_event_id@ && old(self).event_map().contains_key(k)
                        ==> final(self).event_map()[k] == old(self).event_map()[k]
                &&& final(self).association_map() == old(self).association_map()
                &&& final(self).pointer_map() == old(self).pointer_map()
                &&& final(self).rule_map() == old(self).rule_map()
            },
    {
        match req.validate() {
            Err(e) => {
                return Err(e);
            },
            Ok(()) => {},
        }
        let practice = PracticeEventWrite {
            event_id: req.initial_practice_event_id,
            agent_id: req.chunk.agent_id.copy(),
            chunk_id: req.chunk.chunk_id.copy(),
            occurred_at_ms: req.chunk.created_at_ms,
            kind: String::from_str("encode"),
            weight: 0x3FF0_0000_0000_0000,
        };
        let result = req.chunk.copy();
        self.put_event(practice);
        self.put_chunk(StoredChunkState { chunk: req.chunk, version: 1, active: true });
        Ok(result)
    }

    /// Stores a new chunk at version 1 and records its encoding event; a
    /// chunk with the same key, even a deleted one, is a conflict.
    pub fn create_chunk(&mut self, req: CreateChunk) -> (r: MemoryResult<Chunk>)
        requires
            old(self).wf(),
            req.chunk.wf(),
        ensures
            create_effect(*old(self), *final(self), req, r),

    {
        match req.validate() {
            Err(e) => {
                return Err(e);
            },
            Ok(()) => {},
        }
        if self.find_chunk(&req.chunk.agent_id, &req.chunk.chunk_id).is_some() {
            let m = String::from_str("chunk ").concat(req.chunk.chunk_id.as_str()).concat(
                " already exists",
            );
            return Err(MemoryError::Conflict(m));
        }
        self.upsert_chunk(req)
    }

    /// The chunk with this key, unless it is missing or deleted.
    pub fn get_chunk(&self, agent_id: &AgentId, chunk_id: &ChunkId) -> (r: Option<Chunk>)
        requires
            self.wf(),
        ensures
            get_result(*self, agent_id@, chunk_id@, r),

    {
        match self.find_chunk(agent_id, chunk_id) {
            Some(i) => {
                if self.chunks[i].active {
                    Some(self.chunks[i].chunk.copy())
                } else {
                    None
                }
            },
            None => None,
        }
    }

    /// Replaces the slots of an active chunk read at its current version,
    /// advancing the version and the update time by one.
    #[verifier::rlimit(40)]
    pub fn update_chunk(&mut self, req: UpdateChunk) -> (r: MemoryResult<Chunk>)
        requires
            old(self).wf(),
        ensures
            update_effect(*old(self), *final(self), req, r),

    {
        match req.validate() {
            Err(e) => {
                return Err(e);
            },
            Ok(()) => {},
        }
        let i = match self.find_chunk(&req.agent_id, &req.chunk_id) {
            Some(i) => i,
            None => {
                return Err(not_found_chunk(&req.chunk_id));
            },
        };
        if !self.chunks[i].active {
            return Err(not_found_chunk(&req.chunk_id));
        }
        if self.chunks[i].version != req.expected_version {
            let m = String::from_str("chunk ").concat(req.chunk_id.as_str()).concat(
                " version conflict",
            );
            return Err(MemoryError::Conflict(m));
        }
        let mut chunk = self.chunks[i].chunk.copy();
        let version = self.chunks[i].version;
        let mut slots: Vec<Slot> = Vec::new();
        proof {
            lemma_keyed_empty(slots@, |s: Slot| slot_key(s));
        }
        let mut k: usize = 0;
        while k < req.slots.len()
            invariant
                k <= req.slots@.len(),
                slots_wf(slots@),
                slot_map(slots@) == with_slots(
                    Map::<Seq<char>, Slot>::empty(),
                    req.slots@.subrange(0, k as int),
                ),
            decreases req.slots@.len() - k,
        {
            let s = req.slots[k].copy();
            assert(req.slots@.subrange(0, k + 1).drop_last() == req.slots@.subrange(0, k as int));
            upsert_slot_in(&mut slots, s.key, s.value);
            k = k + 1;
        }
        assert(req.slots@.subrange(0, req.slots@.len() as int) == req.slots@);
        chunk.slots = slots;
        chunk.updated_at_ms = chunk.updated_at_ms.saturating_add(1);
        let result = chunk.copy();
        let ghost f = |x: StoredChunkState| chunk_key(x);
        let state = StoredChunkState { chunk, version: version.saturating_add(1), active: true };
        proof {
            lemma_keyed_update(self.chunks@, f, i as int, state);
        }
        let ghost before = *old(self);
        self.chunks.set(i, state);
        proof {
            lemma_keyed_at(self.chunks@, f, i as int);
            let k = (req.agent_id@, req.chunk_id@);
            assert(self.chunk_map() == before.chunk_map().insert(k, state));
            assert(self.chunk_map().dom() == before.chunk_map().dom());
            assert(self.same_except_chunks(&before));
        }
        Ok(result)
    }

    /// Marks an active chunk deleted.
    pub fn soft_delete_chunk(&mut self, agent_id: &AgentId, chunk_id: &ChunkId) -> (r: MemoryResult<
        (),
    >)
        requires
            old(self).wf(),
        ensures
            delete_effect(*old(self), *final(self), agent_id@, chunk_id@, r),

    {
        let i = match self.find_chunk(agent_id, chunk_id) {
            Some(i) => i,
            None => {
                return Err(not_found_chunk(chunk_id));
            },
        };
        if !self.chunks[i].active {
            return Err(not_found_chunk(chunk_id));
        }
        let old_state = self.chunks.remove(i);
        let ghost rows = self.chunks@;
        let state = StoredChunkState { chunk: old_state.chunk, version: old_state.version, active: false };
        let ghost old_rows = rows.insert(i as int, old_state);
        proof {
            assert(old_rows =~= old(self).chunks@);
            lemma_keyed_update(old_rows, |x: StoredChunkState| chunk_key(x), i as int, state);
            assert(old_rows.update(i as int, state) =~= rows.insert(i as int, state));
        }
        self.chunks.insert(i, state);
        Ok(())
    }

    /// Records a practice event of an active chunk; an event id that is
    /// already recorded is a conflict.
    pub fn append_practice_event(&mut self, req: PracticeEventWrite) -> (r: MemoryResult<()>)
        requires
            old(self).wf(),
        ensures
            append_effect(*old(self), *final(self), req, r),

    {
        req.validate()?;
        match self.find_chunk(&req.agent_id, &req.chunk_id) {
            Some(i) => {
                if !self.chunks[i].active {
                    return Err(not_found_chunk(&req.chunk_id));
                }
            },
            None => {
                return Err(not_found_chunk(&req.chunk_id));
            },
        }
        if self.find_event(&req.event_id).is_some() {
            let m = String::from_str("practice event ").concat(req.event_id.as_str()).concat(
                " already exists",
            );
            return Err(MemoryError::Conflict(m));
        }
        self.put_event(req);
        Ok(())
    }

    /// Whether the chunk with this key is active; otherwise the error that
    /// reports it.
    fn require_active(&self, agent_id: &AgentId, chunk_id: &ChunkId) -> (r: MemoryResult<()>)
        requires
            self.wf(),
        ensures
            self.is_active((agent_id@, chunk_id@)) ==> r is Ok,
            !self.is_active((agent_id@, chunk_id@)) ==> (r matches Err(MemoryError::NotFound(m))
                && m@ == missing_chunk_text(chunk_id@)),
    {
        match self.find_chunk(agent_id, chunk_id) {
            Some(i) => if self.chunks[i].active {
                Ok(())
            } else {
                Err(not_found_chunk(chunk_id))
            },
            None => Err(not_found_chunk(chunk_id)),
        }
    }

    fn find_association(&self, req: &AssociationWrite) -> (r: Option<usize>)
        requires
            self.wf(),
        ensures
            match r {
                Some(i) => i < self.associations@.len() && association_key(
                    self.associations@[i as int],
                ) == association_key(*req),
                None => !self.association_map().contains_key(association_key(*req)),
            },
    {
        let mut i: usize = 0;
        while i < self.associations.len()
            invariant
                i <= self.associations@.len(),
                forall|j: int|
                    0 <= j < i ==> association_key(#[trigger] self.associations@[j])
                        != association_key(*req),
            decreases self.associations@.len() - i,
        {
            let a = &self.associations[i];
            if a.agent_id.same(&req.agent_id) && a.src_chunk_id.same(&req.src_chunk_id)
                && a.dst_chunk_id.same(&req.dst_chunk_id) && a.source == req.source {
                return Some(i);
            }
            i = i + 1;
        }
        proof {
            let f = |x: AssociationWrite| association_key(x);
            if has_key(self.associations@, f, association_key(*req)) {
                let j = choose|j: int|
                    0 <= j < self.associations@.len() && f(#[trigger] self.associations@[j])
                        == association_key(*req);
                assert(association_key(self.associations@[j]) != association_key(*req));
            }
        }
        None
    }

    fn find_pointer(&self, agent_id: &AgentId, buffer_name: &BufferName) -> (r: Option<usize>)
        requires
            self.wf(),
        ensures
            match r {
                Some(i) => i < self.buffers@.len() && pointer_key(self.buffers@[i as int]) == (
                    agent_id@,
                    name_key(*buffer_name),
                ) && self.pointer_map()[(agent_id@, name_key(*buffer_name))]
                    == self.buffers@[i as int],
                None => !self.pointer_map().contains_key((agent_id@, name_key(*buffer_name))),
            },
    {
        let mut i: usize = 0;
        while i < self.buffers.len()
            invariant
                self.wf(),
                i <= self.buffers@.len(),
                forall|j: int|
                    0 <= j < i ==> pointer_key(#[trigger] self.buffers@[j]) != (
                        agent_id@,
                        name_key(*buffer_name),
                    ),
            decreases self.buffers@.len() - i,
        {
            let p = &self.buffers[i];
            if p.agent_id.same(agent_id) && p.buffer_name.same(buffer_name) {
                proof {
                    lemma_keyed_at(self.buffers@, |x: BufferPointer| pointer_key(x), i as int);
                }
                return Some(i);
            }
            i = i + 1;
        }
        proof {
            let f = |x: BufferPointer| pointer_key(x);
            if has_key(self.buffers@, f, (agent_id@, name_key(*buffer_name))) {
                let j = choose|j: int|
                    0 <= j < self.buffers@.len() && f(#[trigger] self.buffers@[j]) == (
                        agent_id@,
                        name_key(*buffer_name),
                    );
                assert(pointer_key(self.buffers@[j]) != (agent_id@, name_key(*buffer_name)));
            }
        }
        None
    }

    /// Adds or replaces the association between two active chunks.
    pub fn upsert_association(&mut self, req: AssociationWrite) -> (r: MemoryResult<()>)
        requires
            old(self).wf(),
        ensures
            associate_effect(*old(self), *final(self), req, r),

    {
        req.validate()?;
        self.require_active(&req.agent_id, &req.src_chunk_id)?;
        self.require_active(&req.agent_id, &req.dst_chunk_id)?;
        let ghost f = |x: AssociationWrite| association_key(x);
        match self.find_association(&req) {
            Some(i) => {
                proof {
                    lemma_keyed_update(self.associations@, f, i as int, req);
                }
                self.associations.set(i, req);
            },
            None => {
                proof {
                    lemma_keyed_push(self.associations@, f, req);
                }
                self.associations.push(req);
            },
        }
        Ok(())
    }

    /// Points an agent's buffer at an active chunk.
    pub fn set_buffer_current(&mut self, req: BufferSetCurrent) -> (r: MemoryResult<()>)
        requires
            old(self).wf(),
        ensures
            final(self).wf(),
            ({
                if blank_field_error(req.fields()) is Some {
                    &&& validated(r, req.fields())
                    &&& *final(self) == *old(self)
                } else if !old(self).is_active((req.agent_id@, req.chunk_id@)) {
                    &&& r matches Err(MemoryError::NotFound(m)) && m@ == missing_chunk_text(
                        req.chunk_id@,
                    )
                    &&& *final(self) == *old(self)
                } else {
                    &&& r is Ok
                    &&& final(self).pointer_map().dom() == old(self).pointer_map().dom().insert(
                        (req.agent_id@, name_key(req.buffer_name)),
                    )
                    &&& final(self).pointer_map()[(req.agent_id@, name_key(
                        req.buffer_name,
                    ))].chunk_id == req.chunk_id
                    &&& forall|k: PointerKey|
                        k != (req.agent_id@, name_key(req.buffer_name)) && old(
                            self,
                        ).pointer_map().contains_key(k) ==> final(self).pointer_map()[k] == old(
                            self,
                        ).pointer_map()[k]
                    &&& final(self).chunk_map() == old(self).chunk_map()
                    &&& final(self).event_map() == old(self).event_map()
                    &&& final(self).association_map() == old(self).association_map()
                    &&& final(self).rule_map() == old(self).rule_map()
                }
            }),
    {
        req.validate()?;
        self.require_active(&req.agent_id, &req.chunk_id)?;
        let pointer = BufferPointer {
            agent_id: req.agent_id,
            buffer_name: req.buffer_name,
            chunk_id: req.chunk_id,
        };
        let ghost f = |x: BufferPointer| pointer_key(x);
        match self.find_pointer(&pointer.agent_id, &pointer.buffer_name) {
            Some(i) => {
                proof {
                    lemma_keyed_update(self.buffers@, f, i as int, pointer);
                }
                self.buffers.set(i, pointer);
            },
            None => {
                proof {
                    lemma_keyed_push(self.buffers@, f, pointer);
                }
                self.buffers.push(pointer);
            },
        }
        Ok(())
    }

    /// The chunk an agent's buffer points at, if any.
    pub fn buffer_snapshot(&self, agent_id: &AgentId, buffer_name: &BufferName) -> (r: Option<
        ChunkId,
    >)
        requires
            self.wf(),
        ensures
            self.pointer_map().contains_key((agent_id@, name_key(*buffer_name))) ==> r == Some(
                self.pointer_map()[(agent_id@, name_key(*buffer_name))].chunk_id,
            ),
            !self.pointer_map().contains_key((agent_id@, name_key(*buffer_name))) ==> r is None,
    {
        match self.find_pointer(agent_id, buffer_name) {
            Some(i) => Some(self.buffers[i].chunk_id.copy()),
            None => None,
        }
    }

    fn find_rule(&self, agent_id: &AgentId, rule_id: &RuleId) -> (r: Option<usize>)
        requires
            self.wf(),
        ensures
            match r {
                Some(i) => i < self.rules@.len() && rule_key(self.rules@[i as int]) == (
                    agent_id@,
                    rule_id@,
                ) && self.rule_map()[(agent_id@, rule_id@)] == self.rules@[i as int],
                None => !self.rule_map().contains_key((agent_id@, rule_id@)),
            },
    {
        let ghost f = |x: ProductionRuleRecord| rule_key(x);
        let mut i: usize = 0;
        while i < self.rules.len()
            invariant
                self.wf(),
                i <= self.rules@.len(),
                forall|j: int|
                    0 <= j < i ==> rule_key(#[trigger] self.rules@[j]) != (agent_id@, rule_id@),
            decreases self.rules@.len() - i,
        {
            let x = &self.rules[i];
            if x.agent_id.same(agent_id) && x.rule.rule_id.same(rule_id) {
                proof {
                    lemma_keyed_at(self.rules@, |x: ProductionRuleRecord| rule_key(x), i as int);
                }
                return Some(i);
            }
            i = i + 1;
        }
        proof {
            if has_key(self.rules@, f, (agent_id@, rule_id@)) {
                let j = choose|j: int|
                    0 <= j < self.rules@.len() && f(#[trigger] self.rules@[j]) == (agent_id@, rule_id@);
                assert(rule_key(self.rules@[j]) != (agent_id@, rule_id@));
            }
        }
        None
    }

    /// Stores a rule record, replacing any with the same key.
    pub fn upsert_production_rule(&mut self, req: ProductionRuleRecord) -> (r: MemoryResult<
        ProductionRuleRecord,
    >)
        requires
            old(self).wf(),
        ensures
            final(self).wf(),
            blank_field_error(req.fields()) is Some ==> {
                &&& refused(r, req.fields())
                &&& *final(self) == *old(self)
            },
            blank_field_error(req.fields()) is None ==> {
                &&& r matches Ok(x) && same_record(x, req)
                &&& final(self).rule_map() == old(self).rule_map().insert(rule_key(req), req)
                &&& final(self).chunk_map() == old(self).chunk_map()
                &&& final(self).event_map() == old(self).event_map()
                &&& final(self).association_map() == old(self).association_map()
                &&& final(self).pointer_map() == old(self).pointer_map()
            },
    {
        match req.validate() {
            Err(e) => {
                return Err(e);
            },
            Ok(()) => {},
        }
        let result = req.copy();
        let ghost f = |x: ProductionRuleRecord| rule_key(x);
        match self.find_rule(&req.agent_id, &req.rule.rule_id) {
            Some(i) => {
                proof {
                    lemma_keyed_update(self.rules@, f, i as int, req);
                }
                self.rules.set(i, req);
            },
            None => {
                proof {
                    lemma_keyed_push(self.rules@, f, req);
                }
                self.rules.push(req);
            },
        }
        Ok(result)
    }

    /// The rule record with this key, if any.
    pub fn get_production_rule(&self, agent_id: &AgentId, rule_id: &RuleId) -> (r: Option<
        ProductionRuleRecord,
    >)
        requires
            self.wf(),
        ensures
            self.rule_map().contains_key((agent_id@, rule_id@)) ==> (r matches Some(x)
                && same_record(x, self.rule_map()[(agent_id@, rule_id@)])),
            !self.rule_map().contains_key((agent_id@, rule_id@)) ==> r is None,
    {
        match self.find_rule(agent_id, rule_id) {
            Some(i) => Some(self.rules[i].copy()),
            None => None,
        }
    }
}

/// A request for retrieval candidates: the agent, an optional chunk type,
/// the cue slots, the chunks of the context, and how many candidates to keep.
#[derive(Debug, Clone, PartialEq)]
pub struct CandidateQuery {
    pub agent_id: AgentId,
    pub chunk_type: Option<String>,
    pub cue_slots: Vec<Slot>,
    pub context_chunk_ids: Vec<ChunkId>,
    pub candidate_limit: usize,
}

impl CandidateQuery {
    pub open spec fn fields(&self) -> Seq<(Seq<char>, Seq<char>)> {
        seq![("agent_id"@, self.agent_id@)]
    }

    pub fn validate(&self) -> (r: MemoryResult<()>)
        ensures
            validated(r, self.fields()),
    {
        proof {
            reveal_with_fuel(blank_field_error, 2);
        }
        require_text("agent_id", self.agent_id.as_str())?;
        Ok(())
    }
}

/// How a chunk answers one cue: it holds the cue's value, it does not, or
/// both are numbers, which match when their twelve-decimal renderings are
/// equal (floating-point formatting, done where the numbers are read).
#[derive(Debug, Clone, Copy, PartialEq, Eq)]
pub enum CueCheck {
    Matched,
    Unmatched,
    Numbers(u64, u64),
}

/// How a chunk answers a cue: by the value of the slot with the cue's key,
/// compared by type and normalized form.
pub open spec fn cue_check(chunk: Chunk, cue: Slot) -> CueCheck {
    match slot_value(chunk.slots@, cue.key@) {
        None => CueCheck::Unmatched,
        Some(v) => match (v, cue.value) {
            (SlotValue::Number(a), SlotValue::Number(b)) => CueCheck::Numbers(a, b),
            (SlotValue::Number(_), _) => CueCheck::Unmatched,
            (_, SlotValue::Number(_)) => CueCheck::Unmatched,
            _ => if value_type_text(v) == value_type_text(cue.value) && normalized_text(v)
                == normalized_text(cue.value) {
                CueCheck::Matched
            } else {
                CueCheck::Unmatched
            },
        },
    }
}

/// The chunk is one the query asks for: the query's agent's, and of its
/// type when it names one.
pub open spec fn admits(q: CandidateQuery, c: Chunk) -> bool {
    &&& c.agent_id@ == q.agent_id@
    &&& match q.chunk_type {
        None => true,
        Some(t) => c.chunk_type@ == t@,
    }
}

/// The active chunk rows that the query admits, in store order.
pub open spec fn admitted_rows(rows: Seq<StoredChunkState>, q: CandidateQuery) -> Seq<StoredChunkState>
    decreases rows.len(),
{
    if rows.len() == 0 {
        Seq::empty()
    } else {
        let rest = admitted_rows(rows.drop_last(), q);
        if rows.last().active && admits(q, rows.last().chunk) {
            rest.push(rows.last())
        } else {
            rest
        }
    }
}

/// The strengths of the agent's associations from `src` to `dst`, in store
/// order.
pub open spec fn strengths(rows: Seq<AssociationWrite>, agent: Seq<char>, src: Seq<char>, dst: Seq<char>) -> Seq<u64>
    decreases rows.len(),
{
    if rows.len() == 0 {
        Seq::empty()
    } else {
        let rest = strengths(rows.drop_last(), agent, src, dst);
        let a = rows.last();
        if a.agent_id@ == agent && a.src_chunk_id@ == src && a.dst_chunk_id@ == dst {
            rest.push(a.strength)
        } else {
            rest
        }
    }
}

/// The event belongs to this agent's chunk.
pub open spec fn event_of_chunk(e: PracticeEventWrite, agent: Seq<char>, chunk: Seq<char>) -> bool {
    e.agent_id@ == agent && e.chunk_id@ == chunk
}

/// `h` lists the events of `events` that belong to the chunk, each once, in
/// increasing order of event id.
pub open spec fn is_history(
    h: Seq<PracticeEventWrite>,
    events: Map<Seq<char>, PracticeEventWrite>,
    agent: Seq<char>,
    chunk: Seq<char>,
) -> bool {
    &&& forall|k: int| 0 <= k < h.len() ==> events.contains_key(#[trigger] h[k].event_id@)
        && events[h[k].event_id@] == h[k] && event_of_chunk(h[k], agent, chunk)
    &&& forall|id: Seq<char>| #[trigger] events.contains_key(id) && event_of_chunk(events[id], agent, chunk)
        ==> exists|k: int| 0 <= k < h.len() && h[k].event_id@ == id
    &&& ids_sorted(h)
}

/// The events are in strictly increasing order of event id.
pub open spec fn ids_sorted(h: Seq<PracticeEventWrite>) -> bool {
    forall|a: int, b: int| 0 <= a < b < h.len() ==> chars_lt(#[trigger] h[a].event_id@, #[trigger] h[b].event_id@)
}

/// Each listed event is one of the first `n` rows, and belongs to the chunk.
#[verifier::opaque]
pub open spec fn drawn_from(
    r: Seq<PracticeEventWrite>,
    rows: Seq<PracticeEventWrite>,
    n: int,
    agent: Seq<char>,
    chunk: Seq<char>,
) -> bool {
    forall|k: int| 0 <= k < r.len() ==> event_of_chunk(#[trigger] r[k], agent, chunk) && exists|j: int|
        0 <= j < n && rows[j] == r[k]
}

/// Each of the first `n` rows that belongs to the chunk is listed.
#[verifier::opaque]
pub open spec fn covers(
    r: Seq<PracticeEventWrite>,
    rows: Seq<PracticeEventWrite>,
    n: int,
    agent: Seq<char>,
    chunk: Seq<char>,
) -> bool {
    forall|j: int| 0 <= j < n && event_of_chunk(#[trigger] rows[j], agent, chunk) ==> exists|k: int|
        0 <= k < r.len() && r[k] == rows[j]
}

proof fn lemma_drawn_ids_differ(
    r: Seq<PracticeEventWrite>,
    rows: Seq<PracticeEventWrite>,
    i: int,
    agent: Seq<char>,
    chunk: Seq<char>,
)
    requires
        keys_unique(rows, |e: PracticeEventWrite| event_key(e)),
        0 <= i < rows.len(),
        drawn_from(r, rows, i, agent, chunk),
    ensures
        forall|k: int| 0 <= k < r.len() ==> (#[trigger] r[k]).event_id@ != rows[i].event_id@,
{
    reveal(drawn_from);
    let f = |e: PracticeEventWrite| event_key(e);
    assert forall|k: int| 0 <= k < r.len() implies (#[trigger] r[k]).event_id@ != rows[i].event_id@ by {
        let j = choose|j: int| 0 <= j < i && rows[j] == r[k];
        assert(f(rows[j]) != f(rows[i]));
    }
}

proof fn lemma_history_take(
    before: Seq<PracticeEventWrite>,
    rows: Seq<PracticeEventWrite>,
    i: int,
    p: int,
    agent: Seq<char>,
    chunk: Seq<char>,
)
    requires
        0 <= i < rows.len(),
        0 <= p <= before.len(),
        event_of_chunk(rows[i], agent, chunk),
        drawn_from(before, rows, i, agent, chunk),
        covers(before, rows, i, agent, chunk),
    ensures
        drawn_from(before.insert(p, rows[i]), rows, i + 1, agent, chunk),
        covers(before.insert(p, rows[i]), rows, i + 1, agent, chunk),
{
    reveal(drawn_from);
    reveal(covers);
    let r = before.insert(p, rows[i]);
    assert forall|k: int| 0 <= k < r.len() implies event_of_chunk(#[trigger] r[k], agent, chunk) && exists|j: int|
        0 <= j < i + 1 && rows[j] == r[k] by {
        if k < p {
            assert(r[k] == before[k]);
        } else if k > p {
            assert(r[k] == before[k - 1]);
        } else {
            assert(rows[i] == r[k]);
        }
    }
    assert forall|j: int| 0 <= j < i + 1 && event_of_chunk(#[trigger] rows[j], agent, chunk) implies exists|k: int|
        0 <= k < r.len() && r[k] == rows[j] by {
        if j < i {
            let k = choose|k: int| 0 <= k < before.len() && before[k] == rows[j];
            if k < p {
                assert(r[k] == rows[j]);
            } else {
                assert(r[k + 1] == rows[j]);
            }
        } else {
            assert(r[p] == rows[j]);
        }
    }
}

proof fn lemma_history_skip(
    r: Seq<PracticeEventWrite>,
    rows: Seq<PracticeEventWrite>,
    i: int,
    agent: Seq<char>,
    chunk: Seq<char>,
)
    requires
        0 <= i < rows.len(),
        !event_of_chunk(rows[i], agent, chunk),
        drawn_from(r, rows, i, agent, chunk),
        covers(r, rows, i, agent, chunk),
    ensures
        drawn_from(r, rows, i + 1, agent, chunk),
        covers(r, rows, i + 1, agent, chunk),
{
    reveal(drawn_from);
    reveal(covers);
    assert forall|k: int| 0 <= k < r.len() implies event_of_chunk(#[trigger] r[k], agent, chunk) && exists|j: int|
        0 <= j < i + 1 && rows[j] == r[k] by {
        let j = choose|j: int| 0 <= j < i && rows[j] == r[k];
    }
}

proof fn lemma_history_done(
    r: Seq<PracticeEventWrite>,
    rows: Seq<PracticeEventWrite>,
    agent: Seq<char>,
    chunk: Seq<char>,
)
    requires
        keys_unique(rows, |e: PracticeEventWrite| event_key(e)),
        drawn_from(r, rows, rows.len() as int, agent, chunk),
        covers(r, rows, rows.len() as int, agent, chunk),
        ids_sorted(r),
    ensures
        is_history(r, keyed_map(rows, |e: PracticeEventWrite| event_key(e)), agent, chunk),
{
    reveal(drawn_from);
    reveal(covers);
    let f = |e: PracticeEventWrite| event_key(e);
    let m = keyed_map(rows, f);
    assert forall|k: int| 0 <= k < r.len() implies m.contains_key(#[trigger] r[k].event_id@)
        && m[r[k].event_id@] == r[k] && event_of_chunk(r[k], agent, chunk) by {
        let j = choose|j: int| 0 <= j < rows.len() && rows[j] == r[k];
        lemma_keyed_at(rows, f, j);
    }
    assert forall|id: Seq<char>| #[trigger] m.contains_key(id) && event_of_chunk(m[id], agent, chunk)
        implies exists|k: int| 0 <= k < r.len() && r[k].event_id@ == id by {
        let j = choose|j: int| 0 <= j < rows.len() && f(#[trigger] rows[j]) == id;
        lemma_keyed_at(rows, f, j);
        let k = choose|k: int| 0 <= k < r.len() && r[k] == rows[j];
        assert(r[k].event_id@ == id);
    }
}

/// Inserts an event at its place in a list ordered by event id.
fn insert_by_id(r: &mut Vec<PracticeEventWrite>, e: PracticeEventWrite)
    requires
        ids_sorted(old(r)@),
        forall|k: int| 0 <= k < old(r)@.len() ==> (#[trigger] old(r)@[k]).event_id@ != e.event_id@,
    ensures
        ids_sorted(final(r)@),
        exists|p: int| 0 <= p <= old(r)@.len() && final(r)@ == old(r)@.insert(p, e),
{
    let mut p: usize = 0;
    while p < r.len() && str_lt(r[p].event_id.as_str(), e.event_id.as_str())
        invariant
            p <= r@.len(),
            forall|k: int| 0 <= k < p ==> chars_lt(#[trigger] r@[k].event_id@, e.event_id@),
        decreases r@.len() - p,
    {
        p = p + 1;
    }
    let ghost before = r@;
    proof {
        if p < before.len() {
            lemma_chars_lt_total(before[p as int].event_id@, e.event_id@);
            assert forall|k: int| p < k < before.len() implies chars_lt(e.event_id@, #[trigger] before[k].event_id@) by {
                lemma_chars_lt_transitive(e.event_id@, before[p as int].event_id@, before[k].event_id@);
            }
        }
    }
    r.insert(p, e);
    proof {
        assert forall|a: int, b: int| 0 <= a < b < r@.len() implies chars_lt(
            #[trigger] r@[a].event_id@,
            #[trigger] r@[b].event_id@,
        ) by {
            if b < p {
                assert(r@[a] == before[a] && r@[b] == before[b]);
            } else if b == p {
                assert(r@[a] == before[a]);
            } else if a < p {
                assert(r@[a] == before[a] && r@[b] == before[b - 1]);
                lemma_chars_lt_transitive(before[a].event_id@, r@[p as int].event_id@, before[b - 1].event_id@);
            } else if a == p {
                assert(r@[b] == before[b - 1]);
            } else {
                assert(r@[a] == before[a - 1] && r@[b] == before[b - 1]);
            }
        }
        assert(r@ == before.insert(p as int, e));
    }
}

/// The practice event a stored event records.
pub open spec fn practice_of(e: PracticeEventWrite) -> PracticeEvent {
    PracticeEvent { occurred_at_ms: e.occurred_at_ms, weight: e.weight }
}

/// The entry is the candidate entry of chunk `c` for the query, as the store
/// holds it.
pub open spec fn entry_ok(
    store: MemoryStore,
    req: CandidateQuery,
    e: CandidateEntry,
    c: Chunk,
) -> bool {
    &&& same_chunk(e.chunk, c)
    &&& e.cue_checks@ == req.cue_slots@.map_values(|cue: Slot| cue_check(c, cue))
    &&& exists|h: Seq<PracticeEventWrite>| is_history(h, store.event_map(), c.agent_id@, c.chunk_id@)
        && e.practice_events@ == h.map_values(|x: PracticeEventWrite| practice_of(x))
    &&& e.context_strengths@.len() == req.context_chunk_ids@.len()
    &&& forall|j: int| 0 <= j < req.context_chunk_ids@.len() ==> (#[trigger] e.context_strengths@[j])@
        == strengths(store.association_rows(), c.agent_id@, req.context_chunk_ids@[j]@, c.chunk_id@)
}

/// One retrieval candidate before scoring: the chunk, how it answers each
/// cue, its practice history, and, for each context chunk, the strengths of
/// the associations from that chunk to it.
#[derive(Debug, Clone)]
pub struct CandidateEntry {
    pub chunk: Chunk,
    pub cue_checks: Vec<CueCheck>,
    pub practice_events: Vec<PracticeEvent>,
    pub context_strengths: Vec<Vec<u64>>,
}

impl MemoryStore {
    /// The events of this agent's chunk, in increasing order of event id.
    fn history(&self, agent_id: &AgentId, chunk_id: &ChunkId) -> (r: Vec<PracticeEventWrite>)
        requires
            self.wf(),
        ensures
            is_history(r@, self.event_map(), agent_id@, chunk_id@),
    {
        let ghost f = |e: PracticeEventWrite| event_key(e);
        let ghost rows = self.practice_events@;
        let ghost agent = agent_id@;
        let ghost chunk = chunk_id@;
        let mut r: Vec<PracticeEventWrite> = Vec::new();
        let mut i: usize = 0;
        proof {
            reveal(drawn_from);
            reveal(covers);
        }
        while i < self.practice_events.len()
            invariant
                keys_unique(rows, f),
                rows == self.practice_events@,
                f == (|e: PracticeEventWrite| event_key(e)),
                agent == agent_id@,
                chunk == chunk_id@,
                i <= rows.len(),
                drawn_from(r@, rows, i as int, agent, chunk),
                covers(r@, rows, i as int, agent, chunk),
                ids_sorted(r@),
            decreases rows.len() - i,
        {
            let e = &self.practice_events[i];
            if e.agent_id.same(agent_id) && e.chunk_id.same(chunk_id) {
                proof {
                    lemma_drawn_ids_differ(r@, rows, i as int, agent, chunk);
                }
                let ghost before = r@;
                insert_by_id(&mut r, e.copy());
                proof {
                    let p = choose|p: int| 0 <= p <= before.len() && r@ == before.insert(p, rows[i as int]);
                    lemma_history_take(before, rows, i as int, p, agent, chunk);
                }
            } else {
                proof {
                    lemma_history_skip(r@, rows, i as int, agent, chunk);
                }
            }
            i = i + 1;
        }
        proof {
            lemma_history_done(r@, rows, agent, chunk);
        }
        r
    }

    /// The strengths of this agent's associations from `src` to `dst`, in
    /// store order.
    fn association_strengths(&self, agent_id: &AgentId, src: &ChunkId, dst: &ChunkId) -> (r: Vec<u64>)
        ensures
            r@ == strengths(self.association_rows(), agent_id@, src@, dst@),
    {
        let mut r: Vec<u64> = Vec::new();
        let mut i: usize = 0;
        while i < self.associations.len()
            invariant
                i <= self.associations@.len(),
                r@ == strengths(self.associations@.subrange(0, i as int), agent_id@, src@, dst@),
            decreases self.associations@.len() - i,
        {
            let a = &self.associations[i];
            proof {
                assert(self.associations@.subrange(0, i + 1).drop_last() == self.associations@.subrange(0, i as int));
            }
            if a.agent_id.same(agent_id) && a.src_chunk_id.same(src) && a.dst_chunk_id.same(dst) {
                r.push(a.strength);
            }
            i = i + 1;
        }
        assert(self.associations@.subrange(0, i as int) == self.associations@);
        r
    }

    /// What the store holds for retrieval: every active chunk that the query
    /// admits, in store order, with how it answers each cue, its practice
    /// history and the strengths of its associations from each context
    /// chunk. Scoring, the cue filter that needs number formatting, the
    /// ordering and the limit are applied to these by the caller.
    pub fn candidate_pool(&self, req: &CandidateQuery) -> (r: MemoryResult<Vec<CandidateEntry>>)
        requires
            self.wf(),
        ensures
            blank_field_error(req.fields()) is Some ==> refused(r, req.fields()),
            blank_field_error(req.fields()) is None ==> (r matches Ok(v) && {
                let rows = admitted_rows(self.chunk_rows(), *req);
                &&& v@.len() == rows.len()
                &&& forall|k: int| 0 <= k < v@.len() ==> entry_ok(*self, *req, #[trigger] v@[k], rows[k].chunk)
            }),
    {
        match req.validate() {
            Ok(()) => {},
            Err(e) => return Err(e),
        }
        let ghost rows_all = self.chunks@;
        let mut out: Vec<CandidateEntry> = Vec::new();
        let mut i: usize = 0;
        while i < self.chunks.len()
            invariant
                self.wf(),
                rows_all == self.chunks@,
                i <= rows_all.len(),
                out@.len() == admitted_rows(rows_all.subrange(0, i as int), *req).len(),
                forall|k: int|
                    0 <= k < out@.len() ==> entry_ok(
                        *self,
                        *req,
                        #[trigger] out@[k],
                        admitted_rows(rows_all.subrange(0, i as int), *req)[k].chunk,
                    ),
            decreases rows_all.len() - i,
        {
            let ghost prefix = rows_all.subrange(0, i as int);
            let ghost next = rows_all.subrange(0, i + 1);
            assert(next.drop_last() == prefix);
            let stored = &self.chunks[i];
            let c = &stored.chunk;
            let wanted = stored.active && c.agent_id.same(&req.agent_id) && match &req.chunk_type {
                None => true,
                Some(t) => str_eq(c.chunk_type.as_str(), t.as_str()),
            };
            if wanted {
                proof {
                    assert(slots_wf(rows_all[i as int].chunk.slots@));
                }
                let entry = self.candidate_entry(c, req);
                out.push(entry);
                proof {
                    assert(admitted_rows(next, *req) == admitted_rows(prefix, *req).push(rows_all[i as int]));
                    assert forall|k: int| 0 <= k < out@.len() implies entry_ok(
                        *self,
                        *req,
                        #[trigger] out@[k],
                        admitted_rows(next, *req)[k].chunk,
                    ) by {
                        if k < out@.len() - 1 {
                            assert(admitted_rows(next, *req)[k] == admitted_rows(prefix, *req)[k]);
                        }
                    }
                }
            } else {
                proof {
                    assert(admitted_rows(next, *req) == admitted_rows(prefix, *req));
                }
            }
            i = i + 1;
        }
        assert(rows_all.subrange(0, i as int) == rows_all);
        Ok(out)
    }

    /// The candidate entry of one stored chunk.
    fn candidate_entry(&self, c: &Chunk, req: &CandidateQuery) -> (e: CandidateEntry)
        requires
            self.wf(),
            slots_wf(c.slots@),
        ensures
            entry_ok(*self, *req, e, *c),
    {
        let mut checks: Vec<CueCheck> = Vec::new();
        let mut j: usize = 0;
        while j < req.cue_slots.len()
            invariant
                slots_wf(c.slots@),
                j <= req.cue_slots@.len(),
                checks@ == req.cue_slots@.subrange(0, j as int).map_values(|cue: Slot| cue_check(*c, cue)),
            decreases req.cue_slots@.len() - j,
        {
            let check = cue_check_of(c, &req.cue_slots[j]);
            checks.push(check);
            j = j + 1;
            assert(checks@ =~= req.cue_slots@.subrange(0, j as int).map_values(|cue: Slot| cue_check(*c, cue)));
        }
        assert(req.cue_slots@.subrange(0, j as int) == req.cue_slots@);
        let history = self.history(&c.agent_id, &c.chunk_id);
        let mut events: Vec<PracticeEvent> = Vec::new();
        let mut k: usize = 0;
        while k < history.len()
            invariant
                k <= history@.len(),
                events@ == history@.subrange(0, k as int).map_values(|x: PracticeEventWrite| practice_of(x)),
            decreases history@.len() - k,
        {
            let x = &history[k];
            events.push(PracticeEvent { occurred_at_ms: x.occurred_at_ms, weight: x.weight });
            k = k + 1;
            assert(events@ =~= history@.subrange(0, k as int).map_values(|x: PracticeEventWrite| practice_of(x)));
        }
        assert(history@.subrange(0, k as int) == history@);
        let mut context: Vec<Vec<u64>> = Vec::new();
        let mut m: usize = 0;
        while m < req.context_chunk_ids.len()
            invariant
                m <= req.context_chunk_ids@.len(),
                context@.len() == m,
                forall|j: int| 0 <= j < m ==> (#[trigger] context@[j])@
                    == strengths(self.association_rows(), c.agent_id@, req.context_chunk_ids@[j]@, c.chunk_id@),
            decreases req.context_chunk_ids@.len() - m,
        {
            let found = self.association_strengths(&c.agent_id, &req.context_chunk_ids[m], &c.chunk_id);
            context.push(found);
            m = m + 1;
        }
        CandidateEntry { chunk: c.copy(), cue_checks: checks, practice_events: events, context_strengths: context }
    }
}

/// How a chunk answers one cue.
fn cue_check_of(c: &Chunk, cue: &Slot) -> (r: CueCheck)
    requires
        slots_wf(c.slots@),
    ensures
        r == cue_check(*c, *cue),
{
    match c.slot(cue.key.as_str()) {
        None => CueCheck::Unmatched,
        Some(v) => match (v, &cue.value) {
            (SlotValue::Number(a), SlotValue::Number(b)) => CueCheck::Numbers(*a, *b),
            (SlotValue::Number(_), _) => CueCheck::Unmatched,
            (_, SlotValue::Number(_)) => CueCheck::Unmatched,
            _ => {
                if str_eq(v.value_type(), cue.value.value_type()) && str_eq(
                    v.normalized().as_str(),
                    cue.value.normalized().as_str(),
                ) {
                    CueCheck::Matched
                } else {
                    CueCheck::Unmatched
                }
            },
        },
    }
}

/// What `create_chunk` leaves and answers: a refused request or a key that is
/// taken leaves the store unchanged; otherwise the chunk is stored at version
/// 1 with its encoding event.
pub open spec fn create_effect(
    before: MemoryStore,
    after: MemoryStore,
    req: CreateChunk,
    r: MemoryResult<Chunk>,
) -> bool {
    &&& after.wf()
    &&& (blank_field_error(req.fields()) is Some ==> {
        &&& refused(r, req.fields())
        &&& after == before
    })
    &&& (blank_field_error(req.fields()) is None && before.chunk_map().contains_key(
        (req.chunk.agent_id@, req.chunk.chunk_id@),
    ) ==> {
        &&& r matches Err(MemoryError::Conflict(m)) && m@ == "chunk "@ + req.chunk.chunk_id@
            + " already exists"@
        &&& after == before
    })
    &&& (blank_field_error(req.fields()) is None && !before.chunk_map().contains_key(
        (req.chunk.agent_id@, req.chunk.chunk_id@),
    ) ==> {
        &&& r matches Ok(c) && same_chunk(c, req.chunk)
        &&& after.chunk_map() == before.chunk_map().insert(
            (req.chunk.agent_id@, req.chunk.chunk_id@),
            StoredChunkState { chunk: req.chunk, version: 1, active: true },
        )
        &&& after.event_map().dom() == before.event_map().dom().insert(
            req.initial_practice_event_id@,
        )
        &&& after.event_map()[req.initial_practice_event_id@].kind@ == "encode"@
        &&& after.event_map()[req.initial_practice_event_id@].agent_id == req.chunk.agent_id
        &&& after.event_map()[req.initial_practice_event_id@].chunk_id == req.chunk.chunk_id
        &&& after.event_map()[req.initial_practice_event_id@].occurred_at_ms == req.chunk.created_at_ms
        &&& after.event_map()[req.initial_practice_event_id@].weight == unit_weight()
        &&& forall|k: Seq<char>|
            k != req.initial_practice_event_id@ && before.event_map().contains_key(k)
                ==> after.event_map()[k] == before.event_map()[k]
        &&& after.association_map() == before.association_map()
        &&& after.pointer_map() == before.pointer_map()
        &&& after.rule_map() == before.rule_map()
    })
}

/// What `get_chunk` answers: the chunk when it is stored and active.
pub open spec fn get_result(
    s: MemoryStore,
    agent: Seq<char>,
    id: Seq<char>,
    r: Option<Chunk>,
) -> bool {
    &&& (s.is_active((agent, id)) ==> (r matches Some(c) && same_chunk(
        c,
        s.chunk_map()[(agent, id)].chunk,
    )))
    &&& (!s.is_active((agent, id)) ==> r is None)
}

/// What `update_chunk` leaves and answers: a refused request, a missing or
/// deleted chunk or a stale version leaves the store unchanged; otherwise the
/// slots are replaced and version and update time advance by one.
pub open spec fn update_effect(
    before: MemoryStore,
    after: MemoryStore,
    req: UpdateChunk,
    r: MemoryResult<Chunk>,
) -> bool {
    &&& after.wf()
    &&& ({
        let k = (req.agent_id@, req.chunk_id@);
        if blank_field_error(req.fields()) is Some {
            &&& refused(r, req.fields())
            &&& after == before
        } else if !before.is_active(k) {
            &&& r matches Err(MemoryError::NotFound(m)) && m@ == missing_chunk_text(
                req.chunk_id@,
            )
            &&& after == before
        } else if before.chunk_map()[k].version != req.expected_version {
            &&& r matches Err(MemoryError::Conflict(m)) && m@ == "chunk "@ + req.chunk_id@
                + " version conflict"@
            &&& after == before
        } else {
            let was = before.chunk_map()[k];
            let now = after.chunk_map()[k];
            &&& after.chunk_map().dom() == before.chunk_map().dom()
            &&& forall|j: ChunkKey|
                j != k && before.chunk_map().contains_key(j) ==> after.chunk_map()[j]
                    == before.chunk_map()[j]
            &&& now.active
            &&& now.version == bump(was.version)
            &&& now.chunk.agent_id == was.chunk.agent_id
            &&& now.chunk.chunk_id == was.chunk.chunk_id
            &&& now.chunk.chunk_type == was.chunk.chunk_type
            &&& slot_map(now.chunk.slots@) == with_slots(
                Map::<Seq<char>, Slot>::empty(),
                req.slots@,
            )
            &&& now.chunk.created_at_ms == was.chunk.created_at_ms
            &&& now.chunk.updated_at_ms == bump(was.chunk.updated_at_ms)
            &&& now.chunk.retrieval_count == was.chunk.retrieval_count
            &&& now.chunk.base_bias == was.chunk.base_bias
            &&& r matches Ok(c) && same_chunk(c, now.chunk)
            &&& after.same_except_chunks(&before)
        }
    })
}

/// What `soft_delete_chunk` leaves and answers: an active chunk is marked
/// deleted; anything else is `NotFound` and changes nothing.
pub open spec fn delete_effect(
    before: MemoryStore,
    after: MemoryStore,
    agent: Seq<char>,
    id: Seq<char>,
    r: MemoryResult<()>,
) -> bool {
    &&& after.wf()
    &&& (!before.is_active((agent, id)) ==> {
        &&& r matches Err(MemoryError::NotFound(m)) && m@ == missing_chunk_text(id)
        &&& after == before
    })
    &&& (before.is_active((agent, id)) ==> {
        let k = (agent, id);
        &&& r is Ok
        &&& after.chunk_map() == before.chunk_map().insert(
            k,
            StoredChunkState {
                chunk: before.chunk_map()[k].chunk,
                version: before.chunk_map()[k].version,
                active: false,
            },
        )
        &&& after.same_except_chunks(&before)
    })
}

/// What `append_practice_event` leaves and answers: the event is recorded
/// when the request is valid, its chunk active and its id new; otherwise the
/// store is unchanged.
pub open spec fn append_effect(
    before: MemoryStore,
    after: MemoryStore,
    req: PracticeEventWrite,
    r: MemoryResult<()>,
) -> bool {
    &&& after.wf()
    &&& ({
        if blank_field_error(req.fields()) is Some {
            &&& validated(r, req.fields())
            &&& after == before
        } else if !before.is_active((req.agent_id@, req.chunk_id@)) {
            &&& r matches Err(MemoryError::NotFound(m)) && m@ == missing_chunk_text(
                req.chunk_id@,
            )
            &&& after == before
        } else if before.event_map().contains_key(req.event_id@) {
            &&& r matches Err(MemoryError::Conflict(m)) && m@ == "practice event "@
                + req.event_id@ + " already exists"@
            &&& after == before
        } else {
            &&& r is Ok
            &&& after.event_map() == before.event_map().insert(req.event_id@, req)
            &&& after.chunk_map() == before.chunk_map()
            &&& after.association_map() == before.association_map()
            &&& after.pointer_map() == before.pointer_map()
            &&& after.rule_map() == before.rule_map()
        }
    })
}

/// What `upsert_association` leaves and answers: the association is stored
/// under its key when the request is valid and both chunks are active;
/// otherwise the store is unchanged.
pub open spec fn associate_effect(
    before: MemoryStore,
    after: MemoryStore,
    req: AssociationWrite,
    r: MemoryResult<()>,
) -> bool {
    &&& after.wf()
    &&& ({
        if blank_field_error(req.fields()) is Some {
            &&& validated(r, req.fields())
            &&& after == before
        } else if !before.is_active((req.agent_id@, req.src_chunk_id@)) {
            &&& r matches Err(MemoryError::NotFound(m)) && m@ == missing_chunk_text(
                req.src_chunk_id@,
            )
            &&& after == before
        } else if !before.is_active((req.agent_id@, req.dst_chunk_id@)) {
            &&& r matches Err(MemoryError::NotFound(m)) && m@ == missing_chunk_text(
                req.dst_chunk_id@,
            )
            &&& after == before
        } else {
            &&& r is Ok
            &&& after.association_map() == before.association_map().insert(
                association_key(req),
                req,
            )
            &&& after.chunk_map() == before.chunk_map()
            &&& after.event_map() == before.event_map()
            &&& after.pointer_map() == before.pointer_map()
            &&& after.rule_map() == before.rule_map()
        }
    })
}

} // verus!
