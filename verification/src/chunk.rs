//! Declarative-memory chunks and their typed slots.
use vstd::prelude::*;

use crate::ids::{AgentId, ChunkId, ChunkType};
use crate::keyed::{
    has_key, keyed_map, keys_unique, lemma_keyed_at, lemma_keyed_empty, lemma_keyed_push,
    lemma_keyed_update,
};
use crate::text::{lowercase, to_lowercase, trim, trimmed};

verus! {

/// Typed slot value used by chunks and cue requests.
///
/// A number is an `f64`, carried as its IEEE-754 bit pattern
/// (`f64::to_bits`).
#[derive(Debug, Clone, PartialEq)]
pub enum SlotValue {
    Symbol(String),
    Text(String),
    Number(u64),
    Bool(bool),
}

/// The stable type label of a slot value.
pub open spec fn value_type_text(v: SlotValue) -> Seq<char> {
    match v {
        SlotValue::Symbol(_) => "symbol"@,
        SlotValue::Text(_) => "text"@,
        SlotValue::Number(_) => "number"@,
        SlotValue::Bool(_) => "bool"@,
    }
}

/// The normalized form of a textual or boolean slot value: trimmed and
/// lower-cased text, or `true` / `false`.
pub open spec fn normalized_text(v: SlotValue) -> Seq<char>
    recommends
        !(v is Number),
{
    match v {
        SlotValue::Symbol(s) => lowercase(trimmed(s@)),
        SlotValue::Text(s) => lowercase(trimmed(s@)),
        SlotValue::Bool(b) => if b { "true"@ } else { "false"@ },
        SlotValue::Number(_) => Seq::empty(),
    }
}

impl SlotValue {
    /// Returns a stable type label for storage and diagnostics.
    pub fn value_type(&self) -> (r: &'static str)
        ensures
            r@ == value_type_text(*self),
    {
        match self {
            SlotValue::Symbol(_) => "symbol",
            SlotValue::Text(_) => "text",
            SlotValue::Number(_) => "number",
            SlotValue::Bool(_) => "bool",
        }
    }

    /// Returns the normalized representation used for indexing of a textual
    /// or boolean value. Numbers are written with twelve decimals, which is
    /// floating-point formatting and done where the float is held.
    pub fn normalized(&self) -> (r: String)
        requires
            !(*self is Number),
        ensures
            r@ == normalized_text(*self),
    {
        match self {
            SlotValue::Symbol(value) => to_lowercase(trim(value.as_str())),
            SlotValue::Text(value) => to_lowercase(trim(value.as_str())),
            SlotValue::Bool(value) => if *value {
                String::from_str("true")
            } else {
                String::from_str("false")
            },
            SlotValue::Number(_) => String::new(),
        }
    }

    pub fn copy(&self) -> (r: Self)
        ensures
            r == *self,
    {
        match self {
            SlotValue::Symbol(s) => SlotValue::Symbol(s.clone()),
            SlotValue::Text(s) => SlotValue::Text(s.clone()),
            SlotValue::Number(n) => SlotValue::Number(*n),
            SlotValue::Bool(b) => SlotValue::Bool(*b),
        }
    }
}

/// A named chunk slot.
#[derive(Debug, Clone, PartialEq)]
pub struct Slot {
    pub key: String,
    pub value: SlotValue,
}

/// The key of a slot, as text.
pub open spec fn slot_key(s: Slot) -> Seq<char> {
    s.key@
}

impl Slot {
    pub fn new(key: String, value: SlotValue) -> (r: Self)
        ensures
            r == (Slot { key, value }),
    {
        Slot { key, value }
    }

    pub fn copy(&self) -> (r: Self)
        ensures
            r == *self,
    {
        Slot { key: self.key.clone(), value: self.value.copy() }
    }
}

/// Declarative memory chunk.
///
/// `base_bias` is an `f64` carried as its bit pattern. The slots are kept
/// with unique keys (`wf`).
#[derive(Debug, Clone, PartialEq)]
pub struct Chunk {
    pub agent_id: AgentId,
    pub chunk_id: ChunkId,
    pub chunk_type: ChunkType,
    pub slots: Vec<Slot>,
    pub created_at_ms: u64,
    pub updated_at_ms: u64,
    pub retrieval_count: u64,
    pub base_bias: u64,
}

/// The slots of a slot list by key.
pub open spec fn slot_map(slots: Seq<Slot>) -> Map<Seq<char>, Slot> {
    keyed_map(slots, |s: Slot| slot_key(s))
}

/// Each slot key occurs once.
pub open spec fn slots_wf(slots: Seq<Slot>) -> bool {
    keys_unique(slots, |s: Slot| slot_key(s))
}

/// The value of slot `key` of a slot list, if it has one.
pub open spec fn slot_value(slots: Seq<Slot>, key: Seq<char>) -> Option<SlotValue> {
    if slot_map(slots).contains_key(key) {
        Some(slot_map(slots)[key].value)
    } else {
        None
    }
}

/// Index of the slot with key `key`, if there is one.
pub fn find_slot(slots: &Vec<Slot>, key: &str) -> (r: Option<usize>)
    requires
        slots_wf(slots@),
    ensures
        match r {
            Some(i) => i < slots@.len() && slots@[i as int].key@ == key@,
            None => !slot_map(slots@).contains_key(key@),
        },
{
    let mut i: usize = 0;
    while i < slots.len()
        invariant
            i <= slots.len(),
            forall|j: int| 0 <= j < i ==> (#[trigger] slots@[j]).key@ != key@,
        decreases slots.len() - i,
    {
        if crate::order::str_eq(slots[i].key.as_str(), key) {
            return Some(i);
        }
        i = i + 1;
    }
    proof {
        if has_key(slots@, |s: Slot| slot_key(s), key@) {
            let j = choose|j: int|
                0 <= j < slots@.len() && (|s: Slot| slot_key(s))(#[trigger] slots@[j]) == key@;
            assert(slots@[j].key@ != key@);
        }
    }
    None
}

/// Inserts or replaces the slot with the given key.
pub fn upsert_slot_in(slots: &mut Vec<Slot>, key: String, value: SlotValue)
    requires
        slots_wf(old(slots)@),
    ensures
        slots_wf(final(slots)@),
        slot_map(final(slots)@) == slot_map(old(slots)@).insert(key@, Slot { key, value }),
{
    let ghost f = |s: Slot| slot_key(s);
    let found = find_slot(slots, key.as_str());
    let slot = Slot { key, value };
    match found {
        Some(i) => {
            proof {
                lemma_keyed_update(slots@, f, i as int, slot);
            }
            slots.set(i, slot);
        },
        None => {
            proof {
                lemma_keyed_push(slots@, f, slot);
            }
            slots.push(slot);
        },
    }
}

impl Chunk {
    pub open spec fn wf(&self) -> bool {
        slots_wf(self.slots@)
    }

    /// Creates an empty chunk stamped with caller-provided logical time.
    pub fn new(agent_id: AgentId, chunk_id: ChunkId, chunk_type: ChunkType, now_ms: u64) -> (r:
        Self)
        ensures
            r.wf(),
            r.agent_id == agent_id,
            r.chunk_id == chunk_id,
            r.chunk_type == chunk_type,
            r.slots@.len() == 0,
            slot_map(r.slots@) == Map::<Seq<char>, Slot>::empty(),
            r.created_at_ms == now_ms,
            r.updated_at_ms == now_ms,
            r.retrieval_count == 0,
            r.base_bias == 0,
    {
        let r = Chunk {
            agent_id,
            chunk_id,
            chunk_type,
            slots: Vec::new(),
            created_at_ms: now_ms,
            updated_at_ms: now_ms,
            retrieval_count: 0,
            base_bias: 0,
        };
        proof {
            lemma_keyed_empty(r.slots@, |s: Slot| slot_key(s));
        }
        r
    }

    /// Returns this chunk with a slot inserted or replaced.
    pub fn with_slot(self, key: String, value: SlotValue) -> (r: Self)
        requires
            self.wf(),
        ensures
            r.wf(),
            slot_map(r.slots@) == slot_map(self.slots@).insert(key@, Slot { key, value }),
            r.agent_id == self.agent_id,
            r.chunk_id == self.chunk_id,
            r.chunk_type == self.chunk_type,
            r.created_at_ms == self.created_at_ms,
            r.updated_at_ms == self.updated_at_ms,
            r.retrieval_count == self.retrieval_count,
            r.base_bias == self.base_bias,
    {
        let mut c = self;
        c.upsert_slot(key, value);
        c
    }

    /// Inserts or replaces a slot value.
    pub fn upsert_slot(&mut self, key: String, value: SlotValue)
        requires
            old(self).wf(),
        ensures
            final(self).wf(),
            slot_map(final(self).slots@) == slot_map(old(self).slots@).insert(
                key@,
                Slot { key, value },
            ),
            final(self).agent_id == old(self).agent_id,
            final(self).chunk_id == old(self).chunk_id,
            final(self).chunk_type == old(self).chunk_type,
            final(self).created_at_ms == old(self).created_at_ms,
            final(self).updated_at_ms == old(self).updated_at_ms,
            final(self).retrieval_count == old(self).retrieval_count,
            final(self).base_bias == old(self).base_bias,
    {
        upsert_slot_in(&mut self.slots, key, value);
    }

    /// Returns a slot's value by key.
    pub fn slot(&self, key: &str) -> (r: Option<&SlotValue>)
        requires
            self.wf(),
        ensures
            match r {
                Some(v) => slot_value(self.slots@, key@) == Some(*v),
                None => slot_value(self.slots@, key@) is None,
            },
    {
        match find_slot(&self.slots, key) {
            Some(i) => {
                proof {
                    lemma_keyed_at(self.slots@, |s: Slot| slot_key(s), i as int);
                }
                Some(&self.slots[i].value)
            },
            None => None,
        }
    }

    /// Records a retrieval in pure domain state using caller-provided time.
    pub fn record_retrieval(&mut self, now_ms: u64)
        ensures
            final(self).retrieval_count == if old(self).retrieval_count == u64::MAX {
                u64::MAX
            } else {
                (old(self).retrieval_count + 1) as u64
            },
            final(self).updated_at_ms == now_ms,
            final(self).agent_id == old(self).agent_id,
            final(self).chunk_id == old(self).chunk_id,
            final(self).chunk_type == old(self).chunk_type,
            final(self).slots == old(self).slots,
            final(self).created_at_ms == old(self).created_at_ms,
            final(self).base_bias == old(self).base_bias,
    {
        self.retrieval_count = self.retrieval_count.saturating_add(1);
        self.updated_at_ms = now_ms;
    }

    /// A field-by-field copy.
    pub fn copy(&self) -> (r: Self)
        ensures
            r.agent_id == self.agent_id,
            r.chunk_id == self.chunk_id,
            r.chunk_type == self.chunk_type,
            r.slots@ == self.slots@,
            r.created_at_ms == self.created_at_ms,
            r.updated_at_ms == self.updated_at_ms,
            r.retrieval_count == self.retrieval_count,
            r.base_bias == self.base_bias,
    {
        let mut slots: Vec<Slot> = Vec::new();
        let mut i: usize = 0;
        while i < self.slots.len()
            invariant
                i <= self.slots.len(),
                slots@ == self.slots@.subrange(0, i as int),
            decreases self.slots.len() - i,
        {
            slots.push(self.slots[i].copy());
            i = i + 1;
            assert(slots@ =~= self.slots@.subrange(0, i as int));
        }
        assert(self.slots@.subrange(0, i as int) =~= self.slots@);
        Chunk {
            agent_id: self.agent_id.copy(),
            chunk_id: self.chunk_id.copy(),
            chunk_type: self.chunk_type.copy(),
            slots,
            created_at_ms: self.created_at_ms,
            updated_at_ms: self.updated_at_ms,
            retrieval_count: self.retrieval_count,
            base_bias: self.base_bias,
        }
    }
}

/// One practice of a chunk: when it happened and how much it counts.
///
/// `weight` is an `f64`, carried as its bit pattern.
#[derive(Debug, Clone, Copy, PartialEq)]
pub struct PracticeEvent {
    pub occurred_at_ms: u64,
    pub weight: u64,
}

/// The bit pattern of the `f64` value 1.0.
pub open spec fn one_bits() -> u64 {
    0x3FF0_0000_0000_0000
}

impl PracticeEvent {
    /// A practice of weight 1.0.
    pub fn new(occurred_at_ms: u64) -> (r: Self)
        ensures
            r == (PracticeEvent { occurred_at_ms, weight: one_bits() }),
    {
        PracticeEvent { occurred_at_ms, weight: 0x3FF0_0000_0000_0000 }
    }

    /// The same practice with another weight.
    pub fn with_weight(self, weight: u64) -> (r: Self)
        ensures
            r == (PracticeEvent { occurred_at_ms: self.occurred_at_ms, weight }),
    {
        PracticeEvent { weight, ..self }
    }
}

} // verus!
