//! ACT-R buffers: named slots that each hold at most one chunk.
use vstd::prelude::*;
use vstd::std_specs::convert::FromSpecImpl;

use crate::ids::{ChunkId, ChunkType};
use crate::order::{chars_lt, lemma_chars_lt_irreflexive, lemma_chars_lt_total, lemma_chars_lt_transitive, str_eq, str_lt};

verus! {

#[derive(Debug, Clone, PartialEq, Eq, PartialOrd, Ord, Hash)]
pub enum BufferName {
    Goal,
    Retrieval,
    Imaginal,
    Task,
    Custom(String),
}

/// Position of a buffer name's variant in the declaration order.
pub open spec fn name_rank(n: BufferName) -> nat {
    match n {
        BufferName::Goal => 0,
        BufferName::Retrieval => 1,
        BufferName::Imaginal => 2,
        BufferName::Task => 3,
        BufferName::Custom(_) => 4,
    }
}

/// What identifies a buffer: its variant, and for a custom buffer its text.
pub open spec fn name_key(n: BufferName) -> (nat, Seq<char>) {
    match n {
        BufferName::Custom(s) => (4, s@),
        _ => (name_rank(n), Seq::empty()),
    }
}

/// The order that `Ord for BufferName` gives keys: by variant, then custom
/// names as strings.
pub open spec fn key_lt(a: (nat, Seq<char>), b: (nat, Seq<char>)) -> bool {
    a.0 < b.0 || (a.0 == b.0 && chars_lt(a.1, b.1))
}

/// The text that `as_str` gives a buffer name.
pub open spec fn name_text(n: BufferName) -> Seq<char> {
    match n {
        BufferName::Goal => "goal"@,
        BufferName::Retrieval => "retrieval"@,
        BufferName::Imaginal => "imaginal"@,
        BufferName::Task => "task"@,
        BufferName::Custom(s) => s@,
    }
}

pub proof fn lemma_key_lt_irreflexive(a: (nat, Seq<char>))
    ensures
        !key_lt(a, a),
{
    lemma_chars_lt_irreflexive(a.1);
}

pub proof fn lemma_key_lt_transitive(a: (nat, Seq<char>), b: (nat, Seq<char>), c: (nat, Seq<char>))
    requires
        key_lt(a, b),
        key_lt(b, c),
    ensures
        key_lt(a, c),
{
    if a.0 == b.0 && b.0 == c.0 {
        lemma_chars_lt_transitive(a.1, b.1, c.1);
    }
}

pub proof fn lemma_key_lt_total(a: (nat, Seq<char>), b: (nat, Seq<char>))
    ensures
        a == b || key_lt(a, b) || key_lt(b, a),
{
    lemma_chars_lt_total(a.1, b.1);
}

impl BufferName {
    pub fn as_str(&self) -> (r: &str)
        ensures
            r@ == name_text(*self),
    {
        match self {
            BufferName::Goal => "goal",
            BufferName::Retrieval => "retrieval",
            BufferName::Imaginal => "imaginal",
            BufferName::Task => "task",
            BufferName::Custom(name) => name.as_str(),
        }
    }

    /// The four buffers every session starts with, in order.
    pub fn core_names() -> (r: Vec<BufferName>)
        ensures
            r@ == seq![BufferName::Goal, BufferName::Retrieval, BufferName::Imaginal, BufferName::Task],
    {
        vec![BufferName::Goal, BufferName::Retrieval, BufferName::Imaginal, BufferName::Task]
    }

    pub fn copy(&self) -> (r: Self)
        ensures
            r == *self,
    {
        match self {
            BufferName::Goal => BufferName::Goal,
            BufferName::Retrieval => BufferName::Retrieval,
            BufferName::Imaginal => BufferName::Imaginal,
            BufferName::Task => BufferName::Task,
            BufferName::Custom(name) => BufferName::Custom(name.clone()),
        }
    }

    /// Whether two names denote the same buffer (`==`).
    pub fn same(&self, other: &Self) -> (r: bool)
        ensures
            r == (name_key(*self) == name_key(*other)),
    {
        if self.rank() != other.rank() {
            false
        } else {
            match (self, other) {
                (BufferName::Custom(a), BufferName::Custom(b)) => str_eq(a.as_str(), b.as_str()),
                _ => true,
            }
        }
    }

    /// Whether `self < other` in the order of buffer names.
    pub fn precedes(&self, other: &Self) -> (r: bool)
        ensures
            r == key_lt(name_key(*self), name_key(*other)),
    {
        let a = self.rank();
        let b = other.rank();
        if a != b {
            a < b
        } else {
            match (self, other) {
                (BufferName::Custom(x), BufferName::Custom(y)) => str_lt(x.as_str(), y.as_str()),
                _ => {
                    proof {
                        lemma_chars_lt_irreflexive(Seq::<char>::empty());
                    }
                    false
                },
            }
        }
    }

    fn rank(&self) -> (r: u8)
        ensures
            r as nat == name_rank(*self),
    {
        match self {
            BufferName::Goal => 0,
            BufferName::Retrieval => 1,
            BufferName::Imaginal => 2,
            BufferName::Task => 3,
            BufferName::Custom(_) => 4,
        }
    }
}

#[derive(Debug, Clone, PartialEq)]
pub struct BufferState {
    pub name: BufferName,
    pub chunk_id: Option<ChunkId>,
    pub chunk_type: Option<ChunkType>,
    pub updated_at_ms: u64,
}

#[derive(Debug, Clone, PartialEq)]
pub struct BufferSnapshot {
    pub name: BufferName,
    pub chunk_id: Option<ChunkId>,
    pub chunk_type: Option<ChunkType>,
    pub updated_at_ms: u64,
}

/// The snapshot of a buffer state: the same four fields.
pub open spec fn snapshot_of(s: BufferState) -> BufferSnapshot {
    BufferSnapshot {
        name: s.name,
        chunk_id: s.chunk_id,
        chunk_type: s.chunk_type,
        updated_at_ms: s.updated_at_ms,
    }
}

fn copy_chunk_id(c: &Option<ChunkId>) -> (r: Option<ChunkId>)
    ensures
        r == *c,
{
    match c {
        Some(id) => Some(id.copy()),
        None => None,
    }
}

fn copy_chunk_type(c: &Option<ChunkType>) -> (r: Option<ChunkType>)
    ensures
        r == *c,
{
    match c {
        Some(t) => Some(t.copy()),
        None => None,
    }
}

impl BufferState {
    pub fn empty(name: BufferName) -> (r: Self)
        ensures
            r == (BufferState { name, chunk_id: None, chunk_type: None, updated_at_ms: 0 }),
    {
        BufferState { name, chunk_id: None, chunk_type: None, updated_at_ms: 0 }
    }

    pub fn set(&mut self, chunk_id: ChunkId, chunk_type: ChunkType, now_ms: u64)
        ensures
            *final(self) == (BufferState {
                name: old(self).name,
                chunk_id: Some(chunk_id),
                chunk_type: Some(chunk_type),
                updated_at_ms: now_ms,
            }),
    {
        self.chunk_id = Some(chunk_id);
        self.chunk_type = Some(chunk_type);
        self.updated_at_ms = now_ms;
    }

    pub fn clear(&mut self, now_ms: u64)
        ensures
            *final(self) == (BufferState {
                name: old(self).name,
                chunk_id: None,
                chunk_type: None,
                updated_at_ms: now_ms,
            }),
    {
        self.chunk_id = None;
        self.chunk_type = None;
        self.updated_at_ms = now_ms;
    }

    pub fn snapshot(&self) -> (r: BufferSnapshot)
        ensures
            r == snapshot_of(*self),
    {
        BufferSnapshot {
            name: self.name.copy(),
            chunk_id: copy_chunk_id(&self.chunk_id),
            chunk_type: copy_chunk_type(&self.chunk_type),
            updated_at_ms: self.updated_at_ms,
        }
    }
}

impl<'a> From<&'a BufferState> for BufferSnapshot {
    fn from(value: &'a BufferState) -> (r: Self) {
        value.snapshot()
    }
}

impl<'a> FromSpecImpl<&'a BufferState> for BufferSnapshot {
    open spec fn obeys_from_spec() -> bool {
        true
    }

    open spec fn from_spec(v: &'a BufferState) -> Self {
        snapshot_of(*v)
    }
}

impl BufferSnapshot {
    pub fn copy(&self) -> (r: Self)
        ensures
            r == *self,
    {
        BufferSnapshot {
            name: self.name.copy(),
            chunk_id: copy_chunk_id(&self.chunk_id),
            chunk_type: copy_chunk_type(&self.chunk_type),
            updated_at_ms: self.updated_at_ms,
        }
    }
}

} // verus!
