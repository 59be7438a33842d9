//! String identifiers of agents, chunks, chunk types and production rules.
use vstd::prelude::*;
use vstd::std_specs::convert::FromSpecImpl;

verus! {

/// Stable tenant or agent identifier for declarative memory.
#[derive(Debug, Clone, PartialEq, Eq, PartialOrd, Ord, Hash)]
pub struct AgentId(pub String);

/// Stable chunk identifier within an agent's declarative memory.
#[derive(Debug, Clone, PartialEq, Eq, PartialOrd, Ord, Hash)]
pub struct ChunkId(pub String);

/// Symbolic ACT-R chunk type, such as `goal`, `fact`, or `episode`.
#[derive(Debug, Clone, PartialEq, Eq, PartialOrd, Ord, Hash)]
pub struct ChunkType(pub String);

/// Identifier of a production rule.
#[derive(Debug, Clone, PartialEq, Eq, PartialOrd, Ord, Hash)]
pub struct RuleId(pub String);

impl View for AgentId {
    type V = Seq<char>;

    open spec fn view(&self) -> Seq<char> {
        self.0@
    }
}

impl View for ChunkId {
    type V = Seq<char>;

    open spec fn view(&self) -> Seq<char> {
        self.0@
    }
}

impl View for ChunkType {
    type V = Seq<char>;

    open spec fn view(&self) -> Seq<char> {
        self.0@
    }
}

impl View for RuleId {
    type V = Seq<char>;

    open spec fn view(&self) -> Seq<char> {
        self.0@
    }
}

impl AgentId {
    pub fn new(value: String) -> (r: Self)
        ensures
            r.0 == value,
    {
        AgentId(value)
    }

    pub fn as_str(&self) -> (r: &str)
        ensures
            r@ == self@,
    {
        self.0.as_str()
    }

    pub fn copy(&self) -> (r: Self)
        ensures
            r == *self,
    {
        AgentId(self.0.clone())
    }

    pub fn same(&self, other: &Self) -> (r: bool)
        ensures
            r == (self@ == other@),
    {
        self.0 == other.0
    }
}

impl ChunkId {
    pub fn new(value: String) -> (r: Self)
        ensures
            r.0 == value,
    {
        ChunkId(value)
    }

    pub fn as_str(&self) -> (r: &str)
        ensures
            r@ == self@,
    {
        self.0.as_str()
    }

    pub fn copy(&self) -> (r: Self)
        ensures
            r == *self,
    {
        ChunkId(self.0.clone())
    }

    pub fn same(&self, other: &Self) -> (r: bool)
        ensures
            r == (self@ == other@),
    {
        self.0 == other.0
    }
}

impl ChunkType {
    pub fn new(value: String) -> (r: Self)
        ensures
            r.0 == value,
    {
        ChunkType(value)
    }

    pub fn as_str(&self) -> (r: &str)
        ensures
            r@ == self@,
    {
        self.0.as_str()
    }

    pub fn copy(&self) -> (r: Self)
        ensures
            r == *self,
    {
        ChunkType(self.0.clone())
    }

    pub fn same(&self, other: &Self) -> (r: bool)
        ensures
            r == (self@ == other@),
    {
        self.0 == other.0
    }
}

impl RuleId {
    pub fn new(value: String) -> (r: Self)
        ensures
            r.0 == value,
    {
        RuleId(value)
    }

    pub fn as_str(&self) -> (r: &str)
        ensures
            r@ == self@,
    {
        self.0.as_str()
    }

    pub fn copy(&self) -> (r: Self)
        ensures
            r == *self,
    {
        RuleId(self.0.clone())
    }

    pub fn same(&self, other: &Self) -> (r: bool)
        ensures
            r == (self@ == other@),
    {
        self.0 == other.0
    }
}

impl From<String> for AgentId {
    fn from(value: String) -> (r: Self) {
        AgentId(value)
    }
}

impl FromSpecImpl<String> for AgentId {
    open spec fn obeys_from_spec() -> bool {
        true
    }

    open spec fn from_spec(v: String) -> Self {
        AgentId(v)
    }
}

impl From<String> for ChunkId {
    fn from(value: String) -> (r: Self) {
        ChunkId(value)
    }
}

impl FromSpecImpl<String> for ChunkId {
    open spec fn obeys_from_spec() -> bool {
        true
    }

    open spec fn from_spec(v: String) -> Self {
        ChunkId(v)
    }
}

impl From<String> for ChunkType {
    fn from(value: String) -> (r: Self) {
        ChunkType(value)
    }
}

impl FromSpecImpl<String> for ChunkType {
    open spec fn obeys_from_spec() -> bool {
        true
    }

    open spec fn from_spec(v: String) -> Self {
        ChunkType(v)
    }
}

impl From<String> for RuleId {
    fn from(value: String) -> (r: Self) {
        RuleId(value)
    }
}

impl FromSpecImpl<String> for RuleId {
    open spec fn obeys_from_spec() -> bool {
        true
    }

    open spec fn from_spec(v: String) -> Self {
        RuleId(v)
    }
}

impl<'a> From<&'a str> for AgentId {
    fn from(value: &'a str) -> (r: Self) {
        AgentId(String::from_str(value))
    }
}

/// Verus keeps no value-level model of a `String` built from a `&str`, so
/// this conversion is stated through `AgentId::new` and the view instead.
impl<'a> FromSpecImpl<&'a str> for AgentId {
    open spec fn obeys_from_spec() -> bool {
        false
    }

    open spec fn from_spec(v: &'a str) -> Self {
        AgentId(choose|s: String| s@ == v@)
    }
}

impl<'a> From<&'a str> for ChunkId {
    fn from(value: &'a str) -> (r: Self) {
        ChunkId(String::from_str(value))
    }
}

/// Verus keeps no value-level model of a `String` built from a `&str`, so
/// this conversion is stated through `ChunkId::new` and the view instead.
impl<'a> FromSpecImpl<&'a str> for ChunkId {
    open spec fn obeys_from_spec() -> bool {
        false
    }

    open spec fn from_spec(v: &'a str) -> Self {
        ChunkId(choose|s: String| s@ == v@)
    }
}

impl<'a> From<&'a str> for ChunkType {
    fn from(value: &'a str) -> (r: Self) {
        ChunkType(String::from_str(value))
    }
}

/// Verus keeps no value-level model of a `String` built from a `&str`, so
/// this conversion is stated through `ChunkType::new` and the view instead.
impl<'a> FromSpecImpl<&'a str> for ChunkType {
    open spec fn obeys_from_spec() -> bool {
        false
    }

    open spec fn from_spec(v: &'a str) -> Self {
        ChunkType(choose|s: String| s@ == v@)
    }
}

impl<'a> From<&'a str> for RuleId {
    fn from(value: &'a str) -> (r: Self) {
        RuleId(String::from_str(value))
    }
}

/// Verus keeps no value-level model of a `String` built from a `&str`, so
/// this conversion is stated through `RuleId::new` and the view instead.
impl<'a> FromSpecImpl<&'a str> for RuleId {
    open spec fn obeys_from_spec() -> bool {
        false
    }

    open spec fn from_spec(v: &'a str) -> Self {
        RuleId(choose|s: String| s@ == v@)
    }
}

} // verus!
