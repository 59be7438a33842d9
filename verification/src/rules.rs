//! Production rules: conditions on buffers, and conflict resolution among the
//! rules whose conditions hold.
use vstd::prelude::*;

use crate::buffers::{BufferName, BufferSnapshot, name_key};
use crate::chunk::{Chunk, Slot, SlotValue, normalized_text, slot_value, slots_wf, value_type_text};
use crate::ids::{ChunkId, ChunkType, RuleId};
use crate::ops::is_finite_bits;
use crate::order::{
    chars_lt, lemma_chars_lt_irreflexive, lemma_chars_lt_total, lemma_chars_lt_transitive,
    str_eq, str_lt,
};

verus! {

/// A test on one buffer: it must hold a chunk, optionally of a given id and
/// a given type.
#[derive(Debug, Clone, PartialEq)]
pub struct BufferCondition {
    pub buffer: BufferName,
    pub chunk_id: Option<ChunkId>,
    pub chunk_type: Option<ChunkType>,
}

/// Whether condition `c` holds of the snapshot of one buffer.
pub open spec fn holds_on(c: BufferCondition, s: BufferSnapshot) -> bool {
    &&& name_key(s.name) == name_key(c.buffer)
    &&& s.chunk_id is Some
    &&& (c.chunk_id matches Some(id) ==> s.chunk_id->0@ == id@)
    &&& (c.chunk_type matches Some(t) ==> (s.chunk_type matches Some(u) && u@ == t@))
}

/// Whether condition `c` holds of some buffer.
pub open spec fn condition_matches(c: BufferCondition, buffers: Seq<BufferSnapshot>) -> bool {
    exists|i: int| 0 <= i < buffers.len() && holds_on(c, #[trigger] buffers[i])
}

impl BufferCondition {
    pub fn buffer_present(buffer: BufferName) -> (r: Self)
        ensures
            r == (BufferCondition { buffer, chunk_id: None, chunk_type: None }),
    {
        BufferCondition { buffer, chunk_id: None, chunk_type: None }
    }

    fn holds(&self, s: &BufferSnapshot) -> (r: bool)
        ensures
            r == holds_on(*self, *s),
    {
        if !s.name.same(&self.buffer) {
            return false;
        }
        let present = match &s.chunk_id {
            Some(actual) => match &self.chunk_id {
                Some(wanted) => actual.same(wanted),
                None => true,
            },
            None => false,
        };
        if !present {
            return false;
        }
        match &self.chunk_type {
            Some(wanted) => match &s.chunk_type {
                Some(actual) => actual.same(wanted),
                None => false,
            },
            None => true,
        }
    }

    pub fn matches(&self, buffers: &[BufferSnapshot]) -> (r: bool)
        ensures
            r == condition_matches(*self, buffers@),
    {
        let mut i: usize = 0;
        while i < buffers.len()
            invariant
                i <= buffers@.len(),
                forall|j: int| 0 <= j < i ==> !holds_on(*self, #[trigger] buffers@[j]),
            decreases buffers@.len() - i,
        {
            if self.holds(&buffers[i]) {
                return true;
            }
            i = i + 1;
        }
        false
    }
}

/// A test on the chunk that the last retrieval returned: there must be one,
/// optionally of a given id and a given type, holding each given slot.
#[derive(Debug, Clone, PartialEq)]
pub struct RetrievedChunkCondition {
    pub chunk_id: Option<ChunkId>,
    pub chunk_type: Option<ChunkType>,
    pub slots: Vec<Slot>,
}

/// A chunk's value answers a wanted value: both are numbers with the same
/// bit pattern, or neither is a number and they agree in type and
/// normalized text.
pub open spec fn value_answers(have: SlotValue, want: SlotValue) -> bool {
    match (have, want) {
        (SlotValue::Number(a), SlotValue::Number(b)) => a == b,
        (SlotValue::Number(_), _) => false,
        (_, SlotValue::Number(_)) => false,
        _ => value_type_text(have) == value_type_text(want) && normalized_text(have) == normalized_text(want),
    }
}

/// The chunk holds the slot: a slot with its key whose value answers it.
pub open spec fn holds_slot(c: Chunk, want: Slot) -> bool {
    slot_value(c.slots@, want.key@) matches Some(v) && value_answers(v, want.value)
}

/// Whether condition `c` holds of the retrieved chunk, if there is one.
pub open spec fn retrieved_holds(c: RetrievedChunkCondition, retrieved: Option<Chunk>) -> bool {
    &&& retrieved is Some
    &&& (c.chunk_id matches Some(id) ==> retrieved->0.chunk_id@ == id@)
    &&& (c.chunk_type matches Some(t) ==> retrieved->0.chunk_type@ == t@)
    &&& forall|k: int| 0 <= k < c.slots@.len() ==> holds_slot(retrieved->0, #[trigger] c.slots@[k])
}

/// The retrieved chunk, when there is one, keeps its slot keys unique.
pub open spec fn retrieved_wf(retrieved: Option<Chunk>) -> bool {
    retrieved matches Some(c) ==> slots_wf(c.slots@)
}

fn value_answers_exec(have: &SlotValue, want: &SlotValue) -> (r: bool)
    ensures
        r == value_answers(*have, *want),
{
    match (have, want) {
        (SlotValue::Number(a), SlotValue::Number(b)) => *a == *b,
        (SlotValue::Number(_), _) => false,
        (_, SlotValue::Number(_)) => false,
        _ => str_eq(have.value_type(), want.value_type()) && str_eq(
            have.normalized().as_str(),
            want.normalized().as_str(),
        ),
    }
}

impl RetrievedChunkCondition {
    pub fn copy(&self) -> (r: Self)
        ensures
            r.chunk_id == self.chunk_id,
            r.chunk_type == self.chunk_type,
            r.slots@ == self.slots@,
    {
        let mut slots: Vec<Slot> = Vec::new();
        let mut i: usize = 0;
        while i < self.slots.len()
            invariant
                i <= self.slots@.len(),
                slots@ == self.slots@.subrange(0, i as int),
            decreases self.slots@.len() - i,
        {
            slots.push(self.slots[i].copy());
            i = i + 1;
            assert(slots@ =~= self.slots@.subrange(0, i as int));
        }
        assert(self.slots@.subrange(0, i as int) =~= self.slots@);
        RetrievedChunkCondition {
            chunk_id: match &self.chunk_id {
                Some(id) => Some(id.copy()),
                None => None,
            },
            chunk_type: match &self.chunk_type {
                Some(t) => Some(t.copy()),
                None => None,
            },
            slots,
        }
    }

    /// Whether the condition holds of the retrieved chunk.
    pub fn matches(&self, retrieved: &Option<Chunk>) -> (r: bool)
        requires
            retrieved_wf(*retrieved),
        ensures
            r == retrieved_holds(*self, *retrieved),
    {
        let chunk = match retrieved {
            Some(c) => c,
            None => {
                return false;
            },
        };
        match &self.chunk_id {
            Some(id) => {
                if !chunk.chunk_id.same(id) {
                    return false;
                }
            },
            None => {},
        }
        match &self.chunk_type {
            Some(t) => {
                if !chunk.chunk_type.same(t) {
                    return false;
                }
            },
            None => {},
        }
        let mut k: usize = 0;
        while k < self.slots.len()
            invariant
                slots_wf(chunk.slots@),
                *retrieved == Some(*chunk),
                k <= self.slots@.len(),
                forall|j: int| 0 <= j < k ==> holds_slot(*chunk, #[trigger] self.slots@[j]),
            decreases self.slots@.len() - k,
        {
            let want = &self.slots[k];
            let held = match chunk.slot(want.key.as_str()) {
                Some(v) => value_answers_exec(v, &want.value),
                None => false,
            };
            if !held {
                assert(!holds_slot(*chunk, self.slots@[k as int]));
                return false;
            }
            k = k + 1;
        }
        true
    }
}

/// A production: its conditions on buffers, and the utility that ranks it
/// among the productions that match.
///
/// The utility is an `f64`, carried as its IEEE-754 bit pattern.
#[derive(Debug, Clone, PartialEq)]
pub struct ProductionRule {
    pub rule_id: RuleId,
    pub name: String,
    pub enabled: bool,
    pub utility: u64,
    pub version: u64,
    pub conditions: Vec<BufferCondition>,
    pub retrieved_chunk: Option<RetrievedChunkCondition>,
}

/// Number of conditions that also fix a chunk id or type.
pub open spec fn pinned_count(cs: Seq<BufferCondition>) -> nat
    decreases cs.len(),
{
    if cs.len() == 0 {
        0
    } else {
        pinned_count(cs.drop_last()) + if cs.last().chunk_id is Some || cs.last().chunk_type is Some {
            1nat
        } else {
            0nat
        }
    }
}

/// The points a retrieved-chunk condition adds to a rule's specificity: one
/// for the condition, and one more if it fixes a chunk id or type.
pub open spec fn retrieved_points(c: Option<RetrievedChunkCondition>) -> nat {
    match c {
        None => 0,
        Some(c) => if c.chunk_id is Some || c.chunk_type is Some {
            2
        } else {
            1
        },
    }
}

/// How specific a rule is: one point per condition, and one more per
/// condition that fixes a chunk id or type, counting its retrieved-chunk
/// condition as one more condition.
pub open spec fn specificity_of(r: ProductionRule) -> nat {
    r.conditions@.len() + pinned_count(r.conditions@) + retrieved_points(r.retrieved_chunk)
}

proof fn lemma_pinned_count_bound(cs: Seq<BufferCondition>)
    ensures
        pinned_count(cs) <= cs.len(),
    decreases cs.len(),
{
    if cs.len() > 0 {
        lemma_pinned_count_bound(cs.drop_last());
    }
}

/// A rule can be measured without overflow.
pub open spec fn rule_fits(r: ProductionRule) -> bool {
    r.conditions@.len() <= usize::MAX / 2 - 1
}

impl ProductionRule {
    pub fn specificity(&self) -> (r: usize)
        requires
            rule_fits(*self),
        ensures
            r as nat == specificity_of(*self),
    {
        let n = self.conditions.len();
        let mut pinned: usize = 0;
        let mut i: usize = 0;
        while i < n
            invariant
                n == self.conditions@.len(),
                n <= usize::MAX / 2 - 1,
                i <= n,
                pinned as nat == pinned_count(self.conditions@.subrange(0, i as int)),
                pinned <= i,
            decreases n - i,
        {
            let c = &self.conditions[i];
            proof {
                assert(self.conditions@.subrange(0, i + 1).drop_last() == self.conditions@.subrange(
                    0,
                    i as int,
                ));
            }
            if c.chunk_id.is_some() || c.chunk_type.is_some() {
                pinned = pinned + 1;
            }
            i = i + 1;
        }
        assert(self.conditions@.subrange(0, n as int) == self.conditions@);
        let extra: usize = match &self.retrieved_chunk {
            None => 0,
            Some(c) => if c.chunk_id.is_some() || c.chunk_type.is_some() {
                2
            } else {
                1
            },
        };
        n + pinned + extra
    }
}

/// A rule whose conditions all hold.
#[derive(Debug, Clone, PartialEq)]
pub struct RuleMatch {
    pub rule_id: RuleId,
    pub name: String,
    pub utility: u64,
    pub specificity: usize,
}

/// An `f64` with bit pattern `b` is NaN.
pub open spec fn is_nan_bits(b: u64) -> bool {
    (b / 0x10_0000_0000_0000) % 0x800 == 0x7ff && b % 0x10_0000_0000_0000 != 0
}

/// A number that orders non-NaN `f64` values as `partial_cmp` does: the
/// magnitude bits, negated for negative values (both zeros map to 0).
pub open spec fn float_rank(b: u64) -> int {
    if b >= 0x8000_0000_0000_0000 {
        -((b - 0x8000_0000_0000_0000) as int)
    } else {
        b as int
    }
}

/// Whether all the rule's buffer conditions hold.
pub open spec fn buffer_conditions_hold(r: ProductionRule, buffers: Seq<BufferSnapshot>) -> bool {
    forall|i: int| 0 <= i < r.conditions@.len() ==> condition_matches(#[trigger] r.conditions@[i], buffers)
}

/// Whether the rule's retrieved-chunk condition, if it has one, holds.
pub open spec fn retrieved_condition_holds(r: ProductionRule, retrieved: Option<Chunk>) -> bool {
    r.retrieved_chunk matches Some(c) ==> retrieved_holds(c, retrieved)
}

/// Whether the rule is enabled and all its conditions hold, on the buffers
/// and on the retrieved chunk.
pub open spec fn rule_applies(r: ProductionRule, buffers: Seq<BufferSnapshot>, retrieved: Option<Chunk>) -> bool {
    &&& r.enabled
    &&& buffer_conditions_hold(r, buffers)
    &&& retrieved_condition_holds(r, retrieved)
}

/// Rule `a` ranks strictly before rule `b`: more specific, or as specific
/// with a higher utility, or tied on both with a smaller name.
pub open spec fn ranks_before(a: ProductionRule, b: ProductionRule) -> bool {
    ||| specificity_of(a) > specificity_of(b)
    ||| (specificity_of(a) == specificity_of(b) && float_rank(a.utility) > float_rank(b.utility))
    ||| (specificity_of(a) == specificity_of(b) && float_rank(a.utility) == float_rank(b.utility)
        && chars_lt(a.name@, b.name@))
}

/// The order in which matching rules are listed: by rank, and rules that
/// tie keep their order in the engine (the sort is stable).
pub open spec fn listed_before(rules: Seq<ProductionRule>, i: int, j: int) -> bool {
    ranks_before(rules[i], rules[j]) || (!ranks_before(rules[j], rules[i]) && i < j)
}

/// The match that a rule yields.
pub open spec fn match_of(r: ProductionRule) -> RuleMatch {
    RuleMatch {
        rule_id: r.rule_id,
        name: r.name,
        utility: r.utility,
        specificity: specificity_of(r) as usize,
    }
}

proof fn lemma_ranks_before_irreflexive(a: ProductionRule)
    ensures
        !ranks_before(a, a),
{
    lemma_chars_lt_irreflexive(a.name@);
}

proof fn lemma_ranks_before_transitive(a: ProductionRule, b: ProductionRule, c: ProductionRule)
    requires
        ranks_before(a, b),
        ranks_before(b, c),
    ensures
        ranks_before(a, c),
{
    if specificity_of(a) == specificity_of(b) && specificity_of(b) == specificity_of(c)
        && float_rank(a.utility) == float_rank(b.utility) && float_rank(b.utility) == float_rank(
        c.utility,
    ) {
        lemma_chars_lt_transitive(a.name@, b.name@, c.name@);
    }
}

/// Neither ranks before the other: the two tie.
proof fn lemma_tie_transitive(a: ProductionRule, b: ProductionRule, c: ProductionRule)
    requires
        !ranks_before(a, b),
        !ranks_before(b, a),
        !ranks_before(b, c),
        !ranks_before(c, b),
    ensures
        !ranks_before(a, c),
        !ranks_before(c, a),
{
    lemma_chars_lt_total(a.name@, b.name@);
    lemma_chars_lt_total(b.name@, c.name@);
}

proof fn lemma_ranks_before_asymmetric(a: ProductionRule, b: ProductionRule)
    requires
        ranks_before(a, b),
    ensures
        !ranks_before(b, a),
{
    if ranks_before(b, a) {
        lemma_ranks_before_transitive(a, b, a);
        lemma_ranks_before_irreflexive(a);
    }
}

/// A tie and a strict rank combine into a strict rank.
proof fn lemma_tie_then_before(a: ProductionRule, b: ProductionRule, c: ProductionRule)
    requires
        !ranks_before(a, b),
        !ranks_before(b, a),
        ranks_before(b, c),
    ensures
        ranks_before(a, c),
{
    lemma_chars_lt_total(a.name@, b.name@);
    if specificity_of(a) == specificity_of(b) && float_rank(a.utility) == float_rank(b.utility)
        && specificity_of(b) == specificity_of(c) && float_rank(b.utility) == float_rank(c.utility) {
        if a.name@ != b.name@ {
            lemma_chars_lt_total(a.name@, b.name@);
        }
    }
}

proof fn lemma_before_then_tie(a: ProductionRule, b: ProductionRule, c: ProductionRule)
    requires
        ranks_before(a, b),
        !ranks_before(b, c),
        !ranks_before(c, b),
    ensures
        ranks_before(a, c),
{
    lemma_chars_lt_total(b.name@, c.name@);
}

proof fn lemma_listed_before_transitive(rules: Seq<ProductionRule>, i: int, j: int, k: int)
    requires
        0 <= i < rules.len(),
        0 <= j < rules.len(),
        0 <= k < rules.len(),
        listed_before(rules, i, j),
        listed_before(rules, j, k),
    ensures
        listed_before(rules, i, k),
{
    let (a, b, c) = (rules[i], rules[j], rules[k]);
    if ranks_before(a, b) && ranks_before(b, c) {
        lemma_ranks_before_transitive(a, b, c);
    } else if ranks_before(a, b) {
        lemma_before_then_tie(a, b, c);
    } else if ranks_before(b, c) {
        lemma_tie_then_before(a, b, c);
    } else {
        lemma_tie_transitive(a, b, c);
    }
}

pub proof fn lemma_listed_before_asymmetric(rules: Seq<ProductionRule>, i: int, j: int)
    requires
        0 <= i < rules.len(),
        0 <= j < rules.len(),
        listed_before(rules, i, j),
    ensures
        !listed_before(rules, j, i),
{
    if ranks_before(rules[i], rules[j]) {
        lemma_ranks_before_asymmetric(rules[i], rules[j]);
    }
}

/// The listing `ix` of rule indices is in `listed_before` order.
pub open spec fn listed_in_order(rules: Seq<ProductionRule>, ix: Seq<int>) -> bool {
    forall|a: int, b: int| 0 <= a < b < ix.len() ==> listed_before(rules, #[trigger] ix[a], #[trigger] ix[b])
}

/// `ix` lists exactly the indices of the rules that apply.
pub open spec fn lists_applicable(
    rules: Seq<ProductionRule>,
    buffers: Seq<BufferSnapshot>,
    ix: Seq<int>,
    retrieved: Option<Chunk>,
) -> bool {
    &&& forall|k: int|
        0 <= k < ix.len() ==> 0 <= #[trigger] ix[k] < rules.len() && rule_applies(
            rules[ix[k]],
            buffers, retrieved
        )
    &&& forall|i: int|
        0 <= i < rules.len() && rule_applies(#[trigger] rules[i], buffers, retrieved) ==> exists|k: int|
            0 <= k < ix.len() && ix[k] == i
}

/// The rules of an engine can all be measured without overflow.
pub open spec fn rules_rankable(rules: Seq<ProductionRule>) -> bool {
    forall|i: int| 0 <= i < rules.len() ==> rule_fits(#[trigger] rules[i])
}

/// The enabled rules have utilities that are numbers (not NaN), so that any
/// two are comparable and the order by utility is total.
pub open spec fn utilities_comparable(rules: Seq<ProductionRule>) -> bool {
    forall|i: int| 0 <= i < rules.len() && (#[trigger] rules[i]).enabled ==> !is_nan_bits(rules[i].utility)
}

/// The listing names no rule twice.
pub open spec fn lists_once(ix: Seq<int>) -> bool {
    forall|a: int, b: int| 0 <= a < b < ix.len() ==> #[trigger] ix[a] != #[trigger] ix[b]
}

/// Ranks productions that match the current buffers.
#[derive(Debug, Clone)]
pub struct RuleEngine {
    rules: Vec<ProductionRule>,
}

fn float_rank_of(b: u64) -> (r: i128)
    ensures
        r as int == float_rank(b),
{
    if b >= 0x8000_0000_0000_0000 {
        -((b - 0x8000_0000_0000_0000) as i128)
    } else {
        b as i128
    }
}

fn copy_rule_id(r: &RuleId) -> (c: RuleId)
    ensures
        c == *r,
{
    r.copy()
}

impl RuleEngine {
    pub closed spec fn rules(&self) -> Seq<ProductionRule> {
        self.rules@
    }

    pub fn new(rules: Vec<ProductionRule>) -> (r: Self)
        ensures
            r.rules() == rules@,
    {
        RuleEngine { rules }
    }

    fn applies(&self, i: usize, buffers: &[BufferSnapshot], retrieved: &Option<Chunk>) -> (r: bool)
        requires
            i < self.rules@.len(),
            retrieved_wf(*retrieved),
        ensures
            r == rule_applies(self.rules@[i as int], buffers@, *retrieved),
    {
        let rule = &self.rules[i];
        if !rule.enabled {
            return false;
        }
        let mut k: usize = 0;
        while k < rule.conditions.len()
            invariant
                i < self.rules@.len(),
                *rule == self.rules@[i as int],
                k <= rule.conditions@.len(),
                forall|j: int|
                    0 <= j < k ==> condition_matches(#[trigger] rule.conditions@[j], buffers@),
            decreases rule.conditions@.len() - k,
        {
            if !rule.conditions[k].matches(buffers) {
                assert(!condition_matches(rule.conditions@[k as int], buffers@));
                return false;
            }
            k = k + 1;
        }
        match &rule.retrieved_chunk {
            Some(c) => c.matches(retrieved),
            None => true,
        }
    }

    /// Whether rule `i` ranks strictly before rule `j`.
    fn outranks(&self, i: usize, j: usize) -> (r: bool)
        requires
            i < self.rules@.len(),
            j < self.rules@.len(),
            rule_fits(self.rules@[i as int]),
            rule_fits(self.rules@[j as int]),
        ensures
            r == ranks_before(self.rules@[i as int], self.rules@[j as int]),
    {
        let a = &self.rules[i];
        let b = &self.rules[j];
        let sa = a.specificity();
        let sb = b.specificity();
        if sa != sb {
            return sa > sb;
        }
        let ua = float_rank_of(a.utility);
        let ub = float_rank_of(b.utility);
        if ua != ub {
            return ua > ub;
        }
        str_lt(a.name.as_str(), b.name.as_str())
    }

    /// The productions whose conditions hold on these buffers and no
    /// retrieved chunk, each once: most specific first, then by descending
    /// utility, then by name, when no enabled rule has a NaN utility (a NaN
    /// is comparable to no utility, so the order is then not total).
    pub fn matching_rules(&self, buffers: &[BufferSnapshot]) -> (r: Vec<RuleMatch>)
        requires
            rules_rankable(self.rules()),
        ensures
            exists|ix: Seq<int>|
                {
                    &&& #[trigger] lists_applicable(self.rules(), buffers@, ix, None::<Chunk>)
                    &&& lists_once(ix)
                    &&& utilities_comparable(self.rules()) ==> listed_in_order(self.rules(), ix)
                    &&& ix.len() == r@.len()
                    &&& forall|k: int|
                        0 <= k < ix.len() ==> r@[k] == match_of(self.rules()[#[trigger] ix[k]])
                },
    {
        self.matching_rules_with(buffers, &None)
    }

    /// The indices of the rules that apply, each once, in rank order.
    fn ranked_order(&self, buffers: &[BufferSnapshot], retrieved: &Option<Chunk>) -> (order: Vec<usize>)
        requires
            rules_rankable(self.rules()),
            retrieved_wf(*retrieved),
        ensures
            forall|m: int| 0 <= m < order@.len() ==> (#[trigger] order@[m]) < self.rules().len(),
            lists_applicable(self.rules(), buffers@, order@.map_values(|v: usize| v as int), *retrieved),
            lists_once(order@.map_values(|v: usize| v as int)),
            listed_in_order(self.rules(), order@.map_values(|v: usize| v as int)),
    {
        let ghost rules = self.rules@;
        let mut order: Vec<usize> = Vec::new();
        let mut i: usize = 0;
        while i < self.rules.len()
            invariant
                rules == self.rules@,
                rules_rankable(rules),
                retrieved_wf(*retrieved),
                i <= rules.len(),
                forall|k: int| 0 <= k < order@.len() ==> (#[trigger] order@[k]) < i,
                forall|k: int|
                    0 <= k < order@.len() ==> rule_applies(rules[#[trigger] order@[k] as int], buffers@, *retrieved),
                forall|j: int|
                    0 <= j < i && rule_applies(#[trigger] rules[j], buffers@, *retrieved) ==> exists|k: int|
                        0 <= k < order@.len() && order@[k] == j,
                forall|a: int, b: int|
                    0 <= a < b < order@.len() ==> listed_before(
                        rules,
                        #[trigger] order@[a] as int,
                        #[trigger] order@[b] as int,
                    ),
            decreases rules.len() - i,
        {
            if self.applies(i, buffers, retrieved) {
                let mut p: usize = 0;
                while p < order.len() && !self.outranks(i, order[p])
                    invariant
                        rules == self.rules@,
                        rules_rankable(rules),
                        i < rules.len(),
                        p <= order@.len(),
                        forall|k: int| 0 <= k < order@.len() ==> (#[trigger] order@[k]) < i,
                        forall|k: int|
                            0 <= k < p ==> !ranks_before(rules[i as int], rules[#[trigger] order@[k] as int]),
                    decreases order@.len() - p,
                {
                    p = p + 1;
                }
                let ghost old_order = order@;
                proof {
                    assert forall|k: int| 0 <= k < p implies listed_before(
                        rules,
                        #[trigger] old_order[k] as int,
                        i as int,
                    ) by {
                        let j = old_order[k] as int;
                        if !ranks_before(rules[j], rules[i as int]) {
                            assert(j < i);
                        }
                    }
                    if p < old_order.len() {
                        assert(ranks_before(rules[i as int], rules[old_order[p as int] as int]));
                        assert forall|k: int| p <= k < old_order.len() implies listed_before(
                            rules,
                            i as int,
                            #[trigger] old_order[k] as int,
                        ) by {
                            if k > p {
                                lemma_listed_before_transitive(
                                    rules,
                                    i as int,
                                    old_order[p as int] as int,
                                    old_order[k] as int,
                                );
                            }
                        }
                    }
                }
                order.insert(p, i);
                proof {
                    let o = order@;
                    assert forall|a: int, b: int| 0 <= a < b < o.len() implies listed_before(
                        rules,
                        #[trigger] o[a] as int,
                        #[trigger] o[b] as int,
                    ) by {
                        if a < p && b < p {
                            assert(o[a] == old_order[a] && o[b] == old_order[b]);
                        } else if a < p && b == p {
                            assert(o[a] == old_order[a]);
                        } else if a < p {
                            assert(o[a] == old_order[a] && o[b] == old_order[b - 1]);
                        } else if a == p {
                            assert(o[b] == old_order[b - 1]);
                        } else {
                            assert(o[a] == old_order[a - 1] && o[b] == old_order[b - 1]);
                        }
                    }
                    assert forall|j: int|
                        0 <= j < i + 1 && rule_applies(#[trigger] rules[j], buffers@, *retrieved) implies exists|k: int|
                        0 <= k < o.len() && o[k] == j by {
                        if j == i {
                            assert(o[p as int] == i);
                        } else {
                            let k = choose|k: int| 0 <= k < old_order.len() && old_order[k] == j;
                            if k < p {
                                assert(o[k] == j);
                            } else {
                                assert(o[k + 1] == j);
                            }
                        }
                    }
                    assert forall|k: int| 0 <= k < o.len() implies (#[trigger] o[k]) < i + 1 && rule_applies(
                        rules[o[k] as int],
                        buffers@, *retrieved
                    ) by {
                        if k < p {
                            assert(o[k] == old_order[k]);
                        } else if k > p {
                            assert(o[k] == old_order[k - 1]);
                        }
                    }
                }
            }
            i = i + 1;
        }
        let ghost ix = order@.map_values(|v: usize| v as int);
        assert(lists_applicable(rules, buffers@, ix, *retrieved)) by {
            assert forall|j: int|
                0 <= j < rules.len() && rule_applies(#[trigger] rules[j], buffers@, *retrieved) implies exists|k: int|
                0 <= k < ix.len() && ix[k] == j by {
                let k = choose|k: int| 0 <= k < order@.len() && order@[k] == j;
                assert(ix[k] == j);
            }
        }
        assert(listed_in_order(rules, ix));
        assert(lists_once(ix)) by {
            assert forall|a: int, b: int| 0 <= a < b < ix.len() implies #[trigger] ix[a] != #[trigger] ix[b] by {
                assert(listed_before(rules, ix[a], ix[b]));
                lemma_ranks_before_irreflexive(rules[ix[a]]);
            }
        }
        order
    }

    /// The productions whose conditions hold on these buffers and on the
    /// retrieved chunk, each once: most specific first, then by descending
    /// utility, then by name, when no enabled rule has a NaN utility.
    pub fn matching_rules_with(&self, buffers: &[BufferSnapshot], retrieved: &Option<Chunk>) -> (r: Vec<RuleMatch>)
        requires
            rules_rankable(self.rules()),
            retrieved_wf(*retrieved),
        ensures
            exists|ix: Seq<int>|
                {
                    &&& #[trigger] lists_applicable(self.rules(), buffers@, ix, *retrieved)
                    &&& lists_once(ix)
                    &&& utilities_comparable(self.rules()) ==> listed_in_order(self.rules(), ix)
                    &&& ix.len() == r@.len()
                    &&& forall|k: int|
                        0 <= k < ix.len() ==> r@[k] == match_of(self.rules()[#[trigger] ix[k]])
                },
    {
        let ghost rules = self.rules@;
        let order = self.ranked_order(buffers, retrieved);
        let mut r: Vec<RuleMatch> = Vec::new();
        let mut k: usize = 0;
        while k < order.len()
            invariant
                rules == self.rules@,
                rules_rankable(rules),
                k <= order@.len(),
                forall|m: int| 0 <= m < order@.len() ==> (#[trigger] order@[m]) < rules.len(),
                r@.len() == k,
                forall|m: int| 0 <= m < k ==> r@[m] == match_of(rules[#[trigger] order@[m] as int]),
            decreases order@.len() - k,
        {
            let rule = &self.rules[order[k]];
            let specificity = rule.specificity();
            r.push(
                RuleMatch {
                    rule_id: copy_rule_id(&rule.rule_id),
                    name: rule.name.clone(),
                    utility: rule.utility,
                    specificity,
                },
            );
            k = k + 1;
        }
        let ghost ix = order@.map_values(|v: usize| v as int);
        r
    }

    /// The production that conflict resolution selects on these buffers and
    /// no retrieved chunk, if any matches: one that applies, ranked before
    /// every other that applies when no enabled utility is NaN.
    pub fn choose_best(&self, buffers: &[BufferSnapshot]) -> (r: Option<RuleMatch>)
        requires
            rules_rankable(self.rules()),
        ensures
            match r {
                None => forall|i: int|
                    0 <= i < self.rules().len() ==> !rule_applies(#[trigger] self.rules()[i], buffers@, None),
                Some(m) => exists|i: int|
                    {
                        &&& 0 <= i < self.rules().len()
                        &&& rule_applies(#[trigger] self.rules()[i], buffers@, None)
                        &&& m == match_of(self.rules()[i])
                        &&& utilities_comparable(self.rules()) ==> forall|j: int|
                            0 <= j < self.rules().len() && j != i && rule_applies(
                                #[trigger] self.rules()[j],
                                buffers@,
                                None,
                            ) ==> listed_before(self.rules(), i, j)
                    },
            },
    {
        self.choose_best_with(buffers, &None)
    }

    /// The production that conflict resolution selects on these buffers and
    /// the retrieved chunk, if any matches: one that applies, ranked before
    /// every other that applies when no enabled utility is NaN.
    pub fn choose_best_with(&self, buffers: &[BufferSnapshot], retrieved: &Option<Chunk>) -> (r: Option<RuleMatch>)
        requires
            rules_rankable(self.rules()),
            retrieved_wf(*retrieved),
        ensures
            match r {
                None => forall|i: int|
                    0 <= i < self.rules().len() ==> !rule_applies(#[trigger] self.rules()[i], buffers@, *retrieved),
                Some(m) => exists|i: int|
                    {
                        &&& 0 <= i < self.rules().len()
                        &&& rule_applies(#[trigger] self.rules()[i], buffers@, *retrieved)
                        &&& m == match_of(self.rules()[i])
                        &&& utilities_comparable(self.rules()) ==> forall|j: int|
                            0 <= j < self.rules().len() && j != i && rule_applies(
                                #[trigger] self.rules()[j],
                                buffers@, *retrieved
                            ) ==> listed_before(self.rules(), i, j)
                    },
            },
    {
        let mut all = self.matching_rules_with(buffers, retrieved);
        let ghost ix = choose|ix: Seq<int>|
            {
                &&& #[trigger] lists_applicable(self.rules(), buffers@, ix, *retrieved)
                &&& lists_once(ix)
                &&& utilities_comparable(self.rules()) ==> listed_in_order(self.rules(), ix)
                &&& ix.len() == all@.len()
                &&& forall|k: int|
                    0 <= k < ix.len() ==> all@[k] == match_of(self.rules()[#[trigger] ix[k]])
            };
        if all.len() == 0 {
            proof {
                assert forall|i: int|
                    0 <= i < self.rules().len() implies !rule_applies(#[trigger] self.rules()[i], buffers@, *retrieved) by {
                    if rule_applies(self.rules()[i], buffers@, *retrieved) {
                        let k = choose|k: int| 0 <= k < ix.len() && ix[k] == i;
                    }
                }
            }
            None
        } else {
            let first = all.remove(0);
            proof {
                let i = ix[0];
                assert(rule_applies(self.rules()[i], buffers@, *retrieved));
                if utilities_comparable(self.rules()) {
                assert forall|j: int|
                    0 <= j < self.rules().len() && j != i && rule_applies(
                        #[trigger] self.rules()[j],
                        buffers@, *retrieved
                    ) implies listed_before(self.rules(), i, j) by {
                    let k = choose|k: int| 0 <= k < ix.len() && ix[k] == j;
                    assert(k != 0);
                    assert(listed_before(self.rules(), ix[0], ix[k]));
                }
                }
            }
            Some(first)
        }
    }
}

/// Why a rule does not take part in conflict resolution.
#[derive(Debug, Clone, Copy, PartialEq, Eq)]
pub enum RuleRejectionReason {
    Disabled,
    NonFiniteUtility,
    BufferConditionsNotMet,
    RetrievedChunkConditionNotMet,
}

/// Why the rule is rejected against these buffers and the retrieved chunk,
/// if it is: it is disabled, its utility is not finite, a buffer condition
/// does not hold, or its retrieved-chunk condition does not.
pub open spec fn rejection_of(
    r: ProductionRule,
    buffers: Seq<BufferSnapshot>,
    retrieved: Option<Chunk>,
) -> Option<RuleRejectionReason> {
    if !r.enabled {
        Some(RuleRejectionReason::Disabled)
    } else if !is_finite_bits(r.utility) {
        Some(RuleRejectionReason::NonFiniteUtility)
    } else if !buffer_conditions_hold(r, buffers) {
        Some(RuleRejectionReason::BufferConditionsNotMet)
    } else if !retrieved_condition_holds(r, retrieved) {
        Some(RuleRejectionReason::RetrievedChunkConditionNotMet)
    } else {
        None
    }
}

/// The label of a rejection reason.
pub open spec fn rejection_label(r: RuleRejectionReason) -> Seq<char> {
    match r {
        RuleRejectionReason::Disabled => "disabled"@,
        RuleRejectionReason::NonFiniteUtility => "non_finite_utility"@,
        RuleRejectionReason::BufferConditionsNotMet => "buffer_conditions_not_met"@,
        RuleRejectionReason::RetrievedChunkConditionNotMet => "retrieved_chunk_condition_not_met"@,
    }
}

pub fn rejection_reason_label(reason: RuleRejectionReason) -> (r: String)
    ensures
        r@ == rejection_label(reason),
{
    match reason {
        RuleRejectionReason::Disabled => String::from_str("disabled"),
        RuleRejectionReason::NonFiniteUtility => String::from_str("non_finite_utility"),
        RuleRejectionReason::BufferConditionsNotMet => String::from_str("buffer_conditions_not_met"),
        RuleRejectionReason::RetrievedChunkConditionNotMet => String::from_str(
            "retrieved_chunk_condition_not_met",
        ),
    }
}

/// Why the rule is rejected against these buffers and the retrieved chunk,
/// if it is.
pub fn rejection_reason(rule: &ProductionRule, buffers: &[BufferSnapshot], retrieved: &Option<Chunk>) -> (r:
    Option<RuleRejectionReason>)
    requires
        retrieved_wf(*retrieved),
    ensures
        r == rejection_of(*rule, buffers@, *retrieved),
{
    if !rule.enabled {
        return Some(RuleRejectionReason::Disabled);
    }
    if (rule.utility / 0x10_0000_0000_0000) % 0x800 == 0x7ff {
        return Some(RuleRejectionReason::NonFiniteUtility);
    }
    let mut k: usize = 0;
    while k < rule.conditions.len()
        invariant
            rule.enabled,
            is_finite_bits(rule.utility),
            k <= rule.conditions@.len(),
            forall|j: int| 0 <= j < k ==> condition_matches(#[trigger] rule.conditions@[j], buffers@),
        decreases rule.conditions@.len() - k,
    {
        if !rule.conditions[k].matches(buffers) {
            assert(!condition_matches(rule.conditions@[k as int], buffers@));
            return Some(RuleRejectionReason::BufferConditionsNotMet);
        }
        k = k + 1;
    }
    match &rule.retrieved_chunk {
        Some(c) => if c.matches(retrieved) {
            None
        } else {
            Some(RuleRejectionReason::RetrievedChunkConditionNotMet)
        },
        None => None,
    }
}


/// A rule that applies, with its version and its place in the ranking,
/// counted from 1.
#[derive(Debug, Clone, PartialEq)]
pub struct RankedMatch {
    pub rule_id: RuleId,
    pub name: String,
    pub utility: u64,
    pub specificity: usize,
    pub version: u64,
    pub rank: usize,
}

/// What conflict resolution reports of one rule of the engine: the rule,
/// whether it is matched, its rank if it is, and why it is rejected if it
/// is not.
#[derive(Debug, Clone, PartialEq)]
pub struct RuleCandidateDiagnostic {
    pub rule_id: RuleId,
    pub name: String,
    pub enabled: bool,
    pub utility: u64,
    pub specificity: usize,
    pub version: u64,
    pub matched: bool,
    pub rank: Option<usize>,
    pub rejection_reason: Option<RuleRejectionReason>,
}

/// The outcome of conflict resolution: the selected rule, the ranking of
/// the rules that apply, and a report on every rule.
#[derive(Debug, Clone, PartialEq)]
pub struct ConflictResolution {
    pub selected: Option<RankedMatch>,
    pub matches: Vec<RankedMatch>,
    pub candidates: Vec<RuleCandidateDiagnostic>,
}

/// The ranked match of a rule at `rank`.
pub open spec fn ranked_match_of(r: ProductionRule, rank: int) -> RankedMatch {
    RankedMatch {
        rule_id: r.rule_id,
        name: r.name,
        utility: r.utility,
        specificity: specificity_of(r) as usize,
        version: r.version,
        rank: rank as usize,
    }
}

/// The report `c` describes rule `r`, rejected for `rej` if that is some
/// reason (the rank is stated apart).
pub open spec fn candidate_of(r: ProductionRule, rej: Option<RuleRejectionReason>, c: RuleCandidateDiagnostic) -> bool {
    &&& c.rule_id == r.rule_id
    &&& c.name == r.name
    &&& c.enabled == r.enabled
    &&& c.utility == r.utility
    &&& c.specificity as nat == specificity_of(r)
    &&& c.version == r.version
    &&& c.matched == rej is None
    &&& c.rejection_reason == rej
}

fn ranked_match(rule: &ProductionRule, rank: usize) -> (m: RankedMatch)
    requires
        rule_fits(*rule),
    ensures
        m == ranked_match_of(*rule, rank as int),
{
    RankedMatch {
        rule_id: copy_rule_id(&rule.rule_id),
        name: rule.name.clone(),
        utility: rule.utility,
        specificity: rule.specificity(),
        version: rule.version,
        rank,
    }
}

impl RuleEngine {
    /// Conflict resolution on these buffers and the retrieved chunk: the
    /// rules that apply, ranked as `matching_rules_with` ranks them and
    /// numbered from 1, the first of them selected, and for every rule of
    /// the engine, in order, whether it is matched, its rank, and why it is
    /// rejected.
    pub fn conflict_resolution(&self, buffers: &[BufferSnapshot], retrieved: &Option<Chunk>) -> (r:
        ConflictResolution)
        requires
            rules_rankable(self.rules()),
            retrieved_wf(*retrieved),
        ensures
            exists|ix: Seq<int>|
                {
                    &&& #[trigger] lists_applicable(self.rules(), buffers@, ix, *retrieved)
                    &&& lists_once(ix)
                    &&& utilities_comparable(self.rules()) ==> listed_in_order(self.rules(), ix)
                    &&& ix.len() == r.matches@.len()
                    &&& forall|k: int|
                        0 <= k < ix.len() ==> r.matches@[k] == ranked_match_of(
                            self.rules()[#[trigger] ix[k]],
                            k + 1,
                        )
                    &&& r.selected == if ix.len() == 0 {
                        None::<RankedMatch>
                    } else {
                        Some(ranked_match_of(self.rules()[ix[0]], 1))
                    }
                    &&& r.candidates@.len() == self.rules().len()
                    &&& forall|i: int|
                        0 <= i < self.rules().len() ==> {
                            let rej = rejection_of(self.rules()[i], buffers@, *retrieved);
                            &&& candidate_of(self.rules()[i], rej, #[trigger] r.candidates@[i])
                            &&& (rej is None ==> exists|k: int|
                                0 <= k < ix.len() && ix[k] == i && r.candidates@[i].rank == Some((k + 1) as usize))
                            &&& (rej is Some ==> r.candidates@[i].rank is None)
                        }
                },
    {
        let ghost rules = self.rules@;
        let order = self.ranked_order(buffers, retrieved);
        let ghost ix = order@.map_values(|v: usize| v as int);
        let mut matches: Vec<RankedMatch> = Vec::new();
        let mut k: usize = 0;
        while k < order.len()
            invariant
                rules == self.rules@,
                rules_rankable(rules),
                ix == order@.map_values(|v: usize| v as int),
                k <= order@.len(),
                forall|m: int| 0 <= m < order@.len() ==> (#[trigger] order@[m]) < rules.len(),
                matches@.len() == k,
                forall|m: int| 0 <= m < k ==> matches@[m] == ranked_match_of(rules[#[trigger] ix[m]], m + 1),
            decreases order@.len() - k,
        {
            matches.push(ranked_match(&self.rules[order[k]], k + 1));
            k = k + 1;
        }
        let selected = if order.len() == 0 {
            None
        } else {
            Some(ranked_match(&self.rules[order[0]], 1))
        };
        let mut candidates: Vec<RuleCandidateDiagnostic> = Vec::new();
        let mut i: usize = 0;
        while i < self.rules.len()
            invariant
                rules == self.rules@,
                rules_rankable(rules),
                retrieved_wf(*retrieved),
                ix == order@.map_values(|v: usize| v as int),
                lists_applicable(rules, buffers@, ix, *retrieved),
                i <= rules.len(),
                candidates@.len() == i,
                forall|j: int|
                    0 <= j < i ==> {
                        let rej = rejection_of(rules[j], buffers@, *retrieved);
                        &&& candidate_of(rules[j], rej, #[trigger] candidates@[j])
                        &&& (rej is None ==> exists|k: int|
                            0 <= k < ix.len() && ix[k] == j && candidates@[j].rank == Some((k + 1) as usize))
                        &&& (rej is Some ==> candidates@[j].rank is None)
                    },
            decreases rules.len() - i,
        {
            let rule = &self.rules[i];
            let reason = rejection_reason(rule, buffers, retrieved);
            let rank = if reason.is_none() {
                assert(rule_applies(rules[i as int], buffers@, *retrieved));
                let mut p: usize = 0;
                while p < order.len() && order[p] != i
                    invariant
                        p <= order@.len(),
                        forall|q: int| 0 <= q < p ==> order@[q] != i,
                    decreases order@.len() - p,
                {
                    p = p + 1;
                }
                proof {
                    let k = choose|k: int| 0 <= k < ix.len() && ix[k] == i;
                    if p == order.len() {
                        assert(order@[k] == i);
                    }
                }
                Some(p + 1)
            } else {
                None
            };
            candidates.push(
                RuleCandidateDiagnostic {
                    rule_id: copy_rule_id(&rule.rule_id),
                    name: rule.name.clone(),
                    enabled: rule.enabled,
                    utility: rule.utility,
                    specificity: rule.specificity(),
                    version: rule.version,
                    matched: reason.is_none(),
                    rank,
                    rejection_reason: reason,
                },
            );
            proof {
                let rej = rejection_of(rules[i as int], buffers@, *retrieved);
                if rej is None {
                    let p = (rank.unwrap() - 1) as int;
                    assert(0 <= p < ix.len() && ix[p] == i);
                }
            }
            i = i + 1;
        }
        ConflictResolution { selected, matches, candidates }
    }
}

} // verus!
