//! Decisions of the API's handlers that sit between the store, the
//! sessions and the responses: which rules an evaluation considers, and how
//! a store result is answered.
use vstd::prelude::*;

use crate::api::{ApiProblem, ProblemKind, empty_field_text, kind_of, status_of, title_of, validate_non_empty};
use crate::chunk::{Chunk, Slot, slot_map};
use crate::counters::{ApiCounters, CounterValues, bumped};
use crate::error::{MemoryError, MemoryResult, error_text};
use crate::ids::{AgentId, ChunkId, ChunkType, RuleId};
use crate::memory::{
    AssociationWrite, ChunkKey, CreateChunk, MemoryStore, PracticeEventWrite, ProductionRuleRecord,
    UpdateChunk, with_slots,
};
use crate::text::{blank, decimal, decimal_text, is_blank, push_str};
use crate::order::str_eq;
use crate::rules::ProductionRule;

verus! {

/// Two rules hold the same data.
pub open spec fn same_rule(a: ProductionRule, b: ProductionRule) -> bool {
    &&& a.rule_id == b.rule_id
    &&& a.name == b.name
    &&& a.enabled == b.enabled
    &&& a.utility == b.utility
    &&& a.version == b.version
    &&& a.conditions@ == b.conditions@
}

/// The rules stored for the agent under `ids`, in the order of `ids`; an id
/// with no stored rule is passed over.
pub open spec fn stored_rules(
    m: Map<ChunkKey, ProductionRuleRecord>,
    agent: Seq<char>,
    ids: Seq<Seq<char>>,
) -> Seq<ProductionRule>
    decreases ids.len(),
{
    if ids.len() == 0 {
        Seq::empty()
    } else {
        let rest = stored_rules(m, agent, ids.drop_last());
        if m.contains_key((agent, ids.last())) {
            rest.push(m[(agent, ids.last())].rule)
        } else {
            rest
        }
    }
}

/// The rules of `rules` whose id is among `ids`, in order.
pub open spec fn rules_among(rules: Seq<ProductionRule>, ids: Seq<Seq<char>>) -> Seq<ProductionRule>
    decreases rules.len(),
{
    if rules.len() == 0 {
        Seq::empty()
    } else {
        let rest = rules_among(rules.drop_last(), ids);
        if ids.contains(rules.last().rule_id@) {
            rest.push(rules.last())
        } else {
            rest
        }
    }
}

/// The rules an evaluation considers: the rules sent with it, narrowed to
/// the candidate ids when some are named; or, when none are sent, the
/// agent's stored rules with the candidate ids.
pub open spec fn evaluation_rules(
    rules: Seq<ProductionRule>,
    ids: Seq<Seq<char>>,
    m: Map<ChunkKey, ProductionRuleRecord>,
    agent: Seq<char>,
) -> Seq<ProductionRule> {
    if rules.len() == 0 {
        stored_rules(m, agent, ids)
    } else if ids.len() == 0 {
        rules
    } else {
        rules_among(rules, ids)
    }
}

/// Whether `id` is one of `ids`.
fn named_among(id: &RuleId, ids: &Vec<String>) -> (r: bool)
    ensures
        r == ids@.map_values(|s: String| s@).contains(id@),
{
    let ghost views = ids@.map_values(|s: String| s@);
    let mut i: usize = 0;
    while i < ids.len()
        invariant
            i <= ids@.len(),
            views == ids@.map_values(|s: String| s@),
            forall|j: int| 0 <= j < i ==> views[j] != id@,
        decreases ids@.len() - i,
    {
        if str_eq(id.as_str(), ids[i].as_str()) {
            assert(views[i as int] == id@);
            return true;
        }
        i = i + 1;
    }
    false
}

/// The rules an evaluation considers (see `evaluation_rules`).
pub fn rules_for_evaluation(
    store: &MemoryStore,
    agent_id: &AgentId,
    rules: Vec<ProductionRule>,
    candidate_rule_ids: &Vec<String>,
) -> (r: Vec<ProductionRule>)
    requires
        store.wf(),
    ensures
        ({
            let expected = evaluation_rules(
                rules@,
                candidate_rule_ids@.map_values(|s: String| s@),
                store.rule_map(),
                agent_id@,
            );
            &&& r@.len() == expected.len()
            &&& forall|k: int| 0 <= k < r@.len() ==> same_rule(#[trigger] r@[k], expected[k])
        }),
{
    let ghost ids = candidate_rule_ids@.map_values(|s: String| s@);
    if rules.len() == 0 {
        let mut out: Vec<ProductionRule> = Vec::new();
        let mut i: usize = 0;
        while i < candidate_rule_ids.len()
            invariant
                store.wf(),
                i <= candidate_rule_ids@.len(),
                ids == candidate_rule_ids@.map_values(|s: String| s@),
                out@.len() == stored_rules(store.rule_map(), agent_id@, ids.subrange(0, i as int)).len(),
                forall|k: int| 0 <= k < out@.len() ==> same_rule(
                    #[trigger] out@[k],
                    stored_rules(store.rule_map(), agent_id@, ids.subrange(0, i as int))[k],
                ),
            decreases candidate_rule_ids@.len() - i,
        {
            let ghost before = stored_rules(store.rule_map(), agent_id@, ids.subrange(0, i as int));
            assert(ids.subrange(0, i + 1).drop_last() == ids.subrange(0, i as int));
            let rule_id = RuleId(candidate_rule_ids[i].clone());
            match store.get_production_rule(agent_id, &rule_id) {
                Some(record) => {
                    out.push(record.rule);
                },
                None => {},
            }
            i = i + 1;
            proof {
                let after = stored_rules(store.rule_map(), agent_id@, ids.subrange(0, i as int));
                assert forall|k: int| 0 <= k < out@.len() implies same_rule(#[trigger] out@[k], after[k]) by {
                    if k < before.len() {
                        assert(after[k] == before[k]);
                    }
                }
            }
        }
        assert(ids.subrange(0, i as int) == ids);
        out
    } else if candidate_rule_ids.len() == 0 {
        rules
    } else {
        let ghost all = rules@;
        let mut out: Vec<ProductionRule> = Vec::new();
        let mut rest = rules;
        while rest.len() > 0
            invariant
                ids == candidate_rule_ids@.map_values(|s: String| s@),
                all.len() == (all.len() - rest@.len()) + rest@.len(),
                rest@.len() <= all.len(),
                rest@ == all.subrange(all.len() - rest@.len(), all.len() as int),
                out@ == rules_among(all.subrange(0, all.len() - rest@.len()), ids),
            decreases rest@.len(),
        {
            let ghost n = all.len() - rest@.len();
            let rule = rest.remove(0);
            assert(all.subrange(0, n + 1).drop_last() == all.subrange(0, n));
            assert(rule == all[n]);
            if named_among(&rule.rule_id, candidate_rule_ids) {
                out.push(rule);
            }
            assert(rest@ =~= all.subrange(all.len() - rest@.len(), all.len() as int));
        }
        assert(all.subrange(0, all.len() as int) == all);
        out
    }
}

/// The answer to a store result: its value, or the problem that reports its
/// error; a conflict is counted as a write conflict.
pub fn track_memory_result<T>(counters: &mut ApiCounters, result: MemoryResult<T>) -> (r: Result<
    T,
    ApiProblem,
>)
    requires
        !(result matches Err(MemoryError::ThresholdMiss { .. })),
    ensures
        result matches Err(MemoryError::Conflict(_)) ==> final(counters)@ == (CounterValues {
            write_conflicts: bumped(old(counters)@.write_conflicts),
            ..old(counters)@
        }),
        !(result matches Err(MemoryError::Conflict(_))) ==> final(counters)@ == old(counters)@,
        match result {
            Ok(v) => r == Ok::<T, ApiProblem>(v),
            Err(e) => r matches Err(p) && p.kind == kind_of(e) && p.title@ == title_of(kind_of(e))
                && p.status == status_of(kind_of(e)) && p.detail@ == error_text(e),
        },
{
    if matches!(result, Err(MemoryError::Conflict(_))) {
        counters.record_write_conflict();
    }
    match result {
        Ok(v) => Ok(v),
        Err(e) => Err(ApiProblem::from_error(e)),
    }
}

/// The id of a chunk's encoding event: `encode-{agent}-{chunk}-{now}`.
pub open spec fn encode_event_text(agent: Seq<char>, chunk: Seq<char>, now_ms: u64) -> Seq<char> {
    "encode-"@ + agent + "-"@ + chunk + "-"@ + decimal(now_ms as nat)
}

pub fn encode_event_id(agent_id: &str, chunk_id: &str, now_ms: u64) -> (r: String)
    ensures
        r@ == encode_event_text(agent_id@, chunk_id@, now_ms),
{
    let mut r = String::from_str("encode-");
    push_str(&mut r, agent_id);
    push_str(&mut r, "-");
    push_str(&mut r, chunk_id);
    push_str(&mut r, "-");
    push_str(&mut r, decimal_text(now_ms).as_str());
    r
}

/// The id given to a practice event sent without one:
/// `practice-{agent}-{chunk}-{at}-{kind}`.
pub open spec fn practice_event_text(
    agent: Seq<char>,
    chunk: Seq<char>,
    at_ms: u64,
    kind: Seq<char>,
) -> Seq<char> {
    "practice-"@ + agent + "-"@ + chunk + "-"@ + decimal(at_ms as nat) + "-"@ + kind
}

pub fn practice_event_id(agent_id: &str, chunk_id: &str, occurred_at_ms: u64, kind: &str) -> (r: String)
    ensures
        r@ == practice_event_text(agent_id@, chunk_id@, occurred_at_ms, kind@),
{
    let mut r = String::from_str("practice-");
    push_str(&mut r, agent_id);
    push_str(&mut r, "-");
    push_str(&mut r, chunk_id);
    push_str(&mut r, "-");
    push_str(&mut r, decimal_text(occurred_at_ms).as_str());
    push_str(&mut r, "-");
    push_str(&mut r, kind);
    r
}

/// The detail of the refusal of the first blank value among `fields`
/// (name, value), if any.
pub open spec fn first_blank(fields: Seq<(Seq<char>, Seq<char>)>) -> Option<Seq<char>>
    decreases fields.len(),
{
    if fields.len() == 0 {
        None
    } else if is_blank(fields[0].1) {
        Some(empty_field_text(fields[0].0))
    } else {
        first_blank(fields.drop_first())
    }
}

/// Some slot key is blank.
pub open spec fn has_blank_key(slots: Seq<Slot>) -> bool {
    exists|k: int| 0 <= k < slots.len() && is_blank(#[trigger] slots[k].key@)
}

/// Why a request with these fields and slots is refused: its first blank
/// field, or else a blank slot key.
pub open spec fn request_refusal(
    fields: Seq<(Seq<char>,
    Seq<char>)>,
    slots: Seq<Slot>,
) -> Option<Seq<char>> {
    match first_blank(fields) {
        Some(m) => Some(m),
        None => if has_blank_key(slots) {
            Some(empty_field_text("slot key"@))
        } else {
            None
        },
    }
}

/// The refusal of a request, as the API answers it.
pub open spec fn refused_with(r: Result<(), ApiProblem>, m: Option<Seq<char>>) -> bool {
    match m {
        None => r is Ok,
        Some(d) => r matches Err(p) && p.kind == ProblemKind::BadRequest && p.status == 400 && p.detail@ == d,
    }
}

/// Refuses the first blank field.
fn check_fields(fields: &Vec<(&str, &str)>) -> (r: Result<(), ApiProblem>)
    ensures
        refused_with(r, first_blank(fields@.map_values(|f: (&str, &str)| (f.0@, f.1@)))),
{
    let ghost views = fields@.map_values(|f: (&str, &str)| (f.0@, f.1@));
    let mut i: usize = 0;
    assert(views.skip(0) == views);
    while i < fields.len()
        invariant
            i <= fields@.len(),
            views == fields@.map_values(|f: (&str, &str)| (f.0@, f.1@)),
            first_blank(views) == first_blank(views.skip(i as int)),
        decreases fields@.len() - i,
    {
        let (name, value) = fields[i];
        assert(views.skip(i as int).drop_first() == views.skip(i + 1));
        if blank(value) {
            return validate_non_empty(name, value);
        }
        i = i + 1;
    }
    assert(views.skip(i as int).len() == 0);
    Ok(())
}

/// Refuses a blank slot key.
fn check_slot_keys(slots: &Vec<Slot>) -> (r: Result<(), ApiProblem>)
    ensures
        refused_with(r, if has_blank_key(slots@) { Some(empty_field_text("slot key"@)) } else { None }),
{
    let mut i: usize = 0;
    while i < slots.len()
        invariant
            i <= slots@.len(),
            forall|k: int| 0 <= k < i ==> !is_blank(#[trigger] slots@[k].key@),
        decreases slots@.len() - i,
    {
        if blank(slots[i].key.as_str()) {
            return validate_non_empty("slot key", slots[i].key.as_str());
        }
        i = i + 1;
    }
    Ok(())
}

/// The store request that an upsert of a chunk makes: the chunk stamped
/// with `now_ms`, its slots inserted in order, and its encoding event; or
/// the refusal of a blank field or slot key.
pub fn chunk_upsert_request(
    agent_id: String,
    chunk_id: String,
    chunk_type: String,
    now_ms: u64,
    slots: Vec<Slot>,
) -> (r: Result<CreateChunk, ApiProblem>)
    ensures
        ({
            let refusal = request_refusal(
                seq![("agent_id"@, agent_id@), ("chunk_id"@, chunk_id@), ("chunk_type"@, chunk_type@)],
                slots@,
            );
            match refusal {
                Some(m) => r matches Err(p) && p.kind == ProblemKind::BadRequest && p.status == 400 && p.detail@ == m,
                None => r matches Ok(req) && {
                    &&& req.chunk.wf()
                    &&& req.chunk.agent_id@ == agent_id@
                    &&& req.chunk.chunk_id@ == chunk_id@
                    &&& req.chunk.chunk_type@ == chunk_type@
                    &&& slot_map(req.chunk.slots@) == with_slots(Map::<Seq<char>, Slot>::empty(), slots@)
                    &&& req.chunk.created_at_ms == now_ms
                    &&& req.chunk.updated_at_ms == now_ms
                    &&& req.chunk.retrieval_count == 0
                    &&& req.chunk.base_bias == 0
                    &&& req.initial_practice_event_id@ == encode_event_text(agent_id@, chunk_id@, now_ms)
                },
            }
        }),
{
    let mut fields: Vec<(&str, &str)> = Vec::new();
    fields.push(("agent_id", agent_id.as_str()));
    fields.push(("chunk_id", chunk_id.as_str()));
    fields.push(("chunk_type", chunk_type.as_str()));
    proof {
        reveal_strlit("agent_id");
        reveal_strlit("chunk_id");
        reveal_strlit("chunk_type");
        assert(fields@.map_values(|f: (&str, &str)| (f.0@, f.1@)) =~= seq![
            ("agent_id"@, agent_id@),
            ("chunk_id"@, chunk_id@),
            ("chunk_type"@, chunk_type@),
        ]);
    }
    check_fields(&fields)?;
    check_slot_keys(&slots)?;
    let event_id = encode_event_id(agent_id.as_str(), chunk_id.as_str(), now_ms);
    let mut chunk = Chunk::new(AgentId(agent_id), ChunkId(chunk_id), ChunkType(chunk_type), now_ms);
    let mut i: usize = 0;
    while i < slots.len()
        invariant
            i <= slots@.len(),
            chunk.wf(),
            slot_map(chunk.slots@) == with_slots(Map::<Seq<char>, Slot>::empty(), slots@.subrange(0, i as int)),
            chunk.agent_id@ == agent_id@,
            chunk.chunk_id@ == chunk_id@,
            chunk.chunk_type@ == chunk_type@,
            chunk.created_at_ms == now_ms,
            chunk.updated_at_ms == now_ms,
            chunk.retrieval_count == 0,
            chunk.base_bias == 0,
        decreases slots@.len() - i,
    {
        let s = slots[i].copy();
        assert(slots@.subrange(0, i + 1).drop_last() == slots@.subrange(0, i as int));
        chunk.upsert_slot(s.key, s.value);
        i = i + 1;
    }
    assert(slots@.subrange(0, i as int) == slots@);
    Ok(CreateChunk { chunk, initial_practice_event_id: event_id })
}

/// The store request that a patch of a chunk makes, or the refusal of a
/// blank field or slot key.
pub fn chunk_update_request(agent_id: String, chunk_id: String, expected_version: u64, slots: Vec<Slot>) -> (r:
    Result<UpdateChunk, ApiProblem>)
    ensures
        ({
            let refusal = request_refusal(seq![("agent_id"@, agent_id@), ("chunk_id"@, chunk_id@)], slots@);
            match refusal {
                Some(m) => r matches Err(p) && p.kind == ProblemKind::BadRequest && p.status == 400 && p.detail@ == m,
                None => r matches Ok(req) && req.agent_id@ == agent_id@ && req.chunk_id@ == chunk_id@
                    && req.expected_version == expected_version && req.slots@ == slots@,
            }
        }),
{
    let mut fields: Vec<(&str, &str)> = Vec::new();
    fields.push(("agent_id", agent_id.as_str()));
    fields.push(("chunk_id", chunk_id.as_str()));
    proof {
        reveal_strlit("agent_id");
        reveal_strlit("chunk_id");
        assert(fields@.map_values(|f: (&str, &str)| (f.0@, f.1@)) =~= seq![
            ("agent_id"@, agent_id@),
            ("chunk_id"@, chunk_id@),
        ]);
    }
    check_fields(&fields)?;
    check_slot_keys(&slots)?;
    Ok(UpdateChunk { agent_id: AgentId(agent_id), chunk_id: ChunkId(chunk_id), expected_version, slots })
}

/// The practice event a practice request records: its id, or the one
/// made from agent, chunk, time and kind; or the refusal of a blank field.
pub fn practice_write(
    agent_id: String,
    chunk_id: String,
    kind: String,
    weight: u64,
    occurred_at_ms: u64,
    event_id: Option<String>,
) -> (r: Result<PracticeEventWrite, ApiProblem>)
    ensures
        ({
            let refusal = first_blank(seq![("agent_id"@, agent_id@), ("chunk_id"@, chunk_id@), ("kind"@, kind@)]);
            match refusal {
                Some(m) => r matches Err(p) && p.kind == ProblemKind::BadRequest && p.status == 400 && p.detail@ == m,
                None => r matches Ok(e) && {
                    &&& e.agent_id@ == agent_id@
                    &&& e.chunk_id@ == chunk_id@
                    &&& e.kind@ == kind@
                    &&& e.weight == weight
                    &&& e.occurred_at_ms == occurred_at_ms
                    &&& e.event_id@ == match event_id {
                        Some(id) => id@,
                        None => practice_event_text(agent_id@, chunk_id@, occurred_at_ms, kind@),
                    }
                },
            }
        }),
{
    let mut fields: Vec<(&str, &str)> = Vec::new();
    fields.push(("agent_id", agent_id.as_str()));
    fields.push(("chunk_id", chunk_id.as_str()));
    fields.push(("kind", kind.as_str()));
    proof {
        reveal_strlit("agent_id");
        reveal_strlit("chunk_id");
        reveal_strlit("kind");
        assert(fields@.map_values(|f: (&str, &str)| (f.0@, f.1@)) =~= seq![
            ("agent_id"@, agent_id@),
            ("chunk_id"@, chunk_id@),
            ("kind"@, kind@),
        ]);
    }
    check_fields(&fields)?;
    let id = match event_id {
        Some(id) => id,
        None => practice_event_id(agent_id.as_str(), chunk_id.as_str(), occurred_at_ms, kind.as_str()),
    };
    Ok(PracticeEventWrite {
        event_id: id,
        agent_id: AgentId(agent_id),
        chunk_id: ChunkId(chunk_id),
        occurred_at_ms,
        kind,
        weight,
    })
}

/// The association an association request records, or the refusal of a
/// blank field.
pub fn association_write(
    agent_id: String,
    src_chunk_id: String,
    dst_chunk_id: String,
    source: String,
    strength: u64,
    fan: u64,
    updated_at_ms: u64,
) -> (r: Result<AssociationWrite, ApiProblem>)
    ensures
        ({
            let refusal = first_blank(
                seq![
                    ("agent_id"@, agent_id@),
                    ("src_chunk_id"@, src_chunk_id@),
                    ("dst_chunk_id"@, dst_chunk_id@),
                    ("source"@, source@),
                ],
            );
            match refusal {
                Some(m) => r matches Err(p) && p.kind == ProblemKind::BadRequest && p.status == 400 && p.detail@ == m,
                None => r matches Ok(a) && a.agent_id@ == agent_id@ && a.src_chunk_id@ == src_chunk_id@
                    && a.dst_chunk_id@ == dst_chunk_id@ && a.source@ == source@ && a.strength == strength
                    && a.fan == fan && a.updated_at_ms == updated_at_ms,
            }
        }),
{
    let mut fields: Vec<(&str, &str)> = Vec::new();
    fields.push(("agent_id", agent_id.as_str()));
    fields.push(("src_chunk_id", src_chunk_id.as_str()));
    fields.push(("dst_chunk_id", dst_chunk_id.as_str()));
    fields.push(("source", source.as_str()));
    proof {
        reveal_strlit("agent_id");
        reveal_strlit("src_chunk_id");
        reveal_strlit("dst_chunk_id");
        reveal_strlit("source");
        assert(fields@.map_values(|f: (&str, &str)| (f.0@, f.1@)) =~= seq![
            ("agent_id"@, agent_id@),
            ("src_chunk_id"@, src_chunk_id@),
            ("dst_chunk_id"@, dst_chunk_id@),
            ("source"@, source@),
        ]);
    }
    check_fields(&fields)?;
    Ok(AssociationWrite {
        agent_id: AgentId(agent_id),
        src_chunk_id: ChunkId(src_chunk_id),
        dst_chunk_id: ChunkId(dst_chunk_id),
        source,
        strength,
        fan,
        updated_at_ms,
    })
}

} // verus!
