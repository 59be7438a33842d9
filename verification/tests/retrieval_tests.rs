use nestor::api::{ApiRetrievalMissReason, ApiRetrievalStatus, ProblemKind, RetrievalPracticeInputDiagnostics, RetrievedChunkConditionDto};
use nestor::buffers::{BufferName, BufferSnapshot};
use nestor::chunk::{Chunk, Slot, SlotValue};
use nestor::cli::{CliError, SlotInput, parse_slot_assignment};
use nestor::ids::{AgentId, ChunkId, ChunkType, RuleId};
use nestor::numbers::float_text;
use nestor::ops::RuntimeConfig;
use nestor::retrieval::{
    CandidateScore, RankedCandidate, RetrievalDiagnostics, RetrievalMissReason, RetrievalOutcome, RetrievalStatus,
    RetrieveResponse, check_result_limit, retrieval_decision,
};
use nestor::rules::{
    BufferCondition, ProductionRule, RetrievedChunkCondition, RuleEngine, RuleRejectionReason, rejection_reason,
    rejection_reason_label,
};

fn ranked(id: &str, passes: bool, activation: f64) -> RankedCandidate {
    RankedCandidate {
        chunk_id: ChunkId::from(id),
        chunk_type: ChunkType::from("fact"),
        score: CandidateScore {
            activation: activation.to_bits(),
            retrieval_probability: 0.5_f64.to_bits(),
            predicted_latency_ms: 12.0_f64.to_bits(),
            passes_threshold: passes,
            base_level: 1.0_f64.to_bits(),
            spreading: 0.25_f64.to_bits(),
            partial_match: 0.0_f64.to_bits(),
            noise: 0.0_f64.to_bits(),
        },
        practice_input: RetrievalPracticeInputDiagnostics {
            total_practice_event_count: 3,
            exact_practice_event_count: 3,
            compressed_practice_bin_count: 0,
            base_level_cache_stale: false,
        },
    }
}

fn diagnostics() -> RetrievalDiagnostics {
    RetrievalDiagnostics {
        candidates_examined: 3,
        candidate_limit: 200,
        threshold: 0.25_f64.to_bits(),
        deterministic_seed: Some(42),
        context_chunk_count: 1,
        activation_compute_ms: 0.5_f64.to_bits(),
    }
}

#[test]
fn response_keeps_first_results_and_optional_diagnostics() {
    let outcome = RetrievalOutcome {
        agent_id: AgentId::from("agent"),
        status: RetrievalStatus::Hit,
        miss: None,
        ranked_candidates: vec![ranked("a", true, 2.0), ranked("b", false, 1.0), ranked("c", false, 0.1)],
        diagnostics: diagnostics(),
    };
    let response = RetrieveResponse::from_outcome(outcome.clone(), 2, true);
    assert_eq!(response.agent_id, "agent");
    assert_eq!(response.status, ApiRetrievalStatus::Hit);
    assert_eq!(response.miss_reason, None);
    assert_eq!(response.results.len(), 2);
    assert_eq!(response.results[0].chunk_id, "a");
    assert_eq!(response.results[1].chunk_id, "b");
    assert_eq!(f64::from_bits(response.results[0].activation), 2.0);
    assert_eq!(f64::from_bits(response.results[0].components.spreading), 0.25);
    assert_eq!(response.results[0].practice_input.total_practice_event_count, 3);
    assert_eq!(response.diagnostics, Some(diagnostics()));

    let quiet = RetrieveResponse::from_outcome(outcome, 12, false);
    assert_eq!(quiet.results.len(), 3);
    assert_eq!(quiet.diagnostics, None);

    let miss = RetrieveResponse::from_outcome(
        RetrievalOutcome {
            agent_id: AgentId::from("agent"),
            status: RetrievalStatus::Miss,
            miss: Some(RetrievalMissReason::NoCandidates),
            ranked_candidates: vec![],
            diagnostics: diagnostics(),
        },
        5,
        false,
    );
    assert_eq!(miss.status, ApiRetrievalStatus::Miss);
    assert_eq!(miss.miss_reason, Some(ApiRetrievalMissReason::NoCandidates));
    assert!(miss.results.is_empty());
}

#[test]
fn retrieval_decides_hit_miss_commit_and_cap() {
    let order = vec![(ChunkId::from("a"), true), (ChunkId::from("b"), false)];
    let hit = retrieval_decision(1, true, &order).unwrap_or_else(|p| panic!("{p:?}"));
    assert!(hit.hit);
    assert_eq!(hit.status(), RetrievalStatus::Hit);
    assert_eq!(hit.miss_reason, None);
    assert_eq!(hit.commit, Some(ChunkId::from("a")));
    assert_eq!(hit.shown, 1);

    let no_commit = retrieval_decision(5, false, &order).unwrap_or_else(|p| panic!("{p:?}"));
    assert_eq!(no_commit.commit, None);
    assert_eq!(no_commit.shown, 2);

    let below = vec![(ChunkId::from("a"), false)];
    let threshold = retrieval_decision(5, true, &below).unwrap_or_else(|p| panic!("{p:?}"));
    assert!(!threshold.hit);
    assert_eq!(threshold.status(), RetrievalStatus::Miss);
    assert_eq!(threshold.miss_reason, Some(RetrievalMissReason::Threshold));
    assert_eq!(threshold.commit, None);

    let empty = retrieval_decision(5, true, &vec![]).unwrap_or_else(|p| panic!("{p:?}"));
    assert_eq!(empty.miss_reason, Some(RetrievalMissReason::NoCandidates));
    assert_eq!(empty.shown, 0);

    let refused = retrieval_decision(0, true, &order).expect_err("zero limit");
    assert_eq!(refused.kind, ProblemKind::BadRequest);
    assert_eq!(refused.status, 400);
    assert_eq!(refused.detail, "validation error: result_limit must be greater than zero");
    assert!(check_result_limit(3).is_ok());
}

#[test]
fn blank_fields_are_bad_requests() {
    let refused = nestor::service::chunk_upsert_request(
        "".to_string(),
        "ck".to_string(),
        "fact".to_string(),
        1,
        vec![],
    )
    .expect_err("blank agent");
    assert_eq!(refused.kind, ProblemKind::BadRequest);
    assert_eq!(refused.status, 400);
    assert_eq!(refused.detail, "validation error: agent_id must not be empty");
    let practice = nestor::service::practice_write(
        "a".to_string(),
        "c".to_string(),
        " ".to_string(),
        0,
        1,
        None,
    )
    .expect_err("blank kind");
    assert_eq!(practice.kind, ProblemKind::BadRequest);
}

#[test]
fn default_runtime_config_validates() {
    let config = RuntimeConfig::default();
    assert_eq!(config.bind_addr, "127.0.0.1:8080");
    assert_eq!(config.memgraph_uri, "bolt://127.0.0.1:7687");
    assert_eq!(config.validate(), Ok(()));
}

#[test]
fn number_slots_must_read_as_numbers() {
    match parse_slot_assignment("x=number:-1.5e3") {
        Ok(parsed) => assert_eq!(parsed, ("x".to_string(), SlotInput::Number("-1.5e3".to_string()))),
        Err(err) => panic!("{err:?}"),
    }
    assert!(parse_slot_assignment("x=number:inf").is_ok());
    match parse_slot_assignment("x=number:abc") {
        Err(CliError::Usage { hint, .. }) => assert!(hint.contains("guide slots")),
        other => panic!("unexpected {other:?}"),
    }
    for good in ["1", "+1", "1.", ".5", "1e5", "1.5E-3", "NaN", "-Infinity", "INF"] {
        assert!(float_text(good), "{good}");
        assert!(good.parse::<f64>().is_ok(), "{good}");
    }
    for bad in ["", "+", ".", "e5", "1e", "1e+", "1.2.3", " 1", "0x10", "infin", "1_000"] {
        assert!(!float_text(bad), "{bad}");
        assert!(bad.parse::<f64>().is_err(), "{bad}");
    }
}

fn retrieved_rule(condition: RetrievedChunkCondition) -> ProductionRule {
    ProductionRule {
        rule_id: RuleId::from("answer"),
        name: "answer".to_string(),
        enabled: true,
        utility: 2.0_f64.to_bits(),
        version: 1,
        conditions: vec![],
        retrieved_chunk: Some(condition),
    }
}

#[test]
fn rules_test_the_retrieved_chunk() {
    let chunk = Chunk::new(AgentId::from("a"), ChunkId::from("mem"), ChunkType::from("fact"), 1)
        .with_slot("topic".to_string(), SlotValue::Symbol("Preference".to_string()));
    let condition = RetrievedChunkCondition {
        chunk_id: None,
        chunk_type: Some(ChunkType::from("fact")),
        slots: vec![Slot::new("topic".to_string(), SlotValue::Symbol(" preference ".to_string()))],
    };
    let rule = retrieved_rule(condition.clone());
    let buffers: Vec<BufferSnapshot> = vec![];
    assert!(condition.matches(&Some(chunk.clone())));
    assert!(!condition.matches(&None));
    let engine = RuleEngine::new(vec![rule.clone()]);
    assert_eq!(engine.matching_rules_with(&buffers, &Some(chunk.clone())).len(), 1);
    assert!(engine.matching_rules(&buffers).is_empty());
    assert_eq!(engine.choose_best_with(&buffers, &Some(chunk.clone())).map(|m| m.specificity), Some(2));
    assert_eq!(rejection_reason(&rule, &buffers, &Some(chunk.clone())), None);
    assert_eq!(rejection_reason(&rule, &buffers, &None), Some(RuleRejectionReason::RetrievedChunkConditionNotMet));
    assert_eq!(
        rejection_reason_label(RuleRejectionReason::RetrievedChunkConditionNotMet),
        "retrieved_chunk_condition_not_met"
    );
    let other = RetrievedChunkCondition {
        chunk_id: Some(ChunkId::from("else")),
        chunk_type: None,
        slots: vec![],
    };
    assert!(!other.matches(&Some(chunk.clone())));
    let _ = BufferCondition::buffer_present(BufferName::Goal);

    let dto = RetrievedChunkConditionDto {
        chunk_id: Some("mem".to_string()),
        chunk_type: None,
        slots: vec![Slot::new("topic".to_string(), SlotValue::Number(1.0_f64.to_bits()))],
    };
    let converted = dto.into_condition();
    assert_eq!(converted.chunk_id, Some(ChunkId::from("mem")));
    assert_eq!(converted.slots.len(), 1);
}

fn plain_rule(id: &str, utility: f64, conditions: Vec<BufferCondition>) -> ProductionRule {
    ProductionRule {
        rule_id: RuleId::from(id),
        name: id.to_string(),
        enabled: true,
        utility: utility.to_bits(),
        version: 7,
        conditions,
        retrieved_chunk: None,
    }
}

#[test]
fn nan_utility_rules_are_still_ranked() {
    let buffers: Vec<BufferSnapshot> = vec![];
    let engine = RuleEngine::new(vec![plain_rule("nan", f64::NAN, vec![])]);
    let all = engine.matching_rules(&buffers);
    assert_eq!(all.len(), 1);
    assert_eq!(all[0].rule_id, RuleId::from("nan"));
    assert_eq!(engine.choose_best(&buffers).map(|m| m.rule_id), Some(RuleId::from("nan")));
}

#[test]
fn conflict_resolution_reports_every_rule() {
    let buffers: Vec<BufferSnapshot> = vec![];
    let mut disabled = plain_rule("off", 1.0, vec![]);
    disabled.enabled = false;
    let engine = RuleEngine::new(vec![
        plain_rule("low", 1.0, vec![]),
        disabled,
        plain_rule("high", 3.0, vec![]),
        plain_rule("goal", 9.0, vec![BufferCondition::buffer_present(BufferName::Goal)]),
    ]);
    let conflict = engine.conflict_resolution(&buffers, &None);
    assert_eq!(conflict.matches.len(), 2);
    assert_eq!(conflict.matches[0].rule_id, RuleId::from("high"));
    assert_eq!(conflict.matches[0].rank, 1);
    assert_eq!(conflict.matches[1].rule_id, RuleId::from("low"));
    assert_eq!(conflict.matches[1].rank, 2);
    assert_eq!(conflict.matches[1].version, 7);
    assert_eq!(conflict.selected.map(|m| m.rule_id), Some(RuleId::from("high")));
    assert_eq!(conflict.candidates.len(), 4);
    assert_eq!(conflict.candidates[0].rank, Some(2));
    assert!(conflict.candidates[0].matched);
    assert_eq!(conflict.candidates[1].rejection_reason, Some(RuleRejectionReason::Disabled));
    assert_eq!(conflict.candidates[1].rank, None);
    assert_eq!(conflict.candidates[2].rank, Some(1));
    assert_eq!(conflict.candidates[3].rejection_reason, Some(RuleRejectionReason::BufferConditionsNotMet));
}

#[test]
fn scored_chunks_rank_by_total_order_then_id() {
    let ranked_ids: Vec<String> = nestor::retrieval::rank_scored_chunks(vec![
        ranked("b", false, 1.0),
        ranked("a", false, 1.0),
        ranked("neg", false, -0.0),
        ranked("top", true, 5.0),
        ranked("zero", false, 0.0),
        ranked("low", false, -3.0),
    ])
    .into_iter()
    .map(|c| c.chunk_id.0)
    .collect();
    assert_eq!(ranked_ids, vec!["top", "a", "b", "zero", "neg", "low"]);
}

#[test]
fn retrieval_counts_by_status() {
    let mut counters = nestor::counters::ApiCounters::new();
    counters.record_retrieval_status(RetrievalStatus::Hit);
    counters.record_retrieval_status(RetrievalStatus::Miss);
    counters.record_retrieval_status(RetrievalStatus::Miss);
    assert_eq!(counters.retrieval_hits(), 1);
    assert_eq!(counters.retrieval_misses(), 2);
}
