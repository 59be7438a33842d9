use nestor::api::{
    ApiProblem, BufferConditionDto, ProblemKind, ProductionRuleDto, parse_buffer_name,
    route_manifest_text, validate_non_empty,
};
use nestor::buffers::{BufferName, BufferSnapshot};
use nestor::chunk::{Chunk, PracticeEvent, Slot, SlotValue};
use nestor::cli::{
    CliError, OutputFormat, SlotInput, count_nonempty_lines, parse_bool, parse_bool_option,
    parse_slot_assignment, render_list, required_string,
};
use nestor::client::{ClientError, encode_component, parse_http_url, parse_response};
use nestor::counters::ApiCounters;
use nestor::error::MemoryError;
use nestor::ids::{AgentId, ChunkId, ChunkType, RuleId};
use nestor::memory::{
    AssociationWrite, CandidateQuery, CreateChunk, CueCheck, MemoryStore, PracticeEventWrite,
    ProductionRuleRecord, UpdateChunk,
};
use nestor::registry::SessionRegistry;
use nestor::rules::{
    BufferCondition, ProductionRule, RuleEngine, RuleRejectionReason, rejection_reason, rejection_reason_label,
};
use nestor::service::{rules_for_evaluation, track_memory_result};
use nestor::session::SessionState;

const ONE: u64 = 0x3FF0_0000_0000_0000;

fn chunk(agent: &str, id: &str, kind: &str, now: u64) -> Chunk {
    Chunk::new(AgentId::from(agent), ChunkId::from(id), ChunkType::from(kind), now)
}

fn create(store: &mut MemoryStore, agent: &str, id: &str, kind: &str, event: &str) -> Result<Chunk, MemoryError> {
    store.create_chunk(CreateChunk {
        chunk: chunk(agent, id, kind, 10),
        initial_practice_event_id: event.to_string(),
    })
}

fn event(id: &str, agent: &str, chunk: &str, at: u64) -> PracticeEventWrite {
    PracticeEventWrite {
        event_id: id.to_string(),
        agent_id: AgentId::from(agent),
        chunk_id: ChunkId::from(chunk),
        occurred_at_ms: at,
        kind: "retrieve".to_string(),
        weight: ONE,
    }
}

fn rule(id: &str, name: &str, utility: u64, conditions: Vec<BufferCondition>) -> ProductionRule {
    ProductionRule {
        rule_id: RuleId::from(id),
        name: name.to_string(),
        enabled: true,
        utility,
        version: 1,
        conditions,
        retrieved_chunk: None,
    }
}

#[test]
fn parses_all_slot_value_types() {
    let matches = clap::Command::new("test")
        .arg(
            clap::Arg::new("slot")
                .long("slot")
                .action(clap::ArgAction::Append)
                .value_name("KEY=TYPE:VALUE"),
        )
        .try_get_matches_from([
            "test",
            "--slot",
            "a=symbol:one",
            "--slot",
            "b=text:two",
            "--slot",
            "c=number:3.5",
            "--slot",
            "d=bool:true",
        ]);
    assert!(matches.is_ok());
    let matches = matches.unwrap_or_else(|err| panic!("{err}"));
    let raws: Vec<String> = matches
        .get_many::<String>("slot")
        .map(|values| values.cloned().collect())
        .unwrap_or_default();
    let slots: Vec<(String, SlotInput)> = raws
        .iter()
        .map(|raw| parse_slot_assignment(raw).unwrap_or_else(|err| panic!("{err:?}")))
        .collect();
    assert_eq!(slots.len(), 4);
    assert_eq!(slots[0], ("a".to_string(), SlotInput::Symbol("one".to_string())));
    assert_eq!(slots[1], ("b".to_string(), SlotInput::Text("two".to_string())));
    assert_eq!(slots[2], ("c".to_string(), SlotInput::Number("3.5".to_string())));
    assert_eq!(slots[3], ("d".to_string(), SlotInput::Bool(true)));
}

#[test]
fn malformed_slot_points_to_guide() {
    let error = parse_slot_assignment("topic=preference");
    assert!(error.is_err());
    let error = error.expect_err("invalid slot should fail");
    match error {
        CliError::Usage { hint, .. } => assert!(hint.contains("guide slots")),
        _ => panic!("wrong error kind"),
    }
}

#[test]
fn registry_keeps_independent_agent_sessions() {
    let mut registry = SessionRegistry::default();
    let held = registry.get_or_create(AgentId::from("agent-a"));

    let step = registry.with_session(AgentId::from("agent-b"), |session| {
        session.set_buffer(BufferName::Task, ChunkId::from("task-b"), ChunkType::from("task"), 100);
        Ok(session.cognitive_step())
    });

    assert_eq!(step.ok(), Some(1));
    let snapshot = registry.snapshot(AgentId::from("agent-b")).unwrap_or_else(|err| panic!("{err:?}"));
    assert_eq!(
        snapshot
            .into_iter()
            .find(|buffer| buffer.name == BufferName::Task)
            .and_then(|buffer| buffer.chunk_id),
        Some(ChunkId::from("task-b"))
    );
    assert_eq!(registry.get_or_create(AgentId::from("agent-a")), held);
}

// ---- laws on concrete values ----------------------------------------------

#[test]
fn set_buffer_reads_back() {
    let mut session = SessionState::new(AgentId::from("agent"));
    session.set_buffer(BufferName::Goal, ChunkId::from("g1"), ChunkType::from("goal"), 42);
    let snap = session.buffer_snapshot(&BufferName::Goal).unwrap_or_else(|err| panic!("{err:?}"));
    assert_eq!(snap.chunk_id, Some(ChunkId::from("g1")));
    assert_eq!(snap.chunk_type, Some(ChunkType::from("goal")));
    assert_eq!(snap.updated_at_ms, 42);
    let task = session.buffer_snapshot(&BufferName::Task).unwrap_or_else(|err| panic!("{err:?}"));
    assert_eq!(task.chunk_id, None);
    assert_eq!(task.updated_at_ms, 0);
}

#[test]
fn custom_buffer_is_created_and_listed_after_core_buffers() {
    let mut session = SessionState::new(AgentId::from("agent"));
    session.set_buffer(
        BufferName::Custom("visual".to_string()),
        ChunkId::from("v1"),
        ChunkType::from("scene"),
        7,
    );
    session.set_buffer(
        BufferName::Custom("aural".to_string()),
        ChunkId::from("a1"),
        ChunkType::from("sound"),
        8,
    );
    let names: Vec<BufferName> = session.snapshot().into_iter().map(|b| b.name).collect();
    assert_eq!(
        names,
        vec![
            BufferName::Goal,
            BufferName::Retrieval,
            BufferName::Imaginal,
            BufferName::Task,
            BufferName::Custom("aural".to_string()),
            BufferName::Custom("visual".to_string()),
        ]
    );
    assert_eq!(session.cognitive_step(), 2);
}

#[test]
fn cleared_buffer_reads_back_empty() {
    let mut session = SessionState::new(AgentId::from("agent"));
    session.set_buffer(BufferName::Imaginal, ChunkId::from("i1"), ChunkType::from("img"), 5);
    let cleared = session.clear_buffer(&BufferName::Imaginal, 9).unwrap_or_else(|err| panic!("{err:?}"));
    let read = session.buffer_snapshot(&BufferName::Imaginal).unwrap_or_else(|err| panic!("{err:?}"));
    assert_eq!(cleared, read);
    assert_eq!(read.chunk_id, None);
    assert_eq!(read.chunk_type, None);
    assert_eq!(read.updated_at_ms, 9);
    assert_eq!(session.cognitive_step(), 2);
}

#[test]
fn reading_unknown_buffer_is_not_found() {
    let session = SessionState::new(AgentId::from("agent"));
    match session.buffer_snapshot(&BufferName::Custom("nowhere".to_string())) {
        Err(MemoryError::NotFound(message)) => assert_eq!(message, "buffer nowhere"),
        other => panic!("unexpected {other:?}"),
    }
}

#[test]
fn get_or_create_twice_gives_the_same_session() {
    let mut registry = SessionRegistry::new();
    let first = registry.get_or_create(AgentId::from("a"));
    let other = registry.get_or_create(AgentId::from("b"));
    let again = registry.get_or_create(AgentId::from("a"));
    assert_eq!(first, again);
    assert_ne!(first, other);
}

#[test]
fn session_work_leaves_other_agents_alone() {
    let mut registry = SessionRegistry::new();
    let _ = registry.with_session(AgentId::from("a"), |session| {
        session.set_buffer(BufferName::Goal, ChunkId::from("ga"), ChunkType::from("goal"), 1);
        Ok(())
    });
    let _ = registry.with_session(AgentId::from("b"), |session| {
        session.set_buffer(BufferName::Goal, ChunkId::from("gb"), ChunkType::from("goal"), 2);
        Ok(())
    });
    let a = registry.snapshot(AgentId::from("a")).unwrap_or_else(|err| panic!("{err:?}"));
    assert_eq!(a[0].chunk_id, Some(ChunkId::from("ga")));
    assert_eq!(a[0].updated_at_ms, 1);
}

#[test]
fn created_chunk_reads_back() {
    let mut store = MemoryStore::new();
    let created = create(&mut store, "agent", "c1", "fact", "e1").unwrap_or_else(|err| panic!("{err:?}"));
    let read = store.get_chunk(&AgentId::from("agent"), &ChunkId::from("c1"));
    assert_eq!(read, Some(created));
    assert_eq!(store.get_chunk(&AgentId::from("other"), &ChunkId::from("c1")), None);
}

#[test]
fn creating_a_chunk_twice_conflicts() {
    let mut store = MemoryStore::new();
    assert!(create(&mut store, "agent", "c1", "fact", "e1").is_ok());
    match create(&mut store, "agent", "c1", "fact", "e2") {
        Err(MemoryError::Conflict(message)) => assert_eq!(message, "chunk c1 already exists"),
        other => panic!("unexpected {other:?}"),
    }
}

#[test]
fn deleted_chunk_is_gone() {
    let mut store = MemoryStore::new();
    assert!(create(&mut store, "agent", "c1", "fact", "e1").is_ok());
    assert!(store.soft_delete_chunk(&AgentId::from("agent"), &ChunkId::from("c1")).is_ok());
    assert_eq!(store.get_chunk(&AgentId::from("agent"), &ChunkId::from("c1")), None);
    match store.soft_delete_chunk(&AgentId::from("agent"), &ChunkId::from("c1")) {
        Err(MemoryError::NotFound(message)) => assert_eq!(message, "chunk c1"),
        other => panic!("unexpected {other:?}"),
    }
    // A deleted key stays taken.
    assert!(matches!(create(&mut store, "agent", "c1", "fact", "e3"), Err(MemoryError::Conflict(_))));
}

#[test]
fn stale_update_conflicts() {
    let mut store = MemoryStore::new();
    assert!(create(&mut store, "agent", "c1", "fact", "e1").is_ok());
    let update = |version: u64| UpdateChunk {
        agent_id: AgentId::from("agent"),
        chunk_id: ChunkId::from("c1"),
        expected_version: version,
        slots: vec![Slot::new("topic".to_string(), SlotValue::Symbol("coffee".to_string()))],
    };
    let updated = store.update_chunk(update(1)).unwrap_or_else(|err| panic!("{err:?}"));
    assert_eq!(updated.updated_at_ms, 11);
    assert_eq!(updated.slot("topic"), Some(&SlotValue::Symbol("coffee".to_string())));
    match store.update_chunk(update(1)) {
        Err(MemoryError::Conflict(message)) => assert_eq!(message, "chunk c1 version conflict"),
        other => panic!("unexpected {other:?}"),
    }
    assert!(store.update_chunk(update(2)).is_ok());
}

#[test]
fn duplicate_practice_event_conflicts() {
    let mut store = MemoryStore::new();
    assert!(create(&mut store, "agent", "c1", "fact", "e1").is_ok());
    assert!(store.append_practice_event(event("p1", "agent", "c1", 20)).is_ok());
    match store.append_practice_event(event("p1", "agent", "c1", 30)) {
        Err(MemoryError::Conflict(message)) => assert_eq!(message, "practice event p1 already exists"),
        other => panic!("unexpected {other:?}"),
    }
    // The encoding event already holds its id.
    assert!(matches!(
        store.append_practice_event(event("e1", "agent", "c1", 40)),
        Err(MemoryError::Conflict(_))
    ));
    assert!(matches!(
        store.append_practice_event(event("p2", "agent", "missing", 40)),
        Err(MemoryError::NotFound(_))
    ));
}

#[test]
fn blank_fields_are_refused_in_order() {
    let mut store = MemoryStore::new();
    match store.append_practice_event(event("", "", "c1", 1)) {
        Err(MemoryError::Validation(message)) => assert_eq!(message, "event_id must not be empty"),
        other => panic!("unexpected {other:?}"),
    }
    match create(&mut store, "agent", "c1", "fact", "   ") {
        Err(MemoryError::Validation(message)) => {
            assert!(message.ends_with("must not be empty"));
        }
        other => panic!("unexpected {other:?}"),
    }
}

#[test]
fn selected_rule_is_first_match() {
    let engine = RuleEngine::new(vec![
        rule("plain", "plain", 0x4000_0000_0000_0000, vec![BufferCondition::buffer_present(BufferName::Goal)]),
        rule(
            "pinned",
            "pinned",
            0,
            vec![BufferCondition {
                buffer: BufferName::Goal,
                chunk_id: Some(ChunkId::from("g")),
                chunk_type: None,
            }],
        ),
        rule("never", "never", ONE, vec![BufferCondition::buffer_present(BufferName::Task)]),
    ]);
    let buffers = vec![BufferSnapshot {
        name: BufferName::Goal,
        chunk_id: Some(ChunkId::from("g")),
        chunk_type: Some(ChunkType::from("goal")),
        updated_at_ms: 1,
    }];
    let all = engine.matching_rules(&buffers);
    let best = engine.choose_best(&buffers);
    assert_eq!(all.len(), 2);
    assert_eq!(best.as_ref().map(|m| m.rule_id.clone()), Some(RuleId::from("pinned")));
    assert_eq!(best, all.first().cloned());
}

// ---- candidates -------------------------------------------------------------

#[test]
fn candidate_pool_reports_cues_history_and_strengths() {
    let mut store = MemoryStore::new();
    let _ = store.create_chunk(CreateChunk {
        chunk: chunk("agent", "c1", "fact", 10)
            .with_slot("topic".to_string(), SlotValue::Symbol("  Coffee ".to_string()))
            .with_slot("weight".to_string(), SlotValue::Number(ONE)),
        initial_practice_event_id: "z-encode".to_string(),
    });
    assert!(create(&mut store, "agent", "ctx", "goal", "ctx-encode").is_ok());
    assert!(create(&mut store, "agent", "c2", "note", "c2-encode").is_ok());
    assert!(create(&mut store, "other", "c3", "fact", "c3-encode").is_ok());
    assert!(store.append_practice_event(event("b-practice", "agent", "c1", 50)).is_ok());
    assert!(store
        .upsert_association(AssociationWrite {
            agent_id: AgentId::from("agent"),
            src_chunk_id: ChunkId::from("ctx"),
            dst_chunk_id: ChunkId::from("c1"),
            source: "goal".to_string(),
            strength: 0x3FF4_0000_0000_0000,
            fan: 1,
            updated_at_ms: 5,
        })
        .is_ok());

    let query = CandidateQuery {
        agent_id: AgentId::from("agent"),
        chunk_type: Some("fact".to_string()),
        cue_slots: vec![
            Slot::new("topic".to_string(), SlotValue::Symbol("coffee".to_string())),
            Slot::new("topic".to_string(), SlotValue::Text("coffee".to_string())),
            Slot::new("weight".to_string(), SlotValue::Number(ONE)),
            Slot::new("missing".to_string(), SlotValue::Bool(true)),
        ],
        context_chunk_ids: vec![ChunkId::from("ctx"), ChunkId::from("c2")],
        candidate_limit: 10,
    };
    let pool = store.candidate_pool(&query).unwrap_or_else(|err| panic!("{err:?}"));
    assert_eq!(pool.len(), 1);
    let entry = &pool[0];
    assert_eq!(entry.chunk.chunk_id, ChunkId::from("c1"));
    assert_eq!(
        entry.cue_checks,
        vec![CueCheck::Matched, CueCheck::Unmatched, CueCheck::Numbers(ONE, ONE), CueCheck::Unmatched]
    );
    assert_eq!(
        entry.practice_events,
        vec![PracticeEvent::new(50), PracticeEvent::new(10)]
    );
    assert_eq!(entry.context_strengths, vec![vec![0x3FF4_0000_0000_0000], vec![]]);

    let blank = CandidateQuery { agent_id: AgentId::from(" "), ..query };
    assert!(matches!(store.candidate_pool(&blank), Err(MemoryError::Validation(_))));
}

// ---- rules for an evaluation ------------------------------------------------

#[test]
fn evaluation_uses_sent_rules_narrowed_to_candidates() {
    let store = MemoryStore::new();
    let sent = vec![rule("a", "a", 0, vec![]), rule("b", "b", 0, vec![])];
    let chosen = rules_for_evaluation(&store, &AgentId::from("agent"), sent.clone(), &vec!["b".to_string()]);
    assert_eq!(chosen.iter().map(|r| r.rule_id.as_str()).collect::<Vec<_>>(), vec!["b"]);
    let all = rules_for_evaluation(&store, &AgentId::from("agent"), sent, &vec![]);
    assert_eq!(all.len(), 2);
}

#[test]
fn evaluation_without_rules_loads_stored_candidates() {
    let mut store = MemoryStore::new();
    let record = ProductionRuleRecord {
        agent_id: AgentId::from("agent"),
        rule: rule("stored", "stored", 0, vec![]),
        success_count: 0,
        failure_count: 0,
        avg_reward: 0,
    };
    assert!(store.upsert_production_rule(record).is_ok());
    let chosen = rules_for_evaluation(
        &store,
        &AgentId::from("agent"),
        vec![],
        &vec!["unknown".to_string(), "stored".to_string()],
    );
    assert_eq!(chosen.len(), 1);
    assert_eq!(chosen[0].rule_id, RuleId::from("stored"));
}

#[test]
fn rule_records_convert_or_are_refused() {
    let dto = |id: &str, name: &str, utility: u64, buffer: &str| ProductionRuleDto {
        rule_id: id.to_string(),
        name: name.to_string(),
        enabled: false,
        utility,
        version: 3,
        conditions: vec![BufferConditionDto {
            buffer: buffer.to_string(),
            chunk_id: Some("g".to_string()),
            chunk_type: None,
        }],
        retrieved_chunk: None,
    };
    let converted = dto("r", "rule", ONE, "goal").into_rule().unwrap_or_else(|err| panic!("{err:?}"));
    assert_eq!(converted.rule_id, RuleId::from("r"));
    assert!(!converted.enabled);
    assert_eq!(converted.version, 3);
    assert_eq!(converted.conditions[0].buffer, BufferName::Goal);
    assert_eq!(converted.conditions[0].chunk_id, Some(ChunkId::from("g")));
    let refusal = |d: ProductionRuleDto| match d.into_rule() {
        Err(MemoryError::Validation(message)) => message,
        other => panic!("unexpected {other:?}"),
    };
    assert_eq!(refusal(dto(" ", "rule", ONE, "goal")), "rule_id must not be empty");
    assert_eq!(refusal(dto("r", "", ONE, "goal")), "name must not be empty");
    assert_eq!(refusal(dto("r", "rule", 0x7FF8_0000_0000_0000, "goal")), "rule utility must be finite");
    assert_eq!(refusal(dto("r", "rule", 0xFFF0_0000_0000_0000, "goal")), "rule utility must be finite");
    assert_eq!(refusal(dto("r", "rule", ONE, "  ")), "buffer_name must not be empty");
}

// ---- counters and answers ---------------------------------------------------

#[test]
fn counters_count_each_event_on_its_own() {
    let mut counters = ApiCounters::default();
    counters.record_retrieval_hit();
    counters.record_retrieval_hit();
    counters.record_retrieval_miss();
    counters.record_session_lock_contention();
    counters.record_retrieval_observation(1500, 7, 250);
    assert_eq!(counters.retrieval_hits(), 2);
    assert_eq!(counters.retrieval_misses(), 1);
    assert_eq!(counters.session_lock_contention(), 1);
    assert_eq!(counters.write_conflicts(), 0);
    assert_eq!(counters.retrieve_latency_us(), 1500);
    assert_eq!(counters.candidates_examined(), 7);
    assert_eq!(counters.activation_compute_us(), 250);
}

#[test]
fn conflicts_are_counted_and_answered() {
    let mut counters = ApiCounters::new();
    let answer = track_memory_result::<()>(&mut counters, Err(MemoryError::Conflict("x".to_string())));
    assert_eq!(counters.write_conflicts(), 1);
    let problem = answer.expect_err("a conflict is refused");
    assert_eq!(problem.status, 409);
    assert_eq!(problem.detail, "conflict: x");
    let ok = track_memory_result(&mut counters, Ok(5u8));
    assert_eq!(ok.ok(), Some(5));
    let missing = track_memory_result::<()>(&mut counters, Err(MemoryError::NotFound("chunk c".to_string())));
    assert_eq!(missing.expect_err("missing").status, 404);
    assert_eq!(counters.write_conflicts(), 1);
}

#[test]
fn every_error_kind_has_its_status() {
    let cases = [
        (MemoryError::Validation("v".to_string()), 400, "bad request", "validation error: v"),
        (MemoryError::NotFound("n".to_string()), 404, "not found", "not found: n"),
        (MemoryError::Conflict("c".to_string()), 409, "conflict", "conflict: c"),
        (MemoryError::StoreUnavailable("s".to_string()), 503, "service unavailable", "store unavailable: s"),
        (MemoryError::Serialization("j".to_string()), 500, "internal error", "serialization error: j"),
    ];
    for (error, status, title, detail) in cases {
        let problem = ApiProblem::from_error(error);
        assert_eq!(problem.status, status);
        assert_eq!(problem.title, title);
        assert_eq!(problem.detail, detail);
    }
    assert_eq!(ProblemKind::ThresholdMiss.status_code(), 200);
}

#[test]
fn empty_fields_are_bad_requests() {
    let problem = validate_non_empty("agent_id", " \t").expect_err("blank is refused");
    assert_eq!(problem.status, 400);
    assert_eq!(problem.detail, "validation error: agent_id must not be empty");
    assert!(validate_non_empty("agent_id", "a").is_ok());
    assert!(matches!(parse_buffer_name(""), Err(MemoryError::Validation(_))));
    assert_eq!(parse_buffer_name("goal").ok(), Some(BufferName::Goal));
    assert_eq!(parse_buffer_name("scratch").ok(), Some(BufferName::Custom("scratch".to_string())));
}

#[test]
fn manifest_text_has_one_line_per_route() {
    let text = route_manifest_text();
    assert_eq!(text.lines().count(), nestor::api::route_manifest().len());
    assert!(text.lines().any(|line| line.starts_with("GET ") && line.contains("/metrics")));
}

// ---- text and values ----------------------------------------------------------

#[test]
fn symbols_and_texts_normalize_by_trim_and_lowercase() {
    assert_eq!(SlotValue::Symbol("  ÉLAN Vital ".to_string()).normalized(), "élan vital");
    assert_eq!(SlotValue::Text("\tMiXeD\n".to_string()).normalized(), "mixed");
    assert_eq!(SlotValue::Bool(false).normalized(), "false");
    assert_eq!(SlotValue::Number(ONE).value_type(), "number");
}

#[test]
fn practice_events_default_to_unit_weight() {
    let event = PracticeEvent::new(12);
    assert_eq!(event.weight, ONE);
    assert_eq!(event.with_weight(0x4000_0000_0000_0000).weight, 0x4000_0000_0000_0000);
    assert_eq!(event.with_weight(0).occurred_at_ms, 12);
}

#[test]
fn cli_values_parse_as_documented() {
    assert_eq!(OutputFormat::parse("pretty-json"), Ok(OutputFormat::PrettyJson));
    assert_eq!(
        OutputFormat::parse("yaml"),
        Err("format must be text, json, or pretty-json".to_string())
    );
    assert_eq!(parse_bool("on", "flag").ok(), Some(true));
    assert_eq!(parse_bool("0", "flag").ok(), Some(false));
    match parse_bool("maybe", "flag") {
        Err(CliError::Usage { detail, hint }) => {
            assert_eq!(detail, "flag: expected true or false");
            assert!(hint.contains("guide slots"));
        }
        other => panic!("unexpected {other:?}"),
    }
    assert_eq!(parse_bool_option(None, "flag").ok(), Some(None));
    assert_eq!(parse_bool_option(Some("no"), "flag").ok(), Some(Some(false)));
    assert!(matches!(required_string(None, "chunk-id"), Err(CliError::Usage { .. })));
    assert!(matches!(parse_slot_assignment("=symbol:x"), Err(CliError::Usage { .. })));
    assert!(matches!(parse_slot_assignment("k=color:red"), Err(CliError::Usage { .. })));
    match parse_slot_assignment("flag=bool:perhaps") {
        Err(CliError::Usage { detail, .. }) => assert_eq!(detail, "slot bool: expected true or false"),
        other => panic!("unexpected {other:?}"),
    }
    assert_eq!(
        parse_slot_assignment("note=text:a:b").ok(),
        Some(("note".to_string(), SlotInput::Text("a:b".to_string())))
    );
}

#[test]
fn lists_render_joined_or_none() {
    assert_eq!(render_list(&vec![]), "<none>");
    assert_eq!(render_list(&vec!["a".to_string(), "b".to_string()]), "a, b");
    assert_eq!(count_nonempty_lines("a\n\nb\r\n\r\nc"), 3);
    assert_eq!(count_nonempty_lines(""), 0);
}

#[test]
fn components_are_percent_encoded() {
    assert_eq!(encode_component("a b/c?d=é"), "a%20b%2Fc%3Fd%3D%C3%A9");
    assert_eq!(encode_component("A-z_0.9~"), "A-z_0.9~");
}

#[test]
fn malformed_urls_and_responses_are_refused() {
    assert!(matches!(parse_http_url("https://example.com"), Err(ClientError::InvalidUrl(_))));
    assert!(matches!(parse_http_url("http:///v1"), Err(ClientError::InvalidUrl(_))));
    assert_eq!(parse_http_url("http://:80").map(|u| u.port).ok(), Some(80));
    assert!(matches!(parse_http_url("http://host:99999"), Err(ClientError::InvalidUrl(_))));
    let parsed = parse_http_url("http://localhost/api/").unwrap_or_else(|err| panic!("{err:?}"));
    assert_eq!(parsed.host, "localhost");
    assert_eq!(parsed.port, 80);
    assert_eq!(parsed.base_path, "/api");
    assert!(matches!(parse_response(b"HTTP/1.1 200 OK"), Err(ClientError::InvalidResponse(_))));
    assert!(matches!(
        parse_response(b"HTTP/1.1 \xff\xfe OK\r\n\r\n"),
        Err(ClientError::InvalidResponse(_))
    ));
    assert!(matches!(parse_response(b"HTTP/1.1 abc OK\r\n\r\nbody"), Err(ClientError::InvalidResponse(_))));
}

// ---- requests the API builds -------------------------------------------------

#[test]
fn event_ids_follow_their_formats() {
    assert_eq!(nestor::service::encode_event_id("agent-1", "mem", 1000), "encode-agent-1-mem-1000");
    assert_eq!(
        nestor::service::practice_event_id("agent-1", "mem", 42, "retrieve"),
        "practice-agent-1-mem-42-retrieve"
    );
}

#[test]
fn upsert_requests_are_built_or_refused() {
    let slots = vec![
        Slot::new("b".to_string(), SlotValue::Bool(true)),
        Slot::new("a".to_string(), SlotValue::Symbol("x".to_string())),
        Slot::new("b".to_string(), SlotValue::Bool(false)),
    ];
    let request = nestor::service::chunk_upsert_request(
        "agent".to_string(),
        "c1".to_string(),
        "fact".to_string(),
        77,
        slots.clone(),
    )
    .unwrap_or_else(|problem| panic!("{problem:?}"));
    assert_eq!(request.initial_practice_event_id, "encode-agent-c1-77");
    assert_eq!(request.chunk.created_at_ms, 77);
    assert_eq!(request.chunk.slot("b"), Some(&SlotValue::Bool(false)));
    assert_eq!(request.chunk.slots.len(), 2);

    let refused = nestor::service::chunk_upsert_request(
        "agent".to_string(),
        " ".to_string(),
        "".to_string(),
        77,
        slots.clone(),
    )
    .expect_err("blank chunk id");
    assert_eq!(refused.detail, "validation error: chunk_id must not be empty");
    let blank_key = nestor::service::chunk_upsert_request(
        "agent".to_string(),
        "c1".to_string(),
        "fact".to_string(),
        77,
        vec![Slot::new("  ".to_string(), SlotValue::Bool(true))],
    )
    .expect_err("blank slot key");
    assert_eq!(blank_key.detail, "validation error: slot key must not be empty");

    let update = nestor::service::chunk_update_request("agent".to_string(), "c1".to_string(), 4, slots)
        .unwrap_or_else(|problem| panic!("{problem:?}"));
    assert_eq!(update.expected_version, 4);
    assert_eq!(update.slots.len(), 3);
}

#[test]
fn practice_and_association_writes_are_built_or_refused() {
    let named = nestor::service::practice_write(
        "a".to_string(),
        "c".to_string(),
        "rehearse".to_string(),
        ONE,
        9,
        Some("mine".to_string()),
    )
    .unwrap_or_else(|problem| panic!("{problem:?}"));
    assert_eq!(named.event_id, "mine");
    let unnamed = nestor::service::practice_write("a".to_string(), "c".to_string(), "rehearse".to_string(), ONE, 9, None)
        .unwrap_or_else(|problem| panic!("{problem:?}"));
    assert_eq!(unnamed.event_id, "practice-a-c-9-rehearse");
    let refused = nestor::service::practice_write("a".to_string(), "c".to_string(), " ".to_string(), ONE, 9, None)
        .expect_err("blank kind");
    assert_eq!(refused.detail, "validation error: kind must not be empty");
    let association = nestor::service::association_write(
        "a".to_string(),
        "s".to_string(),
        "d".to_string(),
        "goal".to_string(),
        ONE,
        2,
        3,
    )
    .unwrap_or_else(|problem| panic!("{problem:?}"));
    assert_eq!(association.fan, 2);
    let refused = nestor::service::association_write(
        "a".to_string(),
        "s".to_string(),
        "".to_string(),
        "goal".to_string(),
        ONE,
        2,
        3,
    )
    .expect_err("blank target");
    assert_eq!(refused.detail, "validation error: dst_chunk_id must not be empty");
}

#[test]
fn requests_are_planned_against_the_configured_url() {
    let transport = nestor::client::HttpTransport::new(nestor::client::ApiClientConfig::new(
        "http://localhost:9000/base/",
        std::time::Duration::from_millis(10),
    ));
    let plan = transport.plan_request("GET", "/healthz", 0).unwrap_or_else(|err| panic!("{err:?}"));
    assert_eq!(plan.address, "localhost:9000");
    assert_eq!(
        plan.head,
        "GET /base/healthz HTTP/1.1\r\nHost: localhost\r\nAccept: application/json\r\nContent-Type: application/json\r\nContent-Length: 0\r\nConnection: close\r\n\r\n"
    );
    let broken = nestor::client::HttpTransport::new(nestor::client::ApiClientConfig::new(
        "ftp://x",
        std::time::Duration::from_millis(10),
    ));
    assert!(matches!(broken.plan_request("GET", "/", 0), Err(ClientError::InvalidUrl(_))));
    assert_eq!(nestor::client::chunk_query_path("a b", "c/d"), "/v1/memory/chunks/c%2Fd?agent_id=a%20b");
    assert_eq!(nestor::client::chunk_path("x"), "/v1/memory/chunks/x");
    assert_eq!(nestor::client::buffer_path("goal"), "/v1/memory/buffers/goal");
    assert!(nestor::client::is_success(204));
    assert!(!nestor::client::is_success(301));
}

#[test]
fn client_errors_read_as_messages() {
    assert_eq!(ClientError::Transport("refused".to_string()).message(), "API transport error: refused");
    let problem = ApiProblem::new(ProblemKind::NotFound, "chunk c".to_string());
    assert_eq!(ClientError::Api(problem).message(), "not found: chunk c");
    assert_eq!(ClientError::Timeout("u".to_string()).exit_code().0, 6);
}

#[test]
fn label_hash_is_fnv_1a() {
    assert_eq!(nestor::hashing::label_hash(0, ""), 0xcbf2_9ce4_8422_2325);
    assert_eq!(nestor::hashing::label_hash(0, "a"), 0xaf63_dc4c_8601_ec8c);
    assert_ne!(nestor::hashing::label_hash(1, "a"), nestor::hashing::label_hash(0, "a"));
}

#[test]
fn rejected_rules_say_why() {
    let buffers: Vec<BufferSnapshot> = vec![];
    let mut disabled = rule("d", "d", 0, vec![]);
    disabled.enabled = false;
    assert_eq!(rejection_reason(&disabled, &buffers, &None), Some(RuleRejectionReason::Disabled));
    let infinite = rule("i", "i", 0x7FF0_0000_0000_0000, vec![]);
    assert_eq!(rejection_reason(&infinite, &buffers, &None), Some(RuleRejectionReason::NonFiniteUtility));
    let unmet = rule("u", "u", 0, vec![BufferCondition::buffer_present(BufferName::Goal)]);
    assert_eq!(rejection_reason(&unmet, &buffers, &None), Some(RuleRejectionReason::BufferConditionsNotMet));
    assert_eq!(rejection_reason(&rule("ok", "ok", 0, vec![]), &buffers, &None), None);
    assert_eq!(rejection_reason_label(RuleRejectionReason::NonFiniteUtility), "non_finite_utility");
}

#[test]
fn default_client_config_targets_local_api() {
    let config = nestor::client::ApiClientConfig::default();
    assert_eq!(config.api_url, "http://127.0.0.1:8080");
    assert_eq!(config.timeout, std::time::Duration::from_millis(5_000));
    let trimmed = nestor::client::ApiClientConfig::new("http://h:1///", std::time::Duration::from_secs(1));
    assert_eq!(trimmed.api_url, "http://h:1");
}

#[test]
fn recorded_practice_joins_the_history() {
    let mut store = MemoryStore::new();
    assert!(create(&mut store, "agent", "c1", "fact", "m-encode").is_ok());
    assert!(store.append_practice_event(event("a-first", "agent", "c1", 5)).is_ok());
    let query = CandidateQuery {
        agent_id: AgentId::from("agent"),
        chunk_type: None,
        cue_slots: vec![],
        context_chunk_ids: vec![],
        candidate_limit: 1,
    };
    let pool = store.candidate_pool(&query).unwrap_or_else(|err| panic!("{err:?}"));
    assert_eq!(pool.len(), 1);
    assert_eq!(pool[0].practice_events, vec![PracticeEvent::new(5), PracticeEvent::new(10)]);
    assert!(pool[0].cue_checks.is_empty());
}
