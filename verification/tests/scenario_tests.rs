use nestor::api::route_manifest;
use nestor::buffers::BufferName;
use nestor::chunk::{Chunk, SlotValue};
use nestor::client::{parse_http_url, parse_response, encode_path, encode_query, ApiClientConfig, NestorClient};
use nestor::error::MemoryError;
use nestor::ids::{AgentId, ChunkId, ChunkType, RuleId};
use nestor::ops::{service_metrics, RuntimeConfig};
use nestor::rules::{BufferCondition, ProductionRule, RuleEngine};
use nestor::session::SessionState;
use nestor::store::{embedded_migrations, FETCH_CANDIDATES, SET_BUFFER_CURRENT};

#[test]
fn routes_route_manifest_contains_reported_endpoints() {
    let routes = route_manifest();

    assert!(routes.iter().any(|route| route.path == "/v1/memory/retrieve"));
    assert!(routes.iter().any(|route| route.path == "/metrics"));
    assert!(routes.iter().any(|route| route.path == "/readyz"));
}

#[test]
fn ids_can_be_constructed_from_strs() {
    let agent = AgentId::from("agent-1");

    assert_eq!(agent.as_str(), "agent-1");
}

#[test]
fn includes_reported_candidate_metric() {
    assert!(service_metrics()
        .iter()
        .any(|metric| metric.name == "actr_memory_candidates_examined"));
}

#[test]
fn retrieval_query_keeps_candidate_limit() {
    assert!(FETCH_CANDIDATES.contains("LIMIT $candidate_limit"));
}

#[test]
fn buffer_query_replaces_current_edge() {
    assert!(SET_BUFFER_CURRENT.contains("DELETE old"));
    assert!(SET_BUFFER_CURRENT.contains("CREATE (b)-[:CURRENT"));
}

#[test]
fn embeds_initial_schema() {
    let migrations = embedded_migrations();

    assert_eq!(migrations.len(), 1);
    assert!(migrations[0].cypher.contains("CREATE CONSTRAINT"));
    assert!(migrations[0].cypher.contains("CREATE INDEX"));
}

#[test]
fn parses_http_url_with_port() {
    let parsed = parse_http_url("http://127.0.0.1:8080").unwrap_or_else(|err| panic!("{err:?}"));
    assert_eq!(parsed.host, "127.0.0.1");
    assert_eq!(parsed.port, 8080);
    assert_eq!(parsed.base_path, "");
}

#[test]
fn parses_basic_response() {
    let response = parse_response(b"HTTP/1.1 200 OK\r\ncontent-length: 2\r\n\r\n{}")
        .unwrap_or_else(|err| {
            panic!("{err:?}");
        });
    assert_eq!(response.status, 200);
    assert_eq!(response.body, b"{}");
}

#[test]
fn manifest_exposes_all_routes() {
    let client = NestorClient::new(ApiClientConfig::default());
    let routes = client.manifest();
    assert!(routes.iter().any(|route| route.path == "/v1/memory/chunks"));
    assert!(routes.iter().any(|route| route.path == "/metrics"));
}

#[test]
fn encodes_path_and_query_components() {
    assert_eq!(encode_path("a/b c"), "a%2Fb%20c");
    assert_eq!(encode_query("agent 1"), "agent%201");
}

#[test]
fn normalizes_symbolic_slot_values() {
    let value = SlotValue::Symbol("  ACT-R  ".to_string());

    assert_eq!(value.normalized(), "act-r");
    assert_eq!(value.value_type(), "symbol");
}

#[test]
fn chunks_store_slots_by_key() {
    let chunk = Chunk::new(
        AgentId("agent-1".to_string()),
        ChunkId("ck-1".to_string()),
        ChunkType("episodic".to_string()),
        1_000,
    )
    .with_slot("topic".to_string(), SlotValue::Symbol("memgraph".to_string()));

    assert_eq!(
        chunk.slot("topic"),
        Some(&SlotValue::Symbol("memgraph".to_string()))
    );
}

#[test]
fn retrieval_record_updates_pure_chunk_state() {
    let mut chunk = Chunk::new(
        AgentId::from("agent-1"),
        ChunkId::from("ck-1"),
        ChunkType::from("episodic"),
        1_000,
    );

    chunk.record_retrieval(1_500);

    assert_eq!(chunk.retrieval_count, 1);
    assert_eq!(chunk.updated_at_ms, 1_500);
}

#[test]
fn default_config_is_valid() {
    assert!(RuntimeConfig::default().validate().is_ok());
}

#[test]
fn chooses_more_specific_matching_rule_before_utility_tie_break() {
    let mut session = SessionState::new(AgentId("agent".to_string()));
    session.set_buffer(
        BufferName::Goal,
        ChunkId("goal-1".to_string()),
        ChunkType("goal".to_string()),
        1,
    );
    let engine = RuleEngine::new(vec![
        ProductionRule {
            rule_id: RuleId("generic".to_string()),
            name: "generic".to_string(),
            enabled: true,
            utility: 99.0_f64.to_bits(),
            version: 1,
            conditions: vec![BufferCondition::buffer_present(BufferName::Goal)],
            retrieved_chunk: None,
        },
        ProductionRule {
            rule_id: RuleId("specific".to_string()),
            name: "specific".to_string(),
            enabled: true,
            utility: 1.0_f64.to_bits(),
            version: 1,
            conditions: vec![BufferCondition {
                buffer: BufferName::Goal,
                chunk_id: Some(ChunkId("goal-1".to_string())),
                chunk_type: Some(ChunkType("goal".to_string())),
            }],
            retrieved_chunk: None,
        },
    ]);

    let chosen = engine
        .choose_best(&session.snapshot())
        .expect("a rule should match");
    assert_eq!(chosen.rule_id, RuleId("specific".to_string()));
}

#[test]
fn core_buffers_start_empty_in_deterministic_order() -> Result<(), MemoryError> {
    let session = SessionState::new(AgentId::from("agent"));

    let snapshot = session.snapshot();

    assert_eq!(
        snapshot
            .iter()
            .map(|buffer| buffer.name.clone())
            .collect::<Vec<_>>(),
        vec![
            BufferName::Goal,
            BufferName::Retrieval,
            BufferName::Imaginal,
            BufferName::Task,
        ]
    );
    assert!(snapshot.iter().all(|buffer| buffer.chunk_id.is_none()));
    assert_eq!(
        session
            .buffer_snapshot(&BufferName::Goal)?
            .chunk_type
            .as_ref(),
        None
    );
    assert_eq!(session.cognitive_step(), 0);
    Ok(())
}

#[test]
fn buffer_replacement_and_clearing_are_single_steps() -> Result<(), MemoryError> {
    let mut session = SessionState::new(AgentId::from("agent"));

    let first = session.set_buffer(
        BufferName::Goal,
        ChunkId::from("ck-1"),
        ChunkType::from("goal"),
        100,
    );
    let second = session.set_buffer(
        BufferName::Goal,
        ChunkId::from("ck-2"),
        ChunkType::from("goal"),
        200,
    );
    let cleared = session.clear_buffer(&BufferName::Goal, 300)?;

    assert_eq!(first.chunk_id, Some(ChunkId::from("ck-1")));
    assert_eq!(second.chunk_id, Some(ChunkId::from("ck-2")));
    assert_eq!(cleared.chunk_id, None);
    assert_eq!(cleared.chunk_type, None);
    assert_eq!(cleared.updated_at_ms, 300);
    assert_eq!(session.cognitive_step(), 3);
    Ok(())
}

#[test]
fn clearing_unknown_buffer_returns_error_without_step() {
    let mut session = SessionState::new(AgentId::from("agent"));

    let result = session.clear_buffer(&BufferName::Custom("missing".to_string()), 100);

    assert!(matches!(result, Err(MemoryError::NotFound(_))));
    assert_eq!(session.cognitive_step(), 0);
}

#[test]
fn retrieval_commit_replaces_single_buffer_chunk() -> Result<(), MemoryError> {
    let mut session = SessionState::new(AgentId::from("agent"));

    let first = session.commit_retrieval(ChunkId::from("ck-1"), ChunkType::from("episodic"), 100);
    let second = session.commit_retrieval(ChunkId::from("ck-2"), ChunkType::from("episodic"), 200);

    assert_eq!(first.chunk_id, Some(ChunkId::from("ck-1")));
    assert_eq!(second.chunk_id, Some(ChunkId::from("ck-2")));
    assert_eq!(
        session
            .buffer_snapshot(&BufferName::Retrieval)?
            .chunk_id
            .as_ref(),
        Some(&ChunkId::from("ck-2"))
    );
    assert_eq!(session.cognitive_step(), 2);
    Ok(())
}
