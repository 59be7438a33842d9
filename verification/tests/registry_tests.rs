use nestor::buffers::BufferName;
use nestor::ids::{AgentId, ChunkId, ChunkType};
use nestor::registry::SessionRegistry;

#[test]
fn a_session_stays_under_its_agent() {
    let mut registry = SessionRegistry::new();
    let renamed = registry.with_session(AgentId::from("a"), |session| {
        session.set_buffer(BufferName::Goal, ChunkId::from("g"), ChunkType::from("goal"), 5);
        session.agent_id = AgentId::from("b");
        Ok(session.cognitive_step())
    });
    assert!(matches!(renamed, Ok(1)));
    let snapshot = registry.snapshot(AgentId::from("a")).unwrap_or_else(|err| panic!("{err:?}"));
    assert_eq!(snapshot[0].chunk_id, Some(ChunkId::from("g")));
    let fresh = registry.snapshot(AgentId::from("b")).unwrap_or_else(|err| panic!("{err:?}"));
    assert_eq!(fresh[0].chunk_id, None);
}
