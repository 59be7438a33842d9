//! The Memgraph-backed store: connection settings, driver plan, schema
//! migrations and the Cypher statements the repository runs.
use vstd::prelude::*;

verus! {

pub const CREATE_CHUNK: &'static str = "
MERGE (a:Agent {agent_id: $agent_id})
MERGE (c:Chunk {agent_id: $agent_id, chunk_id: $chunk_id})
SET c.chunk_type = $chunk_type,
    c.updated_at = datetime($updated_at),
    c.active = true,
    c.slot_hash = $slot_hash,
    c.base_bias = coalesce($base_bias, 0.0)
ON CREATE SET c.created_at = datetime($created_at),
              c.retrieval_count = 0,
              c.practice_count = 0
MERGE (a)-[:OWNS]->(c)
RETURN c.chunk_id AS chunk_id
";

pub const FETCH_CANDIDATES: &'static str = "
UNWIND $cue_slots AS cue
MATCH (v:SlotValue {tenant_id: $agent_id, key: cue.key, value_hash: cue.value_hash})<-[:HAS_SLOT]-(c:Chunk)
WHERE c.active = true
  AND ($chunk_type IS NULL OR c.chunk_type = $chunk_type)
WITH c, count(*) AS cue_matches
OPTIONAL MATCH (ctx:Chunk {agent_id: $agent_id, chunk_id: $context_chunk_id})-[a:ASSOCIATED]->(c)
WITH c, cue_matches, coalesce(max(a.strength), 0.0) AS assoc_boost
ORDER BY cue_matches DESC, assoc_boost DESC, c.last_access_at DESC
LIMIT $candidate_limit
RETURN c.chunk_id AS chunk_id,
       c.chunk_type AS chunk_type,
       c.retrieval_count AS retrieval_count,
       c.last_access_at AS last_access_at,
       c.base_bias AS base_bias
";

pub const APPEND_PRACTICE_EVENT: &'static str = "
MATCH (c:Chunk {agent_id: $agent_id, chunk_id: $chunk_id, active: true})
CREATE (e:PracticeEvent {
  event_id: $event_id,
  agent_id: $agent_id,
  chunk_id: $chunk_id,
  ts: datetime($occurred_at),
  kind: $kind,
  weight: $weight
})
CREATE (c)-[:HAS_EVENT]->(e)
SET c.last_practiced_at = datetime($occurred_at),
    c.practice_count = coalesce(c.practice_count, 0) + 1,
    c.updated_at = datetime($occurred_at)
RETURN e.event_id AS event_id
";

pub const UPSERT_ASSOCIATION: &'static str = "
MATCH (src:Chunk {agent_id: $agent_id, chunk_id: $src_chunk_id, active: true})
MATCH (dst:Chunk {agent_id: $agent_id, chunk_id: $dst_chunk_id, active: true})
MERGE (src)-[r:ASSOCIATED {source: $source}]->(dst)
SET r.strength = $strength,
    r.fan = $fan,
    r.updated_at = datetime($updated_at),
    r.created_at = coalesce(r.created_at, datetime($updated_at))
RETURN src.chunk_id AS src_chunk_id, dst.chunk_id AS dst_chunk_id
";

pub const SET_BUFFER_CURRENT: &'static str = "
MERGE (b:Buffer {agent_id: $agent_id, buffer_name: $buffer_name})
WITH b
OPTIONAL MATCH (b)-[old:CURRENT]->(:Chunk)
DELETE old
WITH b
MATCH (c:Chunk {agent_id: $agent_id, chunk_id: $chunk_id, active: true})
CREATE (b)-[:CURRENT {set_at: datetime($set_at)}]->(c)
RETURN b.buffer_name AS buffer_name, c.chunk_id AS chunk_id
";

/// The initial schema: uniqueness of agents, chunks, practice events and
/// buffers, and the lookup indexes that the statements above use.
pub const INITIAL_SCHEMA: &'static str = "
CREATE CONSTRAINT ON (a:Agent) ASSERT a.agent_id IS UNIQUE;
CREATE CONSTRAINT ON (e:PracticeEvent) ASSERT e.event_id IS UNIQUE;
CREATE CONSTRAINT ON (c:Chunk) ASSERT c.agent_id, c.chunk_id IS UNIQUE;
CREATE CONSTRAINT ON (b:Buffer) ASSERT b.agent_id, b.buffer_name IS UNIQUE;
CREATE INDEX ON :Chunk(agent_id);
CREATE INDEX ON :Chunk(chunk_type);
CREATE INDEX ON :Chunk(active);
CREATE INDEX ON :SlotValue(tenant_id);
CREATE INDEX ON :SlotValue(value_hash);
CREATE INDEX ON :PracticeEvent(chunk_id);
";

#[derive(Debug, Clone, PartialEq, Eq)]
pub struct MemgraphRepositoryConfig {
    pub uri: String,
    pub user: String,
    pub database: String,
    pub max_connections: usize,
    pub schema_info_enabled: bool,
}

impl Default for MemgraphRepositoryConfig {
    fn default() -> (r: Self)
        ensures
            r.uri@ == "bolt://127.0.0.1:7687"@,
            r.user@ == "memgraph"@,
            r.database@ == "memgraph"@,
            r.max_connections == 16,
            r.schema_info_enabled,
    {
        MemgraphRepositoryConfig {
            uri: String::from_str("bolt://127.0.0.1:7687"),
            user: String::from_str("memgraph"),
            database: String::from_str("memgraph"),
            max_connections: 16,
            schema_info_enabled: true,
        }
    }
}

#[derive(Debug, Clone, PartialEq, Eq)]
pub struct MemgraphDriverPlan {
    pub driver: &'static str,
    pub rationale: &'static str,
    pub integration_goal: &'static str,
}

pub fn recommended_driver_plan() -> (r: MemgraphDriverPlan)
    ensures
        r.driver@ == "neo4rs"@,
        r.rationale@
            == "async pooled Bolt access, explicit transactions, and a clear path to Tokio service wiring"@,
        r.integration_goal@ == "G04-memgraph-schema-repository"@,
{
    MemgraphDriverPlan {
        driver: "neo4rs",
        rationale: "async pooled Bolt access, explicit transactions, and a clear path to Tokio service wiring",
        integration_goal: "G04-memgraph-schema-repository",
    }
}

#[derive(Debug, Clone, Copy, PartialEq, Eq)]
pub struct SchemaMigration {
    pub name: &'static str,
    pub cypher: &'static str,
}

/// The schema migrations shipped with the store, in the order they apply.
pub fn embedded_migrations() -> (r: Vec<SchemaMigration>)
    ensures
        r@.len() == 1,
        r@[0].name@ == "001_actr_memory_schema.cypher"@,
        r@[0].cypher@ == INITIAL_SCHEMA@,
{
    vec![SchemaMigration { name: "001_actr_memory_schema.cypher", cypher: INITIAL_SCHEMA }]
}

} // verus!
