//! The HTTP API's routes, problem documents and the plain request and
//! response records it exchanges.
use vstd::prelude::*;

use crate::buffers::{BufferName, BufferSnapshot, name_text};
use crate::error::{MemoryError, MemoryResult, error_text};
use crate::ids::{ChunkId, ChunkType, RuleId};
use crate::ops::{HealthCheck, health_label, health_status_label, is_finite_bits};
use crate::order::str_eq;
use crate::chunk::Slot;
use crate::rules::{BufferCondition, ProductionRule, RetrievedChunkCondition};
use crate::text::{blank, is_blank, joined, push_str};

verus! {

#[derive(Debug, Clone, Copy, PartialEq, Eq)]
pub enum ProblemKind {
    BadRequest,
    NotFound,
    Conflict,
    ThresholdMiss,
    ServiceUnavailable,
    Internal,
}

/// The HTTP status of each kind of problem.
pub open spec fn status_of(k: ProblemKind) -> u16 {
    match k {
        ProblemKind::BadRequest => 400,
        ProblemKind::NotFound => 404,
        ProblemKind::Conflict => 409,
        ProblemKind::ThresholdMiss => 200,
        ProblemKind::ServiceUnavailable => 503,
        ProblemKind::Internal => 500,
    }
}

/// The title of each kind of problem.
pub open spec fn title_of(k: ProblemKind) -> Seq<char> {
    match k {
        ProblemKind::BadRequest => "bad request"@,
        ProblemKind::NotFound => "not found"@,
        ProblemKind::Conflict => "conflict"@,
        ProblemKind::ThresholdMiss => "retrieval threshold miss"@,
        ProblemKind::ServiceUnavailable => "service unavailable"@,
        ProblemKind::Internal => "internal error"@,
    }
}

/// The kind of problem that reports a memory error.
pub open spec fn kind_of(e: MemoryError) -> ProblemKind {
    match e {
        MemoryError::Validation(_) => ProblemKind::BadRequest,
        MemoryError::NotFound(_) => ProblemKind::NotFound,
        MemoryError::Conflict(_) => ProblemKind::Conflict,
        MemoryError::ThresholdMiss { .. } => ProblemKind::ThresholdMiss,
        MemoryError::StoreUnavailable(_) => ProblemKind::ServiceUnavailable,
        MemoryError::Serialization(_) => ProblemKind::Internal,
    }
}

impl ProblemKind {
    /// The HTTP status code of this kind of problem.
    pub fn status_code(self) -> (r: u16)
        ensures
            r == status_of(self),
    {
        match self {
            ProblemKind::BadRequest => 400,
            ProblemKind::NotFound => 404,
            ProblemKind::Conflict => 409,
            ProblemKind::ThresholdMiss => 200,
            ProblemKind::ServiceUnavailable => 503,
            ProblemKind::Internal => 500,
        }
    }

    pub fn title(self) -> (r: &'static str)
        ensures
            r@ == title_of(self),
    {
        match self {
            ProblemKind::BadRequest => "bad request",
            ProblemKind::NotFound => "not found",
            ProblemKind::Conflict => "conflict",
            ProblemKind::ThresholdMiss => "retrieval threshold miss",
            ProblemKind::ServiceUnavailable => "service unavailable",
            ProblemKind::Internal => "internal error",
        }
    }

    /// The kind of problem that reports `e`.
    pub fn for_error(e: &MemoryError) -> (r: ProblemKind)
        ensures
            r == kind_of(*e),
    {
        match e {
            MemoryError::Validation(_) => ProblemKind::BadRequest,
            MemoryError::NotFound(_) => ProblemKind::NotFound,
            MemoryError::Conflict(_) => ProblemKind::Conflict,
            MemoryError::ThresholdMiss { .. } => ProblemKind::ThresholdMiss,
            MemoryError::StoreUnavailable(_) => ProblemKind::ServiceUnavailable,
            MemoryError::Serialization(_) => ProblemKind::Internal,
        }
    }
}

/// A problem document, as the API answers a refused request.
#[derive(Debug, Clone, PartialEq)]
pub struct ApiProblem {
    pub kind: ProblemKind,
    pub title: String,
    pub status: u16,
    pub detail: String,
}

impl ApiProblem {
    pub fn new(kind: ProblemKind, detail: String) -> (r: Self)
        ensures
            r.kind == kind,
            r.title@ == title_of(kind),
            r.status == status_of(kind),
            r.detail == detail,
    {
        ApiProblem {
            kind,
            title: String::from_str(kind.title()),
            status: kind.status_code(),
            detail,
        }
    }

    /// The problem that reports a memory error whose payload is text; its
    /// detail is the error's message.
    pub fn from_error(value: MemoryError) -> (r: Self)
        requires
            !(value is ThresholdMiss),
        ensures
            r.kind == kind_of(value),
            r.title@ == title_of(kind_of(value)),
            r.status == status_of(kind_of(value)),
            r.detail@ == error_text(value),
    {
        let kind = ProblemKind::for_error(&value);
        ApiProblem::new(kind, value.message())
    }
}

/// The message of a refused empty field.
pub open spec fn empty_field_text(field: Seq<char>) -> Seq<char> {
    "validation error: "@ + (field + " must not be empty"@)
}

/// Refuses a value that is empty once trimmed.
pub fn validate_non_empty(field: &str, value: &str) -> (r: Result<(), ApiProblem>)
    ensures
        !is_blank(value@) ==> r is Ok,
        is_blank(value@) ==> (r matches Err(p) && p.kind == ProblemKind::BadRequest && p.status
            == 400 && p.detail@ == empty_field_text(field@)),
{
    if blank(value) {
        let message = String::from_str(field).concat(" must not be empty");
        Err(ApiProblem::from_error(MemoryError::Validation(message)))
    } else {
        Ok(())
    }
}

#[derive(Debug, Clone, Copy, PartialEq, Eq)]
pub struct RouteSpec {
    pub method: &'static str,
    pub path: &'static str,
    pub purpose: &'static str,
}

/// The routes the API serves, as (method, path, purpose).
pub open spec fn routes_spec() -> Seq<(Seq<char>, Seq<char>, Seq<char>)> {
    seq![
        ("POST"@, "/v1/memory/chunks"@, "create or upsert chunk"@),
        ("GET"@, "/v1/memory/chunks/{chunk_id}"@, "inspect chunk"@),
        ("PATCH"@, "/v1/memory/chunks/{chunk_id}"@, "update chunk slots with optimistic versioning"@),
        ("DELETE"@, "/v1/memory/chunks/{chunk_id}"@, "soft-delete chunk"@),
        ("POST"@, "/v1/memory/retrieve"@, "ACT-R retrieval with score breakdown"@),
        ("POST"@, "/v1/memory/retrieve/stream"@, "retrieval diagnostics response"@),
        ("POST"@, "/v1/memory/practice"@, "record encoding, retrieval, or rehearsal"@),
        ("POST"@, "/v1/memory/associate"@, "add or update spreading-activation association"@),
        ("PUT"@, "/v1/memory/buffers/{buffer_name}"@, "set current buffer chunk"@),
        ("POST"@, "/v1/rules/evaluate"@, "evaluate production candidates"@),
        ("GET"@, "/healthz"@, "liveness"@),
        ("GET"@, "/readyz"@, "readiness with dependency status"@),
        ("GET"@, "/metrics"@, "Prometheus metrics scrape"@),
    ]
}

/// A route as (method, path, purpose).
pub open spec fn route_triple(r: RouteSpec) -> (Seq<char>, Seq<char>, Seq<char>) {
    (r.method@, r.path@, r.purpose@)
}

/// The manifest line of a route: `METHOD PATH - purpose`.
pub open spec fn route_line(t: (Seq<char>, Seq<char>, Seq<char>)) -> Seq<char> {
    t.0 + " "@ + t.1 + " - "@ + t.2
}

/// The manifest of the routes the API serves.
pub fn route_manifest() -> (r: Vec<RouteSpec>)
    ensures
        r@.map_values(|s: RouteSpec| route_triple(s)) == routes_spec(),
{
    let r = vec![
        RouteSpec { method: "POST", path: "/v1/memory/chunks", purpose: "create or upsert chunk" },
        RouteSpec { method: "GET", path: "/v1/memory/chunks/{chunk_id}", purpose: "inspect chunk" },
        RouteSpec {
            method: "PATCH",
            path: "/v1/memory/chunks/{chunk_id}",
            purpose: "update chunk slots with optimistic versioning",
        },
        RouteSpec { method: "DELETE", path: "/v1/memory/chunks/{chunk_id}", purpose: "soft-delete chunk" },
        RouteSpec {
            method: "POST",
            path: "/v1/memory/retrieve",
            purpose: "ACT-R retrieval with score breakdown",
        },
        RouteSpec {
            method: "POST",
            path: "/v1/memory/retrieve/stream",
            purpose: "retrieval diagnostics response",
        },
        RouteSpec {
            method: "POST",
            path: "/v1/memory/practice",
            purpose: "record encoding, retrieval, or rehearsal",
        },
        RouteSpec {
            method: "POST",
            path: "/v1/memory/associate",
            purpose: "add or update spreading-activation association",
        },
        RouteSpec {
            method: "PUT",
            path: "/v1/memory/buffers/{buffer_name}",
            purpose: "set current buffer chunk",
        },
        RouteSpec {
            method: "POST",
            path: "/v1/rules/evaluate",
            purpose: "evaluate production candidates",
        },
        RouteSpec { method: "GET", path: "/healthz", purpose: "liveness" },
        RouteSpec { method: "GET", path: "/readyz", purpose: "readiness with dependency status" },
        RouteSpec { method: "GET", path: "/metrics", purpose: "Prometheus metrics scrape" },
    ];
    assert(r@.map_values(|s: RouteSpec| route_triple(s)) =~= routes_spec());
    r
}

/// The manifest as text, one `METHOD PATH - purpose` line per route.
pub fn route_manifest_text() -> (r: String)
    ensures
        r@ == joined(routes_spec().map_values(|t: (Seq<char>, Seq<char>, Seq<char>)| route_line(t)), "\n"@),
{
    let routes = route_manifest();
    let mut lines: Vec<String> = Vec::new();
    let mut i: usize = 0;
    while i < routes.len()
        invariant
            i <= routes@.len(),
            lines@.len() == i,
            forall|k: int| 0 <= k < i ==> (#[trigger] lines@[k])@ == route_line(route_triple(routes@[k])),
        decreases routes@.len() - i,
    {
        let route = routes[i];
        let mut line = String::from_str(route.method);
        push_str(&mut line, " ");
        push_str(&mut line, route.path);
        push_str(&mut line, " - ");
        push_str(&mut line, route.purpose);
        lines.push(line);
        i = i + 1;
    }
    let r = crate::text::join_strings(&lines, "\n");
    let ghost a = lines@.map_values(|p: String| p@);
    let ghost b = routes_spec().map_values(|t: (Seq<char>, Seq<char>, Seq<char>)| route_line(t));
    let ghost c = routes@.map_values(|s: RouteSpec| route_triple(s));
    assert(a =~= b) by {
        assert forall|k: int| 0 <= k < a.len() implies #[trigger] a[k] == b[k] by {
            assert(c[k] == routes_spec()[k]);
        }
    }
    r
}

/// The buffer a name denotes: the four core names, or any other non-blank
/// text as a custom buffer.
pub open spec fn parsed_buffer_name(value: Seq<char>) -> Option<BufferName> {
    if value == "goal"@ {
        Some(BufferName::Goal)
    } else if value == "retrieval"@ {
        Some(BufferName::Retrieval)
    } else if value == "imaginal"@ {
        Some(BufferName::Imaginal)
    } else if value == "task"@ {
        Some(BufferName::Task)
    } else if !is_blank(value) {
        Some(BufferName::Custom(choose|s: String| s@ == value))
    } else {
        None
    }
}

/// Reads a buffer name.
pub fn parse_buffer_name(value: &str) -> (r: MemoryResult<BufferName>)
    ensures
        match parsed_buffer_name(value@) {
            Some(BufferName::Custom(_)) => r matches Ok(BufferName::Custom(s)) && s@ == value@,
            Some(n) => r == Ok::<BufferName, MemoryError>(n),
            None => r matches Err(MemoryError::Validation(m)) && m@ == "buffer_name must not be empty"@,
        },
{
    if str_eq(value, "goal") {
        Ok(BufferName::Goal)
    } else if str_eq(value, "retrieval") {
        Ok(BufferName::Retrieval)
    } else if str_eq(value, "imaginal") {
        Ok(BufferName::Imaginal)
    } else if str_eq(value, "task") {
        Ok(BufferName::Task)
    } else if !blank(value) {
        Ok(BufferName::Custom(String::from_str(value)))
    } else {
        Err(MemoryError::Validation(String::from_str("buffer_name must not be empty")))
    }
}

pub fn default_candidate_limit() -> (r: usize)
    ensures
        r == 200,
{
    200
}

pub fn default_result_limit() -> (r: usize)
    ensures
        r == 12,
{
    12
}

pub fn default_true() -> (r: bool)
    ensures
        r,
{
    true
}

pub fn default_fan() -> (r: u64)
    ensures
        r == 1,
{
    1
}

pub fn default_summary_chunk_type() -> (r: String)
    ensures
        r@ == "semantic"@,
{
    String::from_str("semantic")
}

pub fn default_min_group_size() -> (r: usize)
    ensures
        r == 2,
{
    2
}

pub fn default_version() -> (r: u64)
    ensures
        r == 1,
{
    1
}

pub fn default_rule_selection_policy() -> (r: String)
    ensures
        r@ == "specificity"@,
{
    String::from_str("specificity")
}

pub fn default_now_ms() -> (r: u64)
    ensures
        r == 1000,
{
    1_000
}

#[derive(Debug, Clone, PartialEq, Eq)]
pub struct AgentQuery {
    pub agent_id: String,
}

#[derive(Debug, Clone, PartialEq, Eq)]
pub struct ConsolidateRequest {
    pub agent_id: String,
    pub chunk_type: Option<String>,
    pub summary_chunk_type: String,
    pub group_slot_keys: Vec<String>,
    pub min_group_size: usize,
    pub now_ms: u64,
}

#[derive(Debug, Clone, PartialEq, Eq)]
pub struct ConsolidationGroupResponse {
    pub summary_chunk_id: String,
    pub source_chunk_ids: Vec<String>,
}

#[derive(Debug, Clone, PartialEq, Eq)]
pub struct ConsolidateResponse {
    pub agent_id: String,
    pub groups_considered: usize,
    pub groups_consolidated: usize,
    pub summaries: Vec<ConsolidationGroupResponse>,
}

#[derive(Debug, Clone, PartialEq, Eq)]
pub struct ForgetResponse {
    pub agent_id: String,
    pub examined: usize,
    pub forgotten_chunk_ids: Vec<String>,
    pub archived_chunk_ids: Vec<String>,
    pub protected_chunk_ids: Vec<String>,
}

#[derive(Debug, Clone, PartialEq, Eq)]
pub struct BufferSetRequest {
    pub agent_id: String,
    pub chunk_id: String,
    pub set_at_ms: u64,
}

#[derive(Debug, Clone, PartialEq, Eq)]
pub struct BufferResponse {
    pub agent_id: String,
    pub buffer_name: String,
    pub chunk_id: Option<String>,
    pub chunk_type: Option<String>,
    pub updated_at_ms: u64,
}

impl BufferResponse {
    pub fn from_snapshot(agent_id: String, snapshot: BufferSnapshot) -> (r: Self)
        ensures
            r.agent_id == agent_id,
            r.buffer_name@ == name_text(snapshot.name),
            r.chunk_id == match snapshot.chunk_id {
                Some(id) => Some(id.0),
                None => None::<String>,
            },
            r.chunk_type == match snapshot.chunk_type {
                Some(t) => Some(t.0),
                None => None::<String>,
            },
            r.updated_at_ms == snapshot.updated_at_ms,
    {
        let buffer_name = String::from_str(snapshot.name.as_str());
        let chunk_id = match snapshot.chunk_id {
            Some(id) => Some(id.0),
            None => None,
        };
        let chunk_type = match snapshot.chunk_type {
            Some(t) => Some(t.0),
            None => None,
        };
        BufferResponse {
            agent_id,
            buffer_name,
            chunk_id,
            chunk_type,
            updated_at_ms: snapshot.updated_at_ms,
        }
    }
}

#[derive(Debug, Clone, PartialEq, Eq)]
pub struct BufferConditionDto {
    pub buffer: String,
    pub chunk_id: Option<String>,
    pub chunk_type: Option<String>,
}

impl BufferConditionDto {
    pub fn try_into_condition(self) -> (r: MemoryResult<BufferCondition>)
        ensures
            match parsed_buffer_name(self.buffer@) {
                None => r matches Err(MemoryError::Validation(m)) && m@
                    == "buffer_name must not be empty"@,
                Some(n) => r matches Ok(c) && crate::buffers::name_key(c.buffer)
                    == crate::buffers::name_key(n) && c.chunk_id == match self.chunk_id {
                    Some(s) => Some(ChunkId(s)),
                    None => None::<ChunkId>,
                } && c.chunk_type == match self.chunk_type {
                    Some(s) => Some(ChunkType(s)),
                    None => None::<ChunkType>,
                },
            },
    {
        let buffer = parse_buffer_name(self.buffer.as_str())?;
        let chunk_id = match self.chunk_id {
            Some(s) => Some(ChunkId(s)),
            None => None,
        };
        let chunk_type = match self.chunk_type {
            Some(s) => Some(ChunkType(s)),
            None => None,
        };
        Ok(BufferCondition { buffer, chunk_id, chunk_type })
    }
}

#[derive(Debug, Clone, Copy, PartialEq, Eq)]
pub enum ApiRetrievalStatus {
    Hit,
    Miss,
}

#[derive(Debug, Clone, Copy, PartialEq, Eq)]
pub enum ApiRetrievalMissReason {
    NoCandidates,
    Threshold,
}

#[derive(Debug, Clone, Copy, PartialEq, Eq)]
pub struct RetrievalPracticeInputDiagnostics {
    pub total_practice_event_count: usize,
    pub exact_practice_event_count: usize,
    pub compressed_practice_bin_count: usize,
    pub base_level_cache_stale: bool,
}

#[derive(Debug, Clone, PartialEq, Eq)]
pub struct HealthCheckDto {
    pub name: String,
    pub status: String,
    pub detail: String,
}

#[derive(Debug, Clone, PartialEq, Eq)]
pub struct HealthResponse {
    pub status: String,
    pub checks: Vec<HealthCheckDto>,
}

#[derive(Debug, Clone, PartialEq, Eq)]
pub struct DeleteResponse {
    pub deleted: bool,
    pub agent_id: String,
    pub chunk_id: String,
}

/// The health document for an overall status and its checks.
pub fn health_response(status: &str, checks: Vec<HealthCheck>) -> (r: HealthResponse)
    ensures
        r.status@ == status@,
        r.checks@.len() == checks@.len(),
        forall|i: int|
            0 <= i < checks@.len() ==> {
                &&& (#[trigger] r.checks@[i]).name@ == checks@[i].name@
                &&& r.checks@[i].status@ == health_label(checks@[i].status)
                &&& r.checks@[i].detail@ == checks@[i].detail@
            },
{
    let mut out: Vec<HealthCheckDto> = Vec::new();
    let mut i: usize = 0;
    while i < checks.len()
        invariant
            i <= checks@.len(),
            out@.len() == i,
            forall|k: int|
                0 <= k < i ==> {
                    &&& (#[trigger] out@[k]).name@ == checks@[k].name@
                    &&& out@[k].status@ == health_label(checks@[k].status)
                    &&& out@[k].detail@ == checks@[k].detail@
                },
        decreases checks@.len() - i,
    {
        let check = &checks[i];
        out.push(
            HealthCheckDto {
                name: String::from_str(check.name),
                status: String::from_str(health_status_label(check.status)),
                detail: String::from_str(check.detail),
            },
        );
        i = i + 1;
    }
    HealthResponse { status: String::from_str(status), checks: out }
}

/// The condition converts from its record: the buffer named by it, and its
/// chunk id and type.
pub open spec fn condition_from(d: BufferConditionDto, c: BufferCondition) -> bool {
    &&& parsed_buffer_name(d.buffer@) is Some
    &&& crate::buffers::name_key(c.buffer) == crate::buffers::name_key(parsed_buffer_name(d.buffer@)->0)
    &&& c.chunk_id == match d.chunk_id {
        Some(s) => Some(ChunkId(s)),
        None => None::<ChunkId>,
    }
    &&& c.chunk_type == match d.chunk_type {
        Some(s) => Some(ChunkType(s)),
        None => None::<ChunkType>,
    }
}

/// A production rule as the API receives it. `utility` is an `f64`,
/// carried as its bit pattern.
#[derive(Debug, Clone, PartialEq)]
pub struct ProductionRuleDto {
    pub rule_id: String,
    pub name: String,
    pub enabled: bool,
    pub utility: u64,
    pub version: u64,
    pub conditions: Vec<BufferConditionDto>,
    pub retrieved_chunk: Option<RetrievedChunkConditionDto>,
}

/// A condition on the retrieved chunk as the API receives it.
#[derive(Debug, Clone, PartialEq)]
pub struct RetrievedChunkConditionDto {
    pub chunk_id: Option<String>,
    pub chunk_type: Option<String>,
    pub slots: Vec<Slot>,
}

/// The condition on the retrieved chunk converts from its record: its
/// chunk id, type and slots.
pub open spec fn retrieved_condition_from(d: RetrievedChunkConditionDto, c: RetrievedChunkCondition) -> bool {
    &&& c.chunk_id == match d.chunk_id {
        Some(s) => Some(ChunkId(s)),
        None => None::<ChunkId>,
    }
    &&& c.chunk_type == match d.chunk_type {
        Some(s) => Some(ChunkType(s)),
        None => None::<ChunkType>,
    }
    &&& c.slots@ == d.slots@
}

impl RetrievedChunkConditionDto {
    pub fn into_condition(self) -> (r: RetrievedChunkCondition)
        ensures
            retrieved_condition_from(self, r),
    {
        RetrievedChunkCondition {
            chunk_id: match self.chunk_id {
                Some(s) => Some(ChunkId(s)),
                None => None,
            },
            chunk_type: match self.chunk_type {
                Some(s) => Some(ChunkType(s)),
                None => None,
            },
            slots: self.slots,
        }
    }
}

/// Why a rule record is refused, if it is: a blank id or name, a utility
/// that is not finite, or a condition that names no buffer.
pub open spec fn rule_dto_error(d: ProductionRuleDto) -> Option<Seq<char>> {
    if is_blank(d.rule_id@) {
        Some("rule_id must not be empty"@)
    } else if is_blank(d.name@) {
        Some("name must not be empty"@)
    } else if !is_finite_bits(d.utility) {
        Some("rule utility must be finite"@)
    } else if exists|k: int|
        0 <= k < d.conditions@.len() && parsed_buffer_name(#[trigger] d.conditions@[k].buffer@) is None {
        Some("buffer_name must not be empty"@)
    } else {
        None
    }
}

impl ProductionRuleDto {
    /// The rule the record describes, or the validation error that refuses it.
    pub fn into_rule(self) -> (r: MemoryResult<ProductionRule>)
        ensures
            match rule_dto_error(self) {
                Some(m) => r matches Err(MemoryError::Validation(e)) && e@ == m,
                None => r matches Ok(rule) && {
                    &&& rule.rule_id == RuleId(self.rule_id)
                    &&& rule.name == self.name
                    &&& rule.enabled == self.enabled
                    &&& rule.utility == self.utility
                    &&& rule.version == self.version
                    &&& rule.conditions@.len() == self.conditions@.len()
                    &&& forall|k: int| 0 <= k < self.conditions@.len() ==> condition_from(
                        #[trigger] self.conditions@[k],
                        rule.conditions@[k],
                    )
                    &&& match self.retrieved_chunk {
                        None => rule.retrieved_chunk is None,
                        Some(d) => rule.retrieved_chunk matches Some(c) && retrieved_condition_from(d, c),
                    }
                },
            },
    {
        if blank(self.rule_id.as_str()) {
            return Err(MemoryError::Validation(String::from_str("rule_id must not be empty")));
        }
        if blank(self.name.as_str()) {
            return Err(MemoryError::Validation(String::from_str("name must not be empty")));
        }
        if (self.utility / 0x10_0000_0000_0000) % 0x800 == 0x7ff {
            return Err(MemoryError::Validation(String::from_str("rule utility must be finite")));
        }
        let ghost dtos = self.conditions@;
        let ghost retrieved_dto = self.retrieved_chunk;
        let retrieved_chunk = match self.retrieved_chunk {
            Some(d) => Some(d.into_condition()),
            None => None,
        };
        let mut conditions: Vec<BufferCondition> = Vec::new();
        let mut rest = self.conditions;
        while rest.len() > 0
            invariant
                !is_blank(self.rule_id@),
                !is_blank(self.name@),
                is_finite_bits(self.utility),
                dtos == self.conditions@,
                dtos.len() == conditions@.len() + rest@.len(),
                rest@ == dtos.subrange(conditions@.len() as int, dtos.len() as int),
                forall|k: int| 0 <= k < conditions@.len() ==> condition_from(
                    #[trigger] dtos[k],
                    conditions@[k],
                ),
            decreases rest@.len(),
        {
            let d = rest.remove(0);
            let ghost k = conditions@.len();
            assert(d == dtos[k as int]);
            match d.try_into_condition() {
                Ok(c) => {
                    conditions.push(c);
                    assert(rest@ =~= dtos.subrange(conditions@.len() as int, dtos.len() as int));
                },
                Err(e) => {
                    assert(parsed_buffer_name(dtos[k as int].buffer@) is None);
                    return Err(e);
                },
            }
        }
        Ok(ProductionRule {
            rule_id: RuleId(self.rule_id),
            name: self.name,
            enabled: self.enabled,
            utility: self.utility,
            version: self.version,
            conditions,
            retrieved_chunk,
        })
    }
}

} // verus!
