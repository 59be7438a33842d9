//! What a retrieval decides once its candidates are scored and ranked, and
//! the response it answers with. Scores are `f64` values carried as their
//! bit patterns; the scoring itself is not done here.
use vstd::prelude::*;

use crate::api::{ApiProblem, ApiRetrievalMissReason, ApiRetrievalStatus, ProblemKind, RetrievalPracticeInputDiagnostics};
use crate::error::MemoryError;
use crate::ids::{AgentId, ChunkId, ChunkType};
use crate::order::{chars_lt, lemma_chars_lt_irreflexive, lemma_chars_lt_total, lemma_chars_lt_transitive, str_lt};

verus! {

/// Whether a retrieval found a chunk.
#[derive(Debug, Clone, Copy, PartialEq, Eq)]
pub enum RetrievalStatus {
    Hit,
    Miss,
}

/// Why a retrieval found no chunk.
#[derive(Debug, Clone, Copy, PartialEq, Eq)]
pub enum RetrievalMissReason {
    NoCandidates,
    Threshold,
}

/// The score of a ranked candidate (each `f64` as its bit pattern).
#[derive(Debug, Clone, Copy, PartialEq, Eq)]
pub struct CandidateScore {
    pub activation: u64,
    pub retrieval_probability: u64,
    pub predicted_latency_ms: u64,
    pub passes_threshold: bool,
    pub base_level: u64,
    pub spreading: u64,
    pub partial_match: u64,
    pub noise: u64,
}

/// A scored candidate, in rank order.
#[derive(Debug, Clone, PartialEq, Eq)]
pub struct RankedCandidate {
    pub chunk_id: ChunkId,
    pub chunk_type: ChunkType,
    pub score: CandidateScore,
    pub practice_input: RetrievalPracticeInputDiagnostics,
}

/// What a retrieval reports of its own work (each `f64` as its bit
/// pattern).
#[derive(Debug, Clone, Copy, PartialEq, Eq)]
pub struct RetrievalDiagnostics {
    pub candidates_examined: usize,
    pub candidate_limit: usize,
    pub threshold: u64,
    pub deterministic_seed: Option<u64>,
    pub context_chunk_count: usize,
    pub activation_compute_ms: u64,
}

/// The outcome of a retrieval for an agent.
#[derive(Debug, Clone, PartialEq, Eq)]
pub struct RetrievalOutcome {
    pub agent_id: AgentId,
    pub status: RetrievalStatus,
    pub miss: Option<RetrievalMissReason>,
    pub ranked_candidates: Vec<RankedCandidate>,
    pub diagnostics: RetrievalDiagnostics,
}

/// The components of a result's score (each `f64` as its bit pattern).
#[derive(Debug, Clone, Copy, PartialEq, Eq)]
pub struct ScoreComponents {
    pub base_level: u64,
    pub spreading: u64,
    pub partial_match: u64,
    pub noise: u64,
}

/// One result of a retrieval, as the API answers it.
#[derive(Debug, Clone, PartialEq, Eq)]
pub struct RetrievalResult {
    pub chunk_id: String,
    pub chunk_type: String,
    pub activation: u64,
    pub retrieval_probability: u64,
    pub predicted_latency_ms: u64,
    pub passes_threshold: bool,
    pub components: ScoreComponents,
    pub practice_input: RetrievalPracticeInputDiagnostics,
}

/// The answer to a retrieval request.
#[derive(Debug, Clone, PartialEq, Eq)]
pub struct RetrieveResponse {
    pub agent_id: String,
    pub status: ApiRetrievalStatus,
    pub miss_reason: Option<ApiRetrievalMissReason>,
    pub results: Vec<RetrievalResult>,
    pub diagnostics: Option<RetrievalDiagnostics>,
}

/// The status as the API writes it.
pub open spec fn api_status(s: RetrievalStatus) -> ApiRetrievalStatus {
    match s {
        RetrievalStatus::Hit => ApiRetrievalStatus::Hit,
        RetrievalStatus::Miss => ApiRetrievalStatus::Miss,
    }
}

/// The miss reason as the API writes it.
pub open spec fn api_miss_reason(m: RetrievalMissReason) -> ApiRetrievalMissReason {
    match m {
        RetrievalMissReason::NoCandidates => ApiRetrievalMissReason::NoCandidates,
        RetrievalMissReason::Threshold => ApiRetrievalMissReason::Threshold,
    }
}

/// The result that answers for a ranked candidate: its chunk, its score
/// and its practice input, field for field.
pub open spec fn result_of(c: RankedCandidate, r: RetrievalResult) -> bool {
    &&& r.chunk_id@ == c.chunk_id@
    &&& r.chunk_type@ == c.chunk_type@
    &&& r.activation == c.score.activation
    &&& r.retrieval_probability == c.score.retrieval_probability
    &&& r.predicted_latency_ms == c.score.predicted_latency_ms
    &&& r.passes_threshold == c.score.passes_threshold
    &&& r.components == (ScoreComponents {
        base_level: c.score.base_level,
        spreading: c.score.spreading,
        partial_match: c.score.partial_match,
        noise: c.score.noise,
    })
    &&& r.practice_input == c.practice_input
}

pub open spec fn min_len(a: nat, b: nat) -> nat {
    if a <= b { a } else { b }
}

fn result_for(c: &RankedCandidate) -> (r: RetrievalResult)
    ensures
        result_of(*c, r),
{
    RetrievalResult {
        chunk_id: c.chunk_id.0.clone(),
        chunk_type: c.chunk_type.0.clone(),
        activation: c.score.activation,
        retrieval_probability: c.score.retrieval_probability,
        predicted_latency_ms: c.score.predicted_latency_ms,
        passes_threshold: c.score.passes_threshold,
        components: ScoreComponents {
            base_level: c.score.base_level,
            spreading: c.score.spreading,
            partial_match: c.score.partial_match,
            noise: c.score.noise,
        },
        practice_input: c.practice_input,
    }
}

impl RetrieveResponse {
    /// The answer to a retrieval: its agent, status and miss reason, the
    /// first `result_limit` ranked candidates as results, and its
    /// diagnostics when they were asked for.
    pub fn from_outcome(outcome: RetrievalOutcome, result_limit: usize, include_diagnostics: bool) -> (r:
        RetrieveResponse)
        ensures
            r.agent_id@ == outcome.agent_id@,
            r.status == api_status(outcome.status),
            r.miss_reason == match outcome.miss {
                Some(m) => Some(api_miss_reason(m)),
                None => None::<ApiRetrievalMissReason>,
            },
            r.results@.len() == min_len(outcome.ranked_candidates@.len(), result_limit as nat),
            forall|i: int|
                0 <= i < r.results@.len() ==> result_of(
                    outcome.ranked_candidates@[i],
                    #[trigger] r.results@[i],
                ),
            r.diagnostics is Some <==> include_diagnostics,
            r.diagnostics matches Some(d) ==> d == outcome.diagnostics,
    {
        let n = if outcome.ranked_candidates.len() < result_limit {
            outcome.ranked_candidates.len()
        } else {
            result_limit
        };
        let mut results: Vec<RetrievalResult> = Vec::new();
        let mut i: usize = 0;
        while i < n
            invariant
                i <= n,
                n <= outcome.ranked_candidates@.len(),
                results@.len() == i,
                forall|k: int| 0 <= k < i ==> result_of(outcome.ranked_candidates@[k], #[trigger] results@[k]),
            decreases n - i,
        {
            results.push(result_for(&outcome.ranked_candidates[i]));
            i = i + 1;
        }
        let miss_reason = match outcome.miss {
            Some(RetrievalMissReason::NoCandidates) => Some(ApiRetrievalMissReason::NoCandidates),
            Some(RetrievalMissReason::Threshold) => Some(ApiRetrievalMissReason::Threshold),
            None => None,
        };
        let status = match outcome.status {
            RetrievalStatus::Hit => ApiRetrievalStatus::Hit,
            RetrievalStatus::Miss => ApiRetrievalStatus::Miss,
        };
        let diagnostics = if include_diagnostics {
            Some(outcome.diagnostics)
        } else {
            None
        };
        RetrieveResponse { agent_id: outcome.agent_id.0, status, miss_reason, results, diagnostics }
    }
}

/// What a retrieval decides from its ranked candidates.
#[derive(Debug, Clone, PartialEq, Eq)]
pub struct RetrievalDecision {
    /// The best candidate passes the threshold.
    pub hit: bool,
    /// Why there is no hit, when there is none.
    pub miss_reason: Option<RetrievalMissReason>,
    /// The chunk that the retrieval buffer takes, if any.
    pub commit: Option<ChunkId>,
    /// How many results the answer shows.
    pub shown: usize,
}

/// The message of a refused result limit of zero.
pub open spec fn zero_limit_text() -> Seq<char> {
    "validation error: result_limit must be greater than zero"@
}

/// Refuses a result limit of zero.
pub fn check_result_limit(result_limit: usize) -> (r: Result<(), ApiProblem>)
    ensures
        result_limit > 0 ==> r is Ok,
        result_limit == 0 ==> (r matches Err(p) && p.kind == ProblemKind::BadRequest && p.status == 400
            && p.detail@ == zero_limit_text()),
{
    if result_limit == 0 {
        let e = MemoryError::Validation(String::from_str("result_limit must be greater than zero"));
        proof {
            reveal_strlit("result_limit must be greater than zero");
            reveal_strlit("validation error: result_limit must be greater than zero");
            reveal_strlit("validation error: ");
        }
        return Err(ApiProblem::from_error(e));
    }
    Ok(())
}

impl RetrievalDecision {
    /// The status that the decision reports, and whose counter it bumps.
    pub fn status(&self) -> (r: RetrievalStatus)
        ensures
            r == (if self.hit { RetrievalStatus::Hit } else { RetrievalStatus::Miss }),
    {
        if self.hit {
            RetrievalStatus::Hit
        } else {
            RetrievalStatus::Miss
        }
    }
}

/// The decision of a retrieval over its candidates in rank order, each
/// with whether it passes the threshold: a hit when the best passes; else
/// a miss for want of candidates or of one above the threshold. A hit is
/// committed to the retrieval buffer when asked; the answer shows at most
/// `result_limit` results, and a limit of zero is refused.
pub fn retrieval_decision(result_limit: usize, commit_on_hit: bool, ranked: &Vec<(ChunkId, bool)>) -> (r: Result<
    RetrievalDecision,
    ApiProblem,
>)
    ensures
        result_limit == 0 ==> (r matches Err(p) && p.kind == ProblemKind::BadRequest && p.status == 400
            && p.detail@ == zero_limit_text()),
        result_limit > 0 ==> (r matches Ok(d) && {
            &&& d.hit == (ranked@.len() > 0 && ranked@[0].1)
            &&& d.miss_reason == if d.hit {
                None
            } else if ranked@.len() == 0 {
                Some(RetrievalMissReason::NoCandidates)
            } else {
                Some(RetrievalMissReason::Threshold)
            }
            &&& d.commit == if d.hit && commit_on_hit {
                Some(ranked@[0].0)
            } else {
                None::<ChunkId>
            }
            &&& d.shown as nat == min_len(ranked@.len(), result_limit as nat)
        }),
{
    check_result_limit(result_limit)?;
    let hit = ranked.len() > 0 && ranked[0].1;
    let miss_reason = if hit {
        None
    } else if ranked.len() == 0 {
        Some(RetrievalMissReason::NoCandidates)
    } else {
        Some(RetrievalMissReason::Threshold)
    };
    let commit = if hit && commit_on_hit {
        Some(ranked[0].0.copy())
    } else {
        None
    };
    let shown = if ranked.len() < result_limit {
        ranked.len()
    } else {
        result_limit
    };
    Ok(RetrievalDecision { hit, miss_reason, commit, shown })
}


/// The order that `f64::total_cmp` gives bit patterns, as integers: the
/// negative values below the positive ones, and within each sign by
/// magnitude.
pub open spec fn total_key(b: u64) -> int {
    if b >= 0x8000_0000_0000_0000 {
        -1 - (b - 0x8000_0000_0000_0000)
    } else {
        b as int
    }
}

/// Candidate `a` ranks strictly before `b`: a higher activation, or the
/// same activation and a smaller chunk id.
pub open spec fn scored_before(a: RankedCandidate, b: RankedCandidate) -> bool {
    ||| total_key(a.score.activation) > total_key(b.score.activation)
    ||| (total_key(a.score.activation) == total_key(b.score.activation) && chars_lt(a.chunk_id@, b.chunk_id@))
}

/// The order of a ranking: by rank, and candidates that tie keep their
/// order (the sort is stable).
pub open spec fn placed_before(v: Seq<RankedCandidate>, i: int, j: int) -> bool {
    scored_before(v[i], v[j]) || (!scored_before(v[j], v[i]) && i < j)
}

proof fn lemma_scored_irreflexive(a: RankedCandidate)
    ensures
        !scored_before(a, a),
{
    lemma_chars_lt_irreflexive(a.chunk_id@);
}

proof fn lemma_placed_transitive(v: Seq<RankedCandidate>, i: int, j: int, k: int)
    requires
        0 <= i < v.len(),
        0 <= j < v.len(),
        0 <= k < v.len(),
        placed_before(v, i, j),
        placed_before(v, j, k),
    ensures
        placed_before(v, i, k),
{
    let (a, b, c) = (v[i], v[j], v[k]);
    lemma_chars_lt_total(a.chunk_id@, b.chunk_id@);
    lemma_chars_lt_total(b.chunk_id@, c.chunk_id@);
    lemma_chars_lt_total(a.chunk_id@, c.chunk_id@);
    if chars_lt(a.chunk_id@, b.chunk_id@) && chars_lt(b.chunk_id@, c.chunk_id@) {
        lemma_chars_lt_transitive(a.chunk_id@, b.chunk_id@, c.chunk_id@);
    }
    if chars_lt(c.chunk_id@, a.chunk_id@) && chars_lt(a.chunk_id@, b.chunk_id@) {
        lemma_chars_lt_transitive(c.chunk_id@, a.chunk_id@, b.chunk_id@);
    }
    if chars_lt(b.chunk_id@, c.chunk_id@) && chars_lt(c.chunk_id@, a.chunk_id@) {
        lemma_chars_lt_transitive(b.chunk_id@, c.chunk_id@, a.chunk_id@);
    }
    lemma_chars_lt_irreflexive(a.chunk_id@);
    lemma_chars_lt_irreflexive(b.chunk_id@);
    lemma_chars_lt_irreflexive(c.chunk_id@);
    if chars_lt(a.chunk_id@, b.chunk_id@) && chars_lt(b.chunk_id@, a.chunk_id@) {
        lemma_chars_lt_transitive(a.chunk_id@, b.chunk_id@, a.chunk_id@);
    }
    if chars_lt(b.chunk_id@, c.chunk_id@) && chars_lt(c.chunk_id@, b.chunk_id@) {
        lemma_chars_lt_transitive(b.chunk_id@, c.chunk_id@, b.chunk_id@);
    }
    if chars_lt(a.chunk_id@, c.chunk_id@) && chars_lt(c.chunk_id@, a.chunk_id@) {
        lemma_chars_lt_transitive(a.chunk_id@, c.chunk_id@, a.chunk_id@);
    }
}

fn total_key_of(b: u64) -> (r: i128)
    ensures
        r as int == total_key(b),
{
    if b >= 0x8000_0000_0000_0000 {
        -1 - ((b - 0x8000_0000_0000_0000) as i128)
    } else {
        b as i128
    }
}

fn scored_before_exec(a: &RankedCandidate, b: &RankedCandidate) -> (r: bool)
    ensures
        r == scored_before(*a, *b),
{
    let ka = total_key_of(a.score.activation);
    let kb = total_key_of(b.score.activation);
    if ka != kb {
        return ka > kb;
    }
    str_lt(a.chunk_id.0.as_str(), b.chunk_id.0.as_str())
}

impl RankedCandidate {
    pub fn copy(&self) -> (r: Self)
        ensures
            r == *self,
    {
        RankedCandidate {
            chunk_id: self.chunk_id.copy(),
            chunk_type: self.chunk_type.copy(),
            score: self.score,
            practice_input: self.practice_input,
        }
    }
}

/// `r` lists the candidates of `v` in the order `p` of their indices: each
/// once, in rank order.
pub open spec fn ranked_as(v: Seq<RankedCandidate>, r: Seq<RankedCandidate>, p: Seq<int>) -> bool {
    &&& p.len() == v.len()
    &&& r.len() == v.len()
    &&& forall|k: int| 0 <= k < p.len() ==> 0 <= #[trigger] p[k] < v.len()
    &&& forall|a: int, b: int| 0 <= a < b < p.len() ==> #[trigger] p[a] != #[trigger] p[b]
    &&& forall|a: int, b: int| 0 <= a < b < p.len() ==> placed_before(v, #[trigger] p[a], #[trigger] p[b])
    &&& forall|k: int| 0 <= k < p.len() ==> r[k] == v[#[trigger] p[k]]
}

/// The candidates in rank order: by activation, highest first in the total
/// order of `f64` values, then by chunk id; candidates that tie keep their
/// order. Each candidate appears once.
pub fn rank_scored_chunks(chunks: Vec<RankedCandidate>) -> (r: Vec<RankedCandidate>)
    ensures
        exists|p: Seq<int>| #[trigger] ranked_as(chunks@, r@, p),
{
    let ghost v = chunks@;
    let mut order: Vec<usize> = Vec::new();
    let mut i: usize = 0;
    while i < chunks.len()
        invariant
            v == chunks@,
            i <= v.len(),
            order@.len() == i,
            forall|k: int| 0 <= k < order@.len() ==> (#[trigger] order@[k]) < i,
            forall|a: int, b: int|
                0 <= a < b < order@.len() ==> placed_before(v, #[trigger] order@[a] as int, #[trigger] order@[b] as int),
        decreases v.len() - i,
    {
        let mut p: usize = 0;
        while p < order.len() && !scored_before_exec(&chunks[i], &chunks[order[p]])
            invariant
                v == chunks@,
                i < v.len(),
                p <= order@.len(),
                forall|k: int| 0 <= k < order@.len() ==> (#[trigger] order@[k]) < i,
                forall|k: int| 0 <= k < p ==> !scored_before(v[i as int], v[#[trigger] order@[k] as int]),
            decreases order@.len() - p,
        {
            p = p + 1;
        }
        let ghost old_order = order@;
        proof {
            assert forall|k: int| 0 <= k < p implies placed_before(v, #[trigger] old_order[k] as int, i as int) by {
                let j = old_order[k] as int;
                if !scored_before(v[j], v[i as int]) {
                    assert(j < i);
                }
            }
            if p < old_order.len() {
                assert(scored_before(v[i as int], v[old_order[p as int] as int]));
                assert forall|k: int| p <= k < old_order.len() implies placed_before(
                    v,
                    i as int,
                    #[trigger] old_order[k] as int,
                ) by {
                    if k > p {
                        lemma_placed_transitive(v, i as int, old_order[p as int] as int, old_order[k] as int);
                    }
                }
            }
        }
        order.insert(p, i);
        proof {
            let o = order@;
            assert forall|a: int, b: int| 0 <= a < b < o.len() implies placed_before(
                v,
                #[trigger] o[a] as int,
                #[trigger] o[b] as int,
            ) by {
                if a < p && b < p {
                    assert(o[a] == old_order[a] && o[b] == old_order[b]);
                } else if a < p && b == p {
                    assert(o[a] == old_order[a]);
                } else if a < p {
                    assert(o[a] == old_order[a] && o[b] == old_order[b - 1]);
                } else if a == p {
                    assert(o[b] == old_order[b - 1]);
                } else {
                    assert(o[a] == old_order[a - 1] && o[b] == old_order[b - 1]);
                }
            }
            assert forall|k: int| 0 <= k < o.len() implies (#[trigger] o[k]) < i + 1 by {
                if k < p {
                    assert(o[k] == old_order[k]);
                } else if k > p {
                    assert(o[k] == old_order[k - 1]);
                }
            }
        }
        i = i + 1;
    }
    let mut r: Vec<RankedCandidate> = Vec::new();
    let mut k: usize = 0;
    while k < order.len()
        invariant
            v == chunks@,
            order@.len() == v.len(),
            k <= order@.len(),
            forall|m: int| 0 <= m < order@.len() ==> (#[trigger] order@[m]) < v.len(),
            r@.len() == k,
            forall|m: int| 0 <= m < k ==> r@[m] == v[#[trigger] order@[m] as int],
        decreases order@.len() - k,
    {
        r.push(chunks[order[k]].copy());
        k = k + 1;
    }
    let ghost p = order@.map_values(|x: usize| x as int);
    proof {
        assert forall|a: int, b: int| 0 <= a < b < p.len() implies #[trigger] p[a] != #[trigger] p[b] by {
            assert(placed_before(v, p[a], p[b]));
            lemma_scored_irreflexive(v[p[a]]);
        }
        assert forall|k: int| 0 <= k < p.len() implies r@[k] == chunks@[#[trigger] p[k]] by {
            assert(r@[k] == v[order@[k] as int]);
        }
        assert(ranked_as(chunks@, r@, p));
    }
    r
}

} // verus!
