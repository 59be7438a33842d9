//! Runtime configuration, health checks and the catalogue of service metrics.
use vstd::prelude::*;

use crate::text::{blank, is_blank, is_space};

verus! {

#[derive(Debug, Clone, Copy, PartialEq, Eq)]
pub enum RuntimeProfile {
    Development,
    Staging,
    Production,
}

/// Service runtime configuration.
///
/// `retrieval_threshold` is an `f64`, carried as its IEEE-754 bit pattern.
#[derive(Debug, Clone, PartialEq)]
pub struct RuntimeConfig {
    pub profile: RuntimeProfile,
    pub bind_addr: String,
    pub memgraph_uri: String,
    pub memgraph_user: String,
    pub candidate_limit: usize,
    pub retrieval_threshold: u64,
    pub deterministic_seed: Option<u64>,
}

/// An `f64` with bit pattern `b` is finite: its exponent is not all ones.
pub open spec fn is_finite_bits(b: u64) -> bool {
    (b / 0x10_0000_0000_0000) % 0x800 != 0x7ff
}

/// The first rule that a configuration breaks, if any.
pub open spec fn config_problem(c: RuntimeConfig) -> Option<Seq<char>> {
    if c.candidate_limit == 0 {
        Some("candidate_limit must be greater than zero"@)
    } else if c.candidate_limit > 200 {
        Some("candidate_limit must be at most 200"@)
    } else if !is_finite_bits(c.retrieval_threshold) {
        Some("retrieval_threshold must be finite"@)
    } else if is_blank(c.bind_addr@) {
        Some("bind_addr must not be empty"@)
    } else if is_blank(c.memgraph_uri@) {
        Some("memgraph_uri must not be empty"@)
    } else {
        None
    }
}

impl RuntimeConfig {
    /// The development defaults: local bind address and Memgraph, 200
    /// candidates, threshold 0.25 and seed 42.
    pub fn default_config() -> (r: Self)
        ensures
            r.profile == RuntimeProfile::Development,
            r.bind_addr@ == "127.0.0.1:8080"@,
            r.memgraph_uri@ == "bolt://127.0.0.1:7687"@,
            r.memgraph_user@ == "memgraph"@,
            r.candidate_limit == 200,
            r.retrieval_threshold == 0x3FD0_0000_0000_0000u64,
            r.deterministic_seed == Some(42u64),
            config_problem(r) is None,
    {
        proof {
            reveal_strlit("127.0.0.1:8080");
            reveal_strlit("bolt://127.0.0.1:7687");
            assert(!is_blank("127.0.0.1:8080"@)) by {
                assert(!is_space("127.0.0.1:8080"@[0]));
            }
            assert(!is_blank("bolt://127.0.0.1:7687"@)) by {
                assert(!is_space("bolt://127.0.0.1:7687"@[0]));
            }
            assert(is_finite_bits(0x3FD0_0000_0000_0000u64));
        }
        RuntimeConfig {
            profile: RuntimeProfile::Development,
            bind_addr: String::from_str("127.0.0.1:8080"),
            memgraph_uri: String::from_str("bolt://127.0.0.1:7687"),
            memgraph_user: String::from_str("memgraph"),
            candidate_limit: 200,
            retrieval_threshold: 0x3FD0_0000_0000_0000,
            deterministic_seed: Some(42),
        }
    }

    /// Checks the configuration, reporting the first rule it breaks.
    pub fn validate(&self) -> (r: Result<(), String>)
        ensures
            match config_problem(*self) {
                None => r is Ok,
                Some(m) => r matches Err(e) && e@ == m,
            },
    {
        if self.candidate_limit == 0 {
            return Err(String::from_str("candidate_limit must be greater than zero"));
        }
        if self.candidate_limit > 200 {
            return Err(String::from_str("candidate_limit must be at most 200"));
        }
        if (self.retrieval_threshold / 0x10_0000_0000_0000) % 0x800 == 0x7ff {
            return Err(String::from_str("retrieval_threshold must be finite"));
        }
        if blank(self.bind_addr.as_str()) {
            return Err(String::from_str("bind_addr must not be empty"));
        }
        if blank(self.memgraph_uri.as_str()) {
            return Err(String::from_str("memgraph_uri must not be empty"));
        }
        Ok(())
    }
}

impl Default for RuntimeConfig {
    /// The development defaults of `default_config`, which validate.
    fn default() -> (r: Self)
        ensures
            r.profile == RuntimeProfile::Development,
            r.bind_addr@ == "127.0.0.1:8080"@,
            r.memgraph_uri@ == "bolt://127.0.0.1:7687"@,
            r.memgraph_user@ == "memgraph"@,
            r.candidate_limit == 200,
            r.retrieval_threshold == 0x3FD0_0000_0000_0000u64,
            r.deterministic_seed == Some(42u64),
            config_problem(r) is None,
    {
        RuntimeConfig::default_config()
    }
}

#[derive(Debug, Clone, Copy, PartialEq, Eq)]
pub enum HealthStatus {
    Pass,
    Warn,
    Fail,
}

#[derive(Debug, Clone, PartialEq, Eq)]
pub struct HealthCheck {
    pub name: &'static str,
    pub status: HealthStatus,
    pub detail: &'static str,
}

impl HealthCheck {
    pub fn liveness() -> (r: Self)
        ensures
            r.name@ == "liveness"@,
            r.status == HealthStatus::Pass,
            r.detail@ == "process is running"@,
    {
        HealthCheck { name: "liveness", status: HealthStatus::Pass, detail: "process is running" }
    }

    pub fn memgraph_unchecked() -> (r: Self)
        ensures
            r.name@ == "memgraph"@,
            r.status == HealthStatus::Warn,
            r.detail@ == "driver integration is introduced in G04"@,
    {
        HealthCheck {
            name: "memgraph",
            status: HealthStatus::Warn,
            detail: "driver integration is introduced in G04",
        }
    }
}

/// The label of a health status.
pub open spec fn health_label(s: HealthStatus) -> Seq<char> {
    match s {
        HealthStatus::Pass => "pass"@,
        HealthStatus::Warn => "warn"@,
        HealthStatus::Fail => "fail"@,
    }
}

pub fn health_status_label(status: HealthStatus) -> (r: &'static str)
    ensures
        r@ == health_label(status),
{
    match status {
        HealthStatus::Pass => "pass",
        HealthStatus::Warn => "warn",
        HealthStatus::Fail => "fail",
    }
}

#[derive(Debug, Clone, Copy, PartialEq, Eq)]
pub struct MetricSpec {
    pub name: &'static str,
    pub help: &'static str,
}

/// The names of the service metrics, in catalogue order.
pub open spec fn metric_names() -> Seq<Seq<char>> {
    seq![
        "actr_memory_retrieve_latency_ms"@,
        "actr_memory_candidates_examined"@,
        "actr_memory_activation_compute_ms"@,
        "actr_memory_retrieval_hits_total"@,
        "actr_memory_retrieval_misses_total"@,
        "actr_memory_session_lock_contention_total"@,
        "actr_memory_write_conflicts_total"@,
    ]
}

/// The catalogue of metrics that the service reports.
pub fn service_metrics() -> (r: Vec<MetricSpec>)
    ensures
        r@.len() == metric_names().len(),
        forall|i: int| 0 <= i < r@.len() ==> (#[trigger] r@[i]).name@ == metric_names()[i],
        r@[0].help@ == "User-visible retrieval latency in milliseconds."@,
        r@[1].help@ == "Number of Memgraph candidates scored in Rust."@,
        r@[2].help@ == "Time spent computing activation scores."@,
        r@[3].help@ == "Successful retrieval count."@,
        r@[4].help@ == "Threshold miss or empty-candidate retrieval count."@,
        r@[5].help@ == "Count of requests that waited on per-agent session serialization."@,
        r@[6].help@ == "Memgraph transaction conflict count."@,
{
    let r = vec![
        MetricSpec {
            name: "actr_memory_retrieve_latency_ms",
            help: "User-visible retrieval latency in milliseconds.",
        },
        MetricSpec {
            name: "actr_memory_candidates_examined",
            help: "Number of Memgraph candidates scored in Rust.",
        },
        MetricSpec {
            name: "actr_memory_activation_compute_ms",
            help: "Time spent computing activation scores.",
        },
        MetricSpec { name: "actr_memory_retrieval_hits_total", help: "Successful retrieval count." },
        MetricSpec {
            name: "actr_memory_retrieval_misses_total",
            help: "Threshold miss or empty-candidate retrieval count.",
        },
        MetricSpec {
            name: "actr_memory_session_lock_contention_total",
            help: "Count of requests that waited on per-agent session serialization.",
        },
        MetricSpec {
            name: "actr_memory_write_conflicts_total",
            help: "Memgraph transaction conflict count.",
        },
    ];
    assert forall|i: int| 0 <= i < r@.len() implies (#[trigger] r@[i]).name@ == metric_names()[i] by {
        if i == 0 {
        } else if i == 1 {
        } else if i == 2 {
        } else if i == 3 {
        } else if i == 4 {
        } else if i == 5 {
        } else {
        }
    }
    r
}

} // verus!
