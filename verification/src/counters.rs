//! The service's running counters: retrieval hits and misses, lock
//! contention and write conflicts, and the figures of the last retrieval.
use vstd::prelude::*;

use crate::retrieval::RetrievalStatus;

verus! {

/// What the counters hold.
pub struct CounterValues {
    pub retrieval_hits: u64,
    pub retrieval_misses: u64,
    pub session_lock_contention: u64,
    pub write_conflicts: u64,
    pub last_retrieve_latency_us: u64,
    pub last_candidates_examined: u64,
    pub last_activation_compute_us: u64,
}

/// `n + 1`, wrapping to 0 past `u64::MAX` as an atomic `fetch_add` does.
pub open spec fn bumped(n: u64) -> u64 {
    if n == u64::MAX { 0 } else { (n + 1) as u64 }
}

/// Counters of the service. The totals count up by one per event, wrapping
/// past `u64::MAX`; the last-retrieval figures are replaced by each
/// observation. Durations are kept in whole microseconds.
#[derive(Debug)]
pub struct ApiCounters {
    retrieval_hits: u64,
    retrieval_misses: u64,
    session_lock_contention: u64,
    write_conflicts: u64,
    last_retrieve_latency_us: u64,
    last_candidates_examined: u64,
    last_activation_compute_us: u64,
}

impl View for ApiCounters {
    type V = CounterValues;

    closed spec fn view(&self) -> CounterValues {
        CounterValues {
            retrieval_hits: self.retrieval_hits,
            retrieval_misses: self.retrieval_misses,
            session_lock_contention: self.session_lock_contention,
            write_conflicts: self.write_conflicts,
            last_retrieve_latency_us: self.last_retrieve_latency_us,
            last_candidates_examined: self.last_candidates_examined,
            last_activation_compute_us: self.last_activation_compute_us,
        }
    }
}

/// All counters at zero.
pub open spec fn zero_counters() -> CounterValues {
    CounterValues {
        retrieval_hits: 0,
        retrieval_misses: 0,
        session_lock_contention: 0,
        write_conflicts: 0,
        last_retrieve_latency_us: 0,
        last_candidates_examined: 0,
        last_activation_compute_us: 0,
    }
}

impl ApiCounters {
    pub fn new() -> (r: Self)
        ensures
            r@ == zero_counters(),
    {
        ApiCounters {
            retrieval_hits: 0,
            retrieval_misses: 0,
            session_lock_contention: 0,
            write_conflicts: 0,
            last_retrieve_latency_us: 0,
            last_candidates_examined: 0,
            last_activation_compute_us: 0,
        }
    }

    pub fn record_retrieval_hit(&mut self)
        ensures
            final(self)@ == (CounterValues { retrieval_hits: bumped(old(self)@.retrieval_hits), ..old(self)@ }),
    {
        self.retrieval_hits = self.retrieval_hits.wrapping_add(1);
    }

    pub fn record_retrieval_miss(&mut self)
        ensures
            final(self)@ == (CounterValues { retrieval_misses: bumped(old(self)@.retrieval_misses), ..old(self)@ }),
    {
        self.retrieval_misses = self.retrieval_misses.wrapping_add(1);
    }

    /// Counts a retrieval by its status: a hit bumps the hits, a miss the
    /// misses.
    pub fn record_retrieval_status(&mut self, status: RetrievalStatus)
        ensures
            final(self)@ == match status {
                RetrievalStatus::Hit => CounterValues { retrieval_hits: bumped(old(self)@.retrieval_hits), ..old(self)@ },
                RetrievalStatus::Miss => CounterValues {
                    retrieval_misses: bumped(old(self)@.retrieval_misses),
                    ..old(self)@
                },
            },
    {
        match status {
            RetrievalStatus::Hit => self.record_retrieval_hit(),
            RetrievalStatus::Miss => self.record_retrieval_miss(),
        }
    }

    /// Records the figures of one retrieval: its latency and the time spent
    /// computing activations, both in microseconds, and how many candidates
    /// it examined.
    pub fn record_retrieval_observation(
        &mut self,
        latency_us: u64,
        candidates_examined: usize,
        activation_compute_us: u64,
    )
        ensures
            final(self)@ == (CounterValues {
                last_retrieve_latency_us: latency_us,
                last_candidates_examined: candidates_examined as u64,
                last_activation_compute_us: activation_compute_us,
                ..old(self)@
            }),
    {
        self.last_retrieve_latency_us = latency_us;
        self.last_candidates_examined = candidates_examined as u64;
        self.last_activation_compute_us = activation_compute_us;
    }

    pub fn record_session_lock_contention(&mut self)
        ensures
            final(self)@ == (CounterValues {
                session_lock_contention: bumped(old(self)@.session_lock_contention),
                ..old(self)@
            }),
    {
        self.session_lock_contention = self.session_lock_contention.wrapping_add(1);
    }

    pub fn record_write_conflict(&mut self)
        ensures
            final(self)@ == (CounterValues { write_conflicts: bumped(old(self)@.write_conflicts), ..old(self)@ }),
    {
        self.write_conflicts = self.write_conflicts.wrapping_add(1);
    }

    pub fn retrieval_hits(&self) -> (r: u64)
        ensures
            r == self@.retrieval_hits,
    {
        self.retrieval_hits
    }

    pub fn retrieval_misses(&self) -> (r: u64)
        ensures
            r == self@.retrieval_misses,
    {
        self.retrieval_misses
    }

    /// The latency of the last retrieval, in microseconds.
    pub fn retrieve_latency_us(&self) -> (r: u64)
        ensures
            r == self@.last_retrieve_latency_us,
    {
        self.last_retrieve_latency_us
    }

    pub fn candidates_examined(&self) -> (r: u64)
        ensures
            r == self@.last_candidates_examined,
    {
        self.last_candidates_examined
    }

    /// The activation time of the last retrieval, in microseconds.
    pub fn activation_compute_us(&self) -> (r: u64)
        ensures
            r == self@.last_activation_compute_us,
    {
        self.last_activation_compute_us
    }

    pub fn session_lock_contention(&self) -> (r: u64)
        ensures
            r == self@.session_lock_contention,
    {
        self.session_lock_contention
    }

    pub fn write_conflicts(&self) -> (r: u64)
        ensures
            r == self@.write_conflicts,
    {
        self.write_conflicts
    }
}

impl Default for ApiCounters {
    fn default() -> (r: Self)
        ensures
            r@ == zero_counters(),
    {
        ApiCounters::new()
    }
}

} // verus!
