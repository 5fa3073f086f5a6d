//! Outcome records and their append-only collection.

use vstd::prelude::*;

verus! {

/// One immutable outcome record for a single executed request.
#[derive(Debug)]
pub struct Stat {
    /// The name of the request, as written in its template.
    pub name: String,
    /// The HTTP status code, or [`crate::FAILURE_STATUS`] for a request
    /// that failed at the transport level.
    pub status: u16,
    /// Elapsed latency of the request, in milliseconds.
    pub latency: u64,
}

impl Stat {
    pub fn new(name: String, status: u16, latency: u64) -> (r: Stat)
        ensures
            r.name@ == name@,
            r.status == status,
            r.latency == latency,
    {
        Stat { name, status, latency }
    }
}

/// The shared, append-only sequence of outcome records. Entries are never
/// removed or reordered; the collection is drained once, after every worker
/// has terminated.
pub struct StatsCollector {
    stats: Vec<Stat>,
}

impl View for StatsCollector {
    type V = Seq<Stat>;

    closed spec fn view(&self) -> Seq<Stat> {
        self.stats@
    }
}

impl StatsCollector {
    /// An empty collection.
    pub fn new() -> (r: StatsCollector)
        ensures
            r@ == Seq::<Stat>::empty(),
    {
        StatsCollector { stats: Vec::new() }
    }

    /// Appends one record at the end; nothing else changes.
    pub fn append(&mut self, stat: Stat)
        ensures
            final(self)@ == old(self)@.push(stat),
    {
        self.stats.push(stat);
    }

    /// Appends a worker's records at the end, in their order.
    pub fn append_all(&mut self, worker_stats: Vec<Stat>)
        ensures
            final(self)@ == old(self)@ + worker_stats@,
    {
        let ghost init = self.stats@;
        let ghost orig = worker_stats@;
        let mut remaining = worker_stats;
        while remaining.len() > 0
            invariant
                remaining@.len() <= orig.len(),
                remaining@ == orig.skip(orig.len() - remaining@.len()),
                self.stats@ == init + orig.take(orig.len() - remaining@.len()),
            decreases remaining.len(),
        {
            let ghost k = orig.len() - remaining@.len();
            let stat = remaining.remove(0);
            self.stats.push(stat);
            proof {
                assert(orig.skip(k).remove(0) =~= orig.skip(k + 1));
                assert(orig.skip(k)[0] == orig[k]);
                assert((init + orig.take(k)).push(orig[k]) =~= init + orig.take(k + 1));
            }
        }
        proof {
            assert(orig.take(orig.len() as int) =~= orig);
        }
    }

    /// How many records have been collected.
    pub fn len(&self) -> (r: usize)
        ensures
            r == self@.len(),
    {
        self.stats.len()
    }

    /// Drains the collection: every record, in the order appended.
    pub fn into_vec(self) -> (r: Vec<Stat>)
        ensures
            r@ == self@,
    {
        self.stats
    }
}

/// The total number of records over a sequence of per-worker record sequences.
pub open spec fn total_len(results: Seq<Seq<Stat>>) -> nat
    decreases results.len(),
{
    if results.len() == 0 {
        0
    } else {
        total_len(results.drop_last()) + results.last().len()
    }
}

/// In iteration-bound mode, when every one of `thread_count` workers
/// contributed `iterations * n_requests` records — which each worker does
/// whenever it terminates normally — the collected total is
/// `thread_count * iterations * n_requests`.
pub proof fn lemma_iteration_bound_total(
    results: Seq<Seq<Stat>>,
    thread_count: nat,
    iterations: nat,
    n_requests: nat,
)
    requires
        results.len() == thread_count,
        forall|i: int| 0 <= i < results.len() ==> results[i].len() == iterations * n_requests,
    ensures
        total_len(results) == thread_count * iterations * n_requests,
    decreases results.len(),
{
    if results.len() == 0 {
        assert(thread_count * iterations * n_requests == 0) by (nonlinear_arith)
            requires thread_count == 0;
    } else {
        lemma_iteration_bound_total(
            results.drop_last(),
            (thread_count - 1) as nat,
            iterations,
            n_requests,
        );
        assert((thread_count - 1) as nat * iterations * n_requests + iterations * n_requests
            == thread_count * iterations * n_requests) by (nonlinear_arith)
            requires thread_count >= 1;
    }
}

} // verus!
