use vstd::prelude::*;

use crate::component::Component;
use crate::hash::block_hashes_of;
use crate::indexer::{
    after_event, after_worker_removed, overlap_scores_of, KvIndexer, KvIndexerError, Residency,
};
use crate::kv_events::{RouterEvent, WorkerId};
use crate::scheduler::{is_best_candidate, select_worker, KvSchedulerError};
use crate::scoring::{Endpoint, ProcessedEndpoints};

verus! {

/// Interval between two scrapes of the workers' load, in milliseconds.
pub const POLL_INTERVAL_MS: u64 = 1000;

/// Deadline of one scrape of the workers' load, in milliseconds.
pub const SCRAPE_TIMEOUT_MS: u64 = 1000;

/// A snapshot older than this, in milliseconds, is reported as stale.
pub const STALE_SNAPSHOT_MS: u64 = 10 * POLL_INTERVAL_MS;

/// The subject on which a component's workers publish their KV events:
/// `<service name>.events.kv_events`.
pub fn kv_event_subject(backend: &Component) -> (r: String)
    ensures
        r@ == backend.spec_service_name() + ".events."@ + "kv_events"@,
{
    backend.event_subject("kv_events")
}

/// Errors that `schedule` returns to its caller.
#[derive(Clone, Copy, Debug, PartialEq, Eq, Structural)]
pub enum KvRouterError {
    /// No worker can take the request; `stale` tells whether the load snapshot was stale.
    NoWorkersAvailable { stale: bool },
    /// The router is shutting down.
    Cancelled,
}

/// The worker chosen for a request, and whether the load snapshot behind the choice was stale.
#[derive(Clone, Copy, Debug, PartialEq, Eq, Structural)]
pub struct ScheduleDecision {
    pub worker_id: WorkerId,
    pub stale: bool,
}

/// The snapshot published at `published_ms` is stale at `now_ms`.
pub open spec fn snapshot_is_stale(published_ms: u64, now_ms: u64) -> bool {
    now_ms > published_ms && now_ms - published_ms > STALE_SNAPSHOT_MS
}

/// The router: the KV index, the latest load snapshot, and whether it was cancelled.
/// Scheduling reads both; events update the index and each scrape replaces the snapshot.
pub struct KvRouter {
    service_name: String,
    indexer: KvIndexer,
    snapshot: ProcessedEndpoints,
    published_ms: u64,
    cancelled: bool,
}

impl KvRouter {
    pub closed spec fn wf(&self) -> bool {
        self.indexer.wf()
    }

    /// What the index holds.
    pub closed spec fn residency(&self) -> Residency {
        self.indexer@
    }

    /// The endpoints of the latest snapshot.
    pub closed spec fn snapshot(&self) -> Seq<Endpoint> {
        self.snapshot.endpoints@
    }

    /// When the latest snapshot was published.
    pub closed spec fn published_at(&self) -> u64 {
        self.published_ms
    }

    pub closed spec fn spec_cancelled(&self) -> bool {
        self.cancelled
    }

    pub closed spec fn spec_block_size(&self) -> nat {
        self.indexer.spec_block_size()
    }

    pub closed spec fn spec_service_name(&self) -> Seq<char> {
        self.service_name@
    }

    /// A router for `service_name` with an empty index for blocks of `kv_block_size` tokens and
    /// an empty snapshot published at `now_ms`.
    pub fn new(service_name: String, kv_block_size: usize, now_ms: u64) -> (r: KvRouter)
        requires
            kv_block_size > 0,
        ensures
            r.wf(),
            r.residency() == Map::<(Seq<u64>, WorkerId), u64>::empty(),
            r.snapshot().len() == 0,
            r.published_at() == now_ms,
            !r.spec_cancelled(),
            r.spec_block_size() == kv_block_size,
            r.spec_service_name() == service_name@,
    {
        KvRouter {
            service_name,
            indexer: KvIndexer::new(kv_block_size),
            snapshot: ProcessedEndpoints::empty(),
            published_ms: now_ms,
            cancelled: false,
        }
    }

    pub fn service_name(&self) -> (r: &str)
        ensures
            r@ == self.spec_service_name(),
    {
        self.service_name.as_str()
    }

    pub fn block_size(&self) -> (r: usize)
        requires
            self.wf(),
        ensures
            r == self.spec_block_size(),
    {
        self.indexer.block_size()
    }

    pub fn is_cancelled(&self) -> (r: bool)
        ensures
            r == self.spec_cancelled(),
    {
        self.cancelled
    }

    /// Apply a worker's KV event to the index. The snapshot is left as it is.
    pub fn apply_event(&mut self, event: &RouterEvent) -> (r: Result<(), KvIndexerError>)
        requires
            old(self).wf(),
        ensures
            final(self).wf(),
            final(self).residency() == after_event(old(self).residency(), *event),
            final(self).snapshot() == old(self).snapshot(),
            final(self).published_at() == old(self).published_at(),
            final(self).spec_cancelled() == old(self).spec_cancelled(),
            final(self).spec_block_size() == old(self).spec_block_size(),
            final(self).spec_service_name() == old(self).spec_service_name(),
            r is Err <==> event.event.data is Stored && event.event.data->Stored_0.blocks.len() == 0,
            r is Err ==> r == Err::<(), KvIndexerError>(KvIndexerError::EmptyStoredEvent),
    {
        self.indexer.apply_event(event)
    }

    /// Forget every block of `worker_id`, as when its event stream ends.
    pub fn remove_worker(&mut self, worker_id: WorkerId)
        requires
            old(self).wf(),
        ensures
            final(self).wf(),
            final(self).residency() == after_worker_removed(old(self).residency(), worker_id),
            final(self).snapshot() == old(self).snapshot(),
            final(self).published_at() == old(self).published_at(),
            final(self).spec_cancelled() == old(self).spec_cancelled(),
            final(self).spec_block_size() == old(self).spec_block_size(),
            final(self).spec_service_name() == old(self).spec_service_name(),
    {
        self.indexer.remove_worker(worker_id);
    }

    /// Publish the snapshot of a scrape that completed at `now_ms`; it replaces the previous
    /// one wholesale. The index is left as it is.
    pub fn update_endpoints(&mut self, snapshot: ProcessedEndpoints, now_ms: u64)
        ensures
            final(self).snapshot() == snapshot.endpoints@,
            final(self).published_at() == now_ms,
            final(self).residency() == old(self).residency(),
            final(self).wf() == old(self).wf(),
            final(self).spec_cancelled() == old(self).spec_cancelled(),
            final(self).spec_block_size() == old(self).spec_block_size(),
            final(self).spec_service_name() == old(self).spec_service_name(),
    {
        self.snapshot = snapshot;
        self.published_ms = now_ms;
    }

    /// Cancel the router: from now on every `schedule` call fails with `Cancelled`.
    pub fn cancel(&mut self)
        ensures
            final(self).spec_cancelled(),
            final(self).residency() == old(self).residency(),
            final(self).snapshot() == old(self).snapshot(),
            final(self).published_at() == old(self).published_at(),
            final(self).wf() == old(self).wf(),
            final(self).spec_block_size() == old(self).spec_block_size(),
            final(self).spec_service_name() == old(self).spec_service_name(),
    {
        self.cancelled = true;
    }

    /// Choose the worker for a request at time `now_ms`: the overlap of each worker comes
    /// from the index, the load from the latest snapshot.
    pub fn schedule(&self, token_ids: &Vec<u32>, now_ms: u64) -> (r: Result<
        ScheduleDecision,
        KvRouterError,
    >)
        requires
            self.wf(),
            token_ids@.len() <= u32::MAX,
        ensures
            self.spec_cancelled() ==> r == Err::<ScheduleDecision, KvRouterError>(
                KvRouterError::Cancelled,
            ),
            !self.spec_cancelled() && self.snapshot().len() == 0 ==> r == Err::<
                ScheduleDecision,
                KvRouterError,
            >(
                KvRouterError::NoWorkersAvailable {
                    stale: snapshot_is_stale(self.published_at(), now_ms),
                },
            ),
            !self.spec_cancelled() && self.snapshot().len() > 0 ==> r is Ok,
            r is Ok ==> {
                let d = r->Ok_0;
                &&& d.stale == snapshot_is_stale(self.published_at(), now_ms)
                &&& exists|i: int|
                    is_best_candidate(
                        overlap_scores_of(
                            self.residency(),
                            block_hashes_of(token_ids@, self.spec_block_size()),
                        ),
                        self.snapshot(),
                        token_ids@.len() as int,
                        self.spec_block_size() as int,
                        i,
                    ) && #[trigger] self.snapshot()[i].worker_id == d.worker_id
            },
    {
        if self.cancelled {
            return Err(KvRouterError::Cancelled);
        }
        let stale = now_ms > self.published_ms && now_ms - self.published_ms > STALE_SNAPSHOT_MS;
        let overlap = self.indexer.find_matches_for_request(token_ids.as_slice());
        match select_worker(
            &overlap,
            &self.snapshot.endpoints,
            token_ids.len(),
            self.indexer.block_size(),
        ) {
            Ok(worker_id) => {
                proof {
                    let scores = overlap_scores_of(
                        self.residency(),
                        block_hashes_of(token_ids@, self.spec_block_size()),
                    );
                    let i = choose|i: int|
                        is_best_candidate(
                            scores,
                            self.snapshot.endpoints@,
                            token_ids@.len() as int,
                            self.spec_block_size() as int,
                            i,
                        ) && #[trigger] self.snapshot.endpoints@[i].worker_id == worker_id;
                    assert(self.snapshot()[i].worker_id == worker_id);
                }
                Ok(ScheduleDecision { worker_id, stale })
            },
            Err(KvSchedulerError::NoWorkersAvailable) => Err(
                KvRouterError::NoWorkersAvailable { stale },
            ),
        }
    }
}

} // verus!

verus! {

/// Every overlap that the router hands to the scheduler covers at most the request: the
/// overlap times the block size never exceeds the request's token count, so a strictly greater
/// overlap always means a strictly smaller prefill cost.
pub proof fn lemma_overlap_within_request(m: Residency, tokens: Seq<u32>, block_size: nat, w: WorkerId)
    requires
        block_size > 0,
        tokens.len() <= u32::MAX,
    ensures
        crate::scheduler::overlap_of(overlap_scores_of(m, block_hashes_of(tokens, block_size)), w)
            * block_size <= tokens.len(),
{
    let hashes = block_hashes_of(tokens, block_size);
    assert(hashes.len() * block_size <= tokens.len()) by (nonlinear_arith)
        requires
            hashes.len() == tokens.len() / block_size,
            block_size > 0,
    ;
    assert(hashes.len() <= tokens.len()) by (nonlinear_arith)
        requires
            hashes.len() == tokens.len() / block_size,
            block_size > 0,
    ;
    crate::indexer::lemma_overlap_at_most_blocks(m, hashes, w);
    let o = crate::scheduler::overlap_of(overlap_scores_of(m, hashes), w);
    assert(o * block_size <= hashes.len() * block_size) by (nonlinear_arith)
        requires
            0 <= o <= hashes.len(),
            block_size > 0,
    ;
}

/// What `schedule` decides on never passes over a candidate with equal load pressure and
/// strictly greater overlap with the request.
pub proof fn lemma_schedule_prefers_overlap(
    m: Residency,
    tokens: Seq<u32>,
    block_size: nat,
    endpoints: Seq<Endpoint>,
    chosen: int,
    other: int,
)
    requires
        block_size > 0,
        tokens.len() <= u32::MAX,
        is_best_candidate(
            overlap_scores_of(m, block_hashes_of(tokens, block_size)),
            endpoints,
            tokens.len() as int,
            block_size as int,
            chosen,
        ),
        0 <= other < endpoints.len(),
        crate::scheduler::pressure_eq(endpoints[other].data, endpoints[chosen].data),
    ensures
        !(crate::scheduler::overlap_of(
            overlap_scores_of(m, block_hashes_of(tokens, block_size)),
            endpoints[other].worker_id,
        ) > crate::scheduler::overlap_of(
            overlap_scores_of(m, block_hashes_of(tokens, block_size)),
            endpoints[chosen].worker_id,
        )),
{
    lemma_overlap_within_request(m, tokens, block_size, endpoints[other].worker_id);
    crate::scheduler::lemma_overlap_monotone(
        overlap_scores_of(m, block_hashes_of(tokens, block_size)),
        endpoints,
        tokens.len() as int,
        block_size as int,
        chosen,
        other,
    );
}

} // verus!
