use vstd::prelude::*;

use crate::kv_events::WorkerId;

verus! {

/// Load statistics that a worker reports for one forward pass.
#[derive(Clone, Copy, Debug, PartialEq, Eq, Structural)]
pub struct ForwardPassMetrics {
    pub request_active_slots: u64,
    pub request_total_slots: u64,
    pub kv_active_blocks: u64,
    pub kv_total_blocks: u64,
}

impl ForwardPassMetrics {
    pub fn new(
        request_active_slots: u64,
        request_total_slots: u64,
        kv_active_blocks: u64,
        kv_total_blocks: u64,
    ) -> (r: ForwardPassMetrics)
        ensures
            r == (ForwardPassMetrics {
                request_active_slots,
                request_total_slots,
                kv_active_blocks,
                kv_total_blocks,
            }),
    {
        ForwardPassMetrics {
            request_active_slots,
            request_total_slots,
            kv_active_blocks,
            kv_total_blocks,
        }
    }
}

/// The load of one worker as seen by the last scrape.
#[derive(Clone, Debug)]
pub struct Endpoint {
    pub name: String,
    pub subject: String,
    pub worker_id: WorkerId,
    pub data: ForwardPassMetrics,
}

/// A snapshot of the load of every known worker.
#[derive(Clone, Debug)]
pub struct ProcessedEndpoints {
    pub endpoints: Vec<Endpoint>,
}

/// Sum of `kv_active_blocks` over the endpoints.
pub open spec fn kv_active_total(endpoints: Seq<Endpoint>) -> int
    decreases endpoints.len(),
{
    if endpoints.len() == 0 {
        0
    } else {
        kv_active_total(endpoints.drop_last()) + endpoints.last().data.kv_active_blocks
    }
}

proof fn lemma_kv_active_total_bound(endpoints: Seq<Endpoint>)
    ensures
        0 <= kv_active_total(endpoints) <= endpoints.len() * (u64::MAX as int),
    decreases endpoints.len(),
{
    if endpoints.len() > 0 {
        lemma_kv_active_total_bound(endpoints.drop_last());
    }
}

impl ProcessedEndpoints {
    /// A snapshot of these endpoints; an empty list gives an empty snapshot.
    pub fn new(endpoints: Vec<Endpoint>) -> (r: ProcessedEndpoints)
        ensures
            r.endpoints@ == endpoints@,
    {
        ProcessedEndpoints { endpoints }
    }

    /// The snapshot of a cluster without workers.
    pub fn empty() -> (r: ProcessedEndpoints)
        ensures
            r.endpoints@.len() == 0,
    {
        ProcessedEndpoints { endpoints: Vec::new() }
    }

    /// The ids of the workers in the snapshot, in order.
    pub fn worker_ids(&self) -> (r: Vec<WorkerId>)
        ensures
            r@.len() == self.endpoints@.len(),
            forall|i: int| 0 <= i < r@.len() ==> r@[i] == #[trigger] self.endpoints@[i].worker_id,
    {
        let mut out: Vec<WorkerId> = Vec::new();
        let mut i: usize = 0;
        while i < self.endpoints.len()
            invariant
                i <= self.endpoints@.len(),
                out@.len() == i,
                forall|k: int| 0 <= k < i ==> out@[k] == #[trigger] self.endpoints@[k].worker_id,
            decreases self.endpoints@.len() - i,
        {
            out.push(self.endpoints[i].worker_id);
            i = i + 1;
        }
        out
    }

    /// Sum of the active KV blocks over all workers: the numerator of the mean load.
    pub fn kv_active_blocks_total(&self) -> (r: u128)
        requires
            self.endpoints@.len() <= u64::MAX,
        ensures
            r == kv_active_total(self.endpoints@),
    {
        let mut total: u128 = 0;
        let mut i: usize = 0;
        while i < self.endpoints.len()
            invariant
                i <= self.endpoints@.len() <= u64::MAX,
                total == kv_active_total(self.endpoints@.take(i as int)),
            decreases self.endpoints@.len() - i,
        {
            proof {
                let t = self.endpoints@.take(i as int + 1);
                assert(t.drop_last() =~= self.endpoints@.take(i as int));
                lemma_kv_active_total_bound(t);
                assert(t.len() * (u64::MAX as int) <= (u64::MAX as int) * (u64::MAX as int))
                    by (nonlinear_arith)
                    requires
                        t.len() <= u64::MAX,
                ;
            }
            total = total + self.endpoints[i].data.kv_active_blocks as u128;
            i = i + 1;
        }
        proof {
            assert(self.endpoints@.take(i as int) =~= self.endpoints@);
        }
        total
    }
}

} // verus!
