use vstd::prelude::*;

use crate::scoring::{Endpoint, ProcessedEndpoints};

verus! {

/// Which component and endpoint a load collector watches.
#[derive(Clone, Debug)]
pub struct LLMWorkerLoadCapacityConfig {
    pub component_name: String,
    pub endpoint_name: String,
}

/// The two endpoints hold the same data.
pub open spec fn same_endpoint(a: Endpoint, b: Endpoint) -> bool {
    &&& a.name@ == b.name@
    &&& a.subject@ == b.subject@
    &&& a.worker_id == b.worker_id
    &&& a.data == b.data
}

/// The two snapshots hold the same endpoints, in the same order.
pub open spec fn same_snapshot(a: Seq<Endpoint>, b: Seq<Endpoint>) -> bool {
    &&& a.len() == b.len()
    &&& forall|i: int| 0 <= i < a.len() ==> same_endpoint(#[trigger] a[i], b[i])
}

fn copy_endpoint(e: &Endpoint) -> (r: Endpoint)
    ensures
        same_endpoint(r, *e),
{
    Endpoint {
        name: String::from_str(e.name.as_str()),
        subject: String::from_str(e.subject.as_str()),
        worker_id: e.worker_id,
        data: e.data,
    }
}

/// A copy of a snapshot.
pub fn copy_snapshot(s: &ProcessedEndpoints) -> (r: ProcessedEndpoints)
    ensures
        same_snapshot(r.endpoints@, s.endpoints@),
{
    let mut out: Vec<Endpoint> = Vec::new();
    let mut i: usize = 0;
    while i < s.endpoints.len()
        invariant
            i <= s.endpoints@.len(),
            out@.len() == i,
            forall|k: int| 0 <= k < i ==> same_endpoint(#[trigger] out@[k], s.endpoints@[k]),
        decreases s.endpoints@.len() - i,
    {
        out.push(copy_endpoint(&s.endpoints[i]));
        i = i + 1;
    }
    ProcessedEndpoints { endpoints: out }
}

/// Holds the latest load snapshot of a service's workers; each scrape replaces it wholesale.
pub struct KvMetricsAggregator {
    pub service_name: String,
    pub endpoints: ProcessedEndpoints,
}

impl KvMetricsAggregator {
    /// The endpoints of the latest snapshot.
    pub open spec fn snapshot(&self) -> Seq<Endpoint> {
        self.endpoints.endpoints@
    }

    /// An aggregator for `service_name` that has seen no scrape yet: its snapshot is empty.
    pub fn new(service_name: String) -> (r: KvMetricsAggregator)
        ensures
            r.service_name@ == service_name@,
            r.snapshot().len() == 0,
    {
        KvMetricsAggregator { service_name, endpoints: ProcessedEndpoints::empty() }
    }

    /// Publish the snapshot of a completed scrape; readers see it from now on.
    pub fn update(&mut self, snapshot: ProcessedEndpoints)
        ensures
            final(self).snapshot() == snapshot.endpoints@,
            final(self).service_name@ == old(self).service_name@,
    {
        self.endpoints = snapshot;
    }

    /// A copy of the latest snapshot.
    pub fn get_endpoints(&self) -> (r: ProcessedEndpoints)
        ensures
            same_snapshot(r.endpoints@, self.snapshot()),
    {
        copy_snapshot(&self.endpoints)
    }
}

} // verus!
