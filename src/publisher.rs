use vstd::prelude::*;

use crate::hash::{block_hash_of, compute_block_hash};
use crate::kv_events::{
    KvCacheEvent, KvCacheEventData, KvCacheRemoveData, KvCacheStoreData, KvCacheStoredBlockData,
    RouterEvent, WorkerId,
};

verus! {

/// The parts describe `num_blocks` complete blocks: there are that many block ids and token
/// counts, at least one block, every count is `block_size`, and the tokens cover them all.
pub open spec fn stored_parts_complete(
    token_ids: Seq<u32>,
    num_block_tokens: Seq<usize>,
    block_ids: Seq<u64>,
    num_blocks: nat,
    block_size: nat,
) -> bool {
    &&& num_blocks > 0
    &&& num_blocks <= block_ids.len()
    &&& num_blocks <= num_block_tokens.len()
    &&& forall|i: int| 0 <= i < num_blocks ==> #[trigger] num_block_tokens[i] == block_size
    &&& num_blocks * block_size <= token_ids.len()
}

/// The block that the `i`-th complete block of the parts becomes.
pub open spec fn stored_block_of(
    token_ids: Seq<u32>,
    block_ids: Seq<u64>,
    block_size: nat,
    i: int,
) -> KvCacheStoredBlockData {
    KvCacheStoredBlockData {
        block_hash: block_ids[i],
        tokens_hash: block_hash_of(token_ids.subrange(i * block_size, i * block_size + block_size)),
    }
}

/// Build the `Stored` event of a worker from the parts its engine reports. The event is built
/// only when every one of the `num_blocks` blocks holds exactly `block_size` tokens; otherwise
/// (a partial block, no block, or parts that do not add up) nothing is published.
pub fn kv_event_create_stored_from_parts(
    event_id: u64,
    token_ids: &Vec<u32>,
    num_block_tokens: &Vec<usize>,
    block_ids: &Vec<u64>,
    num_blocks: usize,
    parent_hash: Option<u64>,
    block_size: usize,
) -> (r: Option<KvCacheEvent>)
    requires
        block_size > 0,
    ensures
        r is Some <==> stored_parts_complete(
            token_ids@,
            num_block_tokens@,
            block_ids@,
            num_blocks as nat,
            block_size as nat,
        ),
        r is Some ==> {
            let ev = r->Some_0;
            &&& ev.event_id == event_id
            &&& ev.data is Stored
            &&& ev.data->Stored_0.parent_hash == parent_hash
            &&& ev.data->Stored_0.blocks@.len() == num_blocks
            &&& forall|i: int|
                0 <= i < num_blocks ==> #[trigger] ev.data->Stored_0.blocks@[i] == stored_block_of(
                    token_ids@,
                    block_ids@,
                    block_size as nat,
                    i,
                )
        },
{
    if num_blocks == 0 || num_blocks > block_ids.len() || num_blocks > num_block_tokens.len() {
        return None;
    }
    let mut k: usize = 0;
    while k < num_blocks
        invariant
            num_blocks <= num_block_tokens@.len(),
            k <= num_blocks,
            forall|i: int| 0 <= i < k ==> #[trigger] num_block_tokens@[i] == block_size,
        decreases num_blocks - k,
    {
        if num_block_tokens[k] != block_size {
            return None;
        }
        k = k + 1;
    }
    if block_size > token_ids.len() / num_blocks {
        proof {
            assert(num_blocks * block_size > token_ids@.len()) by (nonlinear_arith)
                requires
                    block_size > token_ids@.len() / (num_blocks as nat),
                    num_blocks > 0,
            ;
        }
        return None;
    }
    proof {
        assert(num_blocks * block_size <= token_ids@.len()) by (nonlinear_arith)
            requires
                block_size <= token_ids@.len() / (num_blocks as nat),
                num_blocks > 0,
        ;
    }
    let n_tokens: usize = token_ids.len();
    let mut blocks: Vec<KvCacheStoredBlockData> = Vec::new();
    let mut i: usize = 0;
    while i < num_blocks
        invariant
            n_tokens == token_ids@.len(),
            num_blocks <= block_ids@.len(),
            num_blocks * block_size <= token_ids@.len(),
            i <= num_blocks,
            blocks@.len() == i,
            forall|j: int|
                0 <= j < i ==> #[trigger] blocks@[j] == stored_block_of(
                    token_ids@,
                    block_ids@,
                    block_size as nat,
                    j,
                ),
        decreases num_blocks - i,
    {
        proof {
            assert((i as int + 1) * (block_size as int) <= num_blocks * block_size) by (nonlinear_arith)
                requires
                    i < num_blocks,
            ;
            assert((i as int + 1) * (block_size as int) == i * block_size + block_size) by (nonlinear_arith);
            assert(i * block_size + block_size <= n_tokens);
        }
        let start: usize = i * block_size;
        let end: usize = start + block_size;
        let mut chunk: Vec<u32> = Vec::new();
        let mut t: usize = start;
        while t < end
            invariant
                start <= t <= end <= token_ids@.len(),
                chunk@ == token_ids@.subrange(start as int, t as int),
            decreases end - t,
        {
            chunk.push(token_ids[t]);
            t = t + 1;
            proof {
                assert(chunk@ =~= token_ids@.subrange(start as int, t as int));
            }
        }
        let tokens_hash = compute_block_hash(chunk.as_slice());
        blocks.push(KvCacheStoredBlockData { block_hash: block_ids[i], tokens_hash });
        i = i + 1;
    }
    Some(
        KvCacheEvent {
            event_id,
            data: KvCacheEventData::Stored(KvCacheStoreData { parent_hash, blocks }),
        },
    )
}

/// Build the `Removed` event of a worker for the blocks with these handles.
pub fn kv_event_create_removed_from_parts(event_id: u64, block_ids: Vec<u64>) -> (r: KvCacheEvent)
    ensures
        r.event_id == event_id,
        r.data is Removed,
        r.data->Removed_0.block_hashes@ == block_ids@,
{
    KvCacheEvent {
        event_id,
        data: KvCacheEventData::Removed(KvCacheRemoveData { block_hashes: block_ids }),
    }
}

/// Attaches the id of the worker that publishes to each of its KV events.
pub struct KvEventPublisher {
    worker_id: WorkerId,
    subject: String,
}

impl KvEventPublisher {
    /// A publisher for `worker_id` that publishes on `subject`.
    pub fn new(subject: String, worker_id: WorkerId) -> (r: KvEventPublisher)
        ensures
            r.spec_worker_id() == worker_id,
            r.spec_subject() == subject@,
    {
        KvEventPublisher { worker_id, subject }
    }

    pub closed spec fn spec_worker_id(&self) -> WorkerId {
        self.worker_id
    }

    pub closed spec fn spec_subject(&self) -> Seq<char> {
        self.subject@
    }

    pub fn worker_id(&self) -> (r: WorkerId)
        ensures
            r == self.spec_worker_id(),
    {
        self.worker_id
    }

    /// The subject that the events go to.
    pub fn subject(&self) -> (r: &str)
        ensures
            r@ == self.spec_subject(),
    {
        self.subject.as_str()
    }

    /// The message to publish for `event`: the event with this publisher's worker id.
    pub fn publish(&self, event: KvCacheEvent) -> (r: RouterEvent)
        ensures
            r.worker_id == self.spec_worker_id(),
            r.event == event,
    {
        RouterEvent { worker_id: self.worker_id, event }
    }
}

} // verus!
