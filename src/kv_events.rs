use vstd::prelude::*;

verus! {

/// Identifier of a worker process, stable for its lifetime.
pub type WorkerId = i64;

/// One block that a worker has stored: its own handle for the block and the hash of its tokens.
#[derive(Clone, Copy, Debug, PartialEq, Eq, Structural)]
pub struct KvCacheStoredBlockData {
    /// The worker's opaque identifier of the stored block, used for eviction.
    pub block_hash: u64,
    /// The hash of the block's tokens, used for matching.
    pub tokens_hash: u64,
}

/// Payload of a `Stored` event: consecutive blocks from the start of a sequence.
#[derive(Clone, Debug)]
pub struct KvCacheStoreData {
    pub parent_hash: Option<u64>,
    pub blocks: Vec<KvCacheStoredBlockData>,
}

/// Payload of a `Removed` event: the worker's handles of the evicted blocks.
#[derive(Clone, Debug)]
pub struct KvCacheRemoveData {
    pub block_hashes: Vec<u64>,
}

#[derive(Clone, Debug)]
pub enum KvCacheEventData {
    Stored(KvCacheStoreData),
    Removed(KvCacheRemoveData),
}

/// An event that a worker emits when it stores or evicts KV blocks.
#[derive(Clone, Debug)]
pub struct KvCacheEvent {
    pub event_id: u64,
    pub data: KvCacheEventData,
}

/// A KV event together with the worker that emitted it.
#[derive(Clone, Debug)]
pub struct RouterEvent {
    pub worker_id: WorkerId,
    pub event: KvCacheEvent,
}

/// The token hashes of a run of stored blocks, in order.
pub open spec fn tokens_hashes(blocks: Seq<KvCacheStoredBlockData>) -> Seq<u64> {
    blocks.map_values(|b: KvCacheStoredBlockData| b.tokens_hash)
}

/// The worker's handles of a run of stored blocks, in order.
pub open spec fn external_hashes(blocks: Seq<KvCacheStoredBlockData>) -> Seq<u64> {
    blocks.map_values(|b: KvCacheStoredBlockData| b.block_hash)
}

impl RouterEvent {
    pub fn new(worker_id: WorkerId, event: KvCacheEvent) -> (r: RouterEvent)
        ensures
            r.worker_id == worker_id,
            r.event == event,
    {
        RouterEvent { worker_id, event }
    }
}

} // verus!
