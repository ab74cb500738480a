use kv_router::hash::{compute_block_hash, compute_block_hash_for_seq, KV_BLOCK_SIZE};
use kv_router::indexer::{KvIndexer, KvIndexerError};
use kv_router::kv_events::{
    KvCacheEvent, KvCacheEventData, KvCacheRemoveData, KvCacheStoreData, KvCacheStoredBlockData,
    RouterEvent,
};
use kv_router::metrics::KvMetricsAggregator;
use kv_router::publisher::{
    kv_event_create_removed_from_parts, kv_event_create_stored_from_parts, KvEventPublisher,
};
use kv_router::router::{KvRouter, KvRouterError, STALE_SNAPSHOT_MS};
use kv_router::scheduler::{
    compare_cost, compute_prefill_cost, select_worker, KvSchedulerError,
};
use kv_router::scoring::{Endpoint, ForwardPassMetrics, ProcessedEndpoints};

fn stored(worker_id: i64, blocks: &[(u64, u64)]) -> RouterEvent {
    RouterEvent::new(
        worker_id,
        KvCacheEvent {
            event_id: 1,
            data: KvCacheEventData::Stored(KvCacheStoreData {
                parent_hash: None,
                blocks: blocks
                    .iter()
                    .map(|&(block_hash, tokens_hash)| KvCacheStoredBlockData {
                        block_hash,
                        tokens_hash,
                    })
                    .collect(),
            }),
        },
    )
}

fn removed(worker_id: i64, hashes: Vec<u64>) -> RouterEvent {
    RouterEvent::new(
        worker_id,
        KvCacheEvent {
            event_id: 2,
            data: KvCacheEventData::Removed(KvCacheRemoveData { block_hashes: hashes }),
        },
    )
}

fn endpoint(worker_id: i64, active: u64, total: u64, kv_active: u64, kv_total: u64) -> Endpoint {
    Endpoint {
        name: format!("worker-{}", worker_id),
        subject: format!("ns_comp.generate-{:x}", worker_id),
        worker_id,
        data: ForwardPassMetrics::new(active, total, kv_active, kv_total),
    }
}

fn h(tokens: &[u32]) -> u64 {
    compute_block_hash(tokens)
}

fn sorted(scores: &std::collections::HashMap<i64, u32>) -> Vec<(i64, u32)> {
    let mut v: Vec<(i64, u32)> = scores.iter().map(|(k, v)| (*k, *v)).collect();
    v.sort();
    v
}

#[test]
fn block_hash_exact_values() {
    assert_eq!(h(&[]), 14695981039346656037);
    assert_eq!(h(&[1, 2, 3, 4]), 9566659391000707361);
    assert_eq!(h(&[5, 6, 7, 8]), 2426953839697244457);
    let block: Vec<u32> = (0..64).collect();
    assert_eq!(h(&block), 17722881867707570981);
    assert_eq!(KV_BLOCK_SIZE, 64);
}

#[test]
fn block_hash_is_deterministic() {
    let block: Vec<u32> = (1000..1064).collect();
    assert_eq!(h(&block), h(&block.clone()));
    assert_ne!(h(&[1, 2, 3, 4]), h(&[4, 3, 2, 1]));
}

#[test]
fn block_hashes_skip_partial_tail() {
    let tokens = vec![1, 2, 3, 4, 5, 6, 7, 8, 9];
    let hashes = compute_block_hash_for_seq(&tokens, 4);
    assert_eq!(hashes, vec![h(&[1, 2, 3, 4]), h(&[5, 6, 7, 8])]);
    assert!(compute_block_hash_for_seq(&[1, 2, 3], 4).is_empty());
}

#[test]
fn single_worker_exact_match() {
    let mut router = KvRouter::new("svc".to_string(), 4, 0);
    let event = stored(1, &[(0xA, h(&[1, 2, 3, 4])), (0xB, h(&[5, 6, 7, 8]))]);
    assert!(router.apply_event(&event).is_ok());
    let mut indexer = KvIndexer::new(4);
    indexer.apply_event(&event).unwrap();
    let scores = indexer.find_matches_for_request(&[1, 2, 3, 4, 5, 6, 7, 8, 9]);
    assert_eq!(sorted(&scores.scores), vec![(1, 2)]);

    router.update_endpoints(ProcessedEndpoints::new(vec![endpoint(1, 0, 10, 0, 100)]), 5);
    let decision = router.schedule(&vec![1, 2, 3, 4, 5, 6, 7, 8, 9], 10).unwrap();
    assert_eq!(decision.worker_id, 1);
    assert!(!decision.stale);
}

#[test]
fn two_workers_partial_overlap() {
    let (a, b, c) = ([1u32, 1, 1, 1], [2u32, 2, 2, 2], [3u32, 3, 3, 3]);
    let mut router = KvRouter::new("svc".to_string(), 4, 0);
    router.apply_event(&stored(1, &[(11, h(&a)), (12, h(&b))])).unwrap();
    router.apply_event(&stored(2, &[(21, h(&a))])).unwrap();
    let request: Vec<u32> = a.iter().chain(b.iter()).chain(c.iter()).cloned().collect();

    let mut indexer = KvIndexer::new(4);
    indexer.apply_event(&stored(1, &[(11, h(&a)), (12, h(&b))])).unwrap();
    indexer.apply_event(&stored(2, &[(21, h(&a))])).unwrap();
    assert_eq!(
        sorted(&indexer.find_matches_for_request(&request).scores),
        vec![(1, 2), (2, 1)]
    );

    router.update_endpoints(
        ProcessedEndpoints::new(vec![endpoint(2, 3, 10, 50, 100), endpoint(1, 3, 10, 50, 100)]),
        0,
    );
    assert_eq!(router.schedule(&request, 1).unwrap().worker_id, 1);
}

#[test]
fn load_breaks_equal_overlap() {
    let (a, b) = ([1u32, 1, 1, 1], [2u32, 2, 2, 2]);
    let mut router = KvRouter::new("svc".to_string(), 4, 0);
    router.apply_event(&stored(1, &[(11, h(&a)), (12, h(&b))])).unwrap();
    router.apply_event(&stored(2, &[(21, h(&a)), (22, h(&b))])).unwrap();
    let request: Vec<u32> = a.iter().chain(b.iter()).cloned().collect();
    router.update_endpoints(
        ProcessedEndpoints::new(vec![endpoint(1, 9, 10, 0, 100), endpoint(2, 1, 10, 0, 100)]),
        0,
    );
    assert_eq!(router.schedule(&request, 1).unwrap().worker_id, 2);
}

#[test]
fn removal_detaches_block() {
    let mut indexer = KvIndexer::new(4);
    indexer
        .apply_event(&stored(1, &[(0xA, h(&[1, 2, 3, 4])), (0xB, h(&[5, 6, 7, 8]))]))
        .unwrap();
    indexer.apply_event(&removed(1, vec![0xB])).unwrap();
    let scores = indexer.find_matches_for_request(&[1, 2, 3, 4, 5, 6, 7, 8, 9]);
    assert_eq!(sorted(&scores.scores), vec![(1, 1)]);

    indexer.apply_event(&removed(1, vec![0xA])).unwrap();
    let scores = indexer.find_matches_for_request(&[1, 2, 3, 4, 5, 6, 7, 8, 9]);
    assert!(scores.scores.is_empty());
}

#[test]
fn removal_of_other_worker_leaves_entries() {
    let mut indexer = KvIndexer::new(4);
    indexer.apply_event(&stored(1, &[(7, h(&[1, 2, 3, 4]))])).unwrap();
    indexer.apply_event(&stored(2, &[(7, h(&[1, 2, 3, 4]))])).unwrap();
    indexer.apply_event(&removed(2, vec![7])).unwrap();
    let scores = indexer.find_matches_for_request(&[1, 2, 3, 4]);
    assert_eq!(sorted(&scores.scores), vec![(1, 1)]);
}

#[test]
fn stale_snapshot_is_reported() {
    let mut router = KvRouter::new("svc".to_string(), 4, 0);
    router.update_endpoints(ProcessedEndpoints::new(vec![endpoint(7, 0, 10, 0, 100)]), 1_000);
    let decision = router.schedule(&vec![1, 2, 3], 1_000 + STALE_SNAPSHOT_MS + 1).unwrap();
    assert_eq!(decision.worker_id, 7);
    assert!(decision.stale);
    let fresh = router.schedule(&vec![1, 2, 3], 1_000 + STALE_SNAPSHOT_MS).unwrap();
    assert!(!fresh.stale);
}

#[test]
fn empty_cluster_has_no_workers() {
    let router = KvRouter::new("svc".to_string(), 4, 0);
    assert_eq!(
        router.schedule(&vec![1, 2, 3, 4], 1).unwrap_err(),
        KvRouterError::NoWorkersAvailable { stale: false }
    );
    assert_eq!(
        router.schedule(&vec![1, 2, 3, 4], 20_000).unwrap_err(),
        KvRouterError::NoWorkersAvailable { stale: true }
    );
}

#[test]
fn stored_event_twice_is_idempotent() {
    let event = stored(3, &[(1, h(&[1, 2, 3, 4])), (2, h(&[5, 6, 7, 8]))]);
    let mut once = KvIndexer::new(4);
    once.apply_event(&event).unwrap();
    let mut twice = KvIndexer::new(4);
    twice.apply_event(&event).unwrap();
    twice.apply_event(&event).unwrap();
    let request = [1, 2, 3, 4, 5, 6, 7, 8];
    assert_eq!(
        sorted(&once.find_matches_for_request(&request).scores),
        sorted(&twice.find_matches_for_request(&request).scores)
    );
}

#[test]
fn insertion_gives_full_overlap() {
    let mut indexer = KvIndexer::new(4);
    indexer
        .apply_event(&stored(9, &[(1, h(&[1, 1, 1, 1])), (2, h(&[2, 2, 2, 2])), (3, h(&[3, 3, 3, 3]))]))
        .unwrap();
    let request = [1, 1, 1, 1, 2, 2, 2, 2, 3, 3, 3, 3, 4, 4, 4, 4, 5];
    assert_eq!(sorted(&indexer.find_matches_for_request(&request).scores), vec![(9, 3)]);
    let diverging = [1, 1, 1, 1, 9, 9, 9, 9];
    assert_eq!(sorted(&indexer.find_matches_for_request(&diverging).scores), vec![(9, 1)]);
}

#[test]
fn empty_stored_event_is_rejected() {
    let mut indexer = KvIndexer::new(4);
    assert_eq!(indexer.apply_event(&stored(1, &[])), Err(KvIndexerError::EmptyStoredEvent));
    assert!(indexer.find_matches_for_request(&[1, 2, 3, 4]).scores.is_empty());
}

#[test]
fn partial_blocks_are_not_published() {
    let tokens: Vec<u32> = (0..128).collect();
    assert!(kv_event_create_stored_from_parts(1, &tokens, &vec![64, 63], &vec![10, 11], 2, None, 64)
        .is_none());
    assert!(kv_event_create_stored_from_parts(1, &tokens, &vec![64, 64], &vec![10, 11], 0, None, 64)
        .is_none());
    assert!(kv_event_create_stored_from_parts(1, &tokens[..100].to_vec(), &vec![64, 64], &vec![10, 11], 2, None, 64)
        .is_none());

    let event = kv_event_create_stored_from_parts(5, &tokens, &vec![64, 64], &vec![10, 11], 2, Some(3), 64)
        .unwrap();
    assert_eq!(event.event_id, 5);
    match event.data {
        KvCacheEventData::Stored(s) => {
            assert_eq!(s.parent_hash, Some(3));
            assert_eq!(s.blocks.len(), 2);
            assert_eq!(s.blocks[0].block_hash, 10);
            assert_eq!(s.blocks[0].tokens_hash, h(&tokens[..64]));
            assert_eq!(s.blocks[1].tokens_hash, h(&tokens[64..]));
        }
        KvCacheEventData::Removed(_) => panic!("expected a stored event"),
    }
}

#[test]
fn removed_event_carries_handles() {
    let event = kv_event_create_removed_from_parts(4, vec![1, 2, 3]);
    assert_eq!(event.event_id, 4);
    match event.data {
        KvCacheEventData::Removed(r) => assert_eq!(r.block_hashes, vec![1, 2, 3]),
        KvCacheEventData::Stored(_) => panic!("expected a removed event"),
    }
    let publisher = KvEventPublisher::new("ns_comp.events.kv_events".to_string(), 42);
    let routed = publisher.publish(kv_event_create_removed_from_parts(4, vec![9]));
    assert_eq!(routed.worker_id, 42);
    assert_eq!(publisher.subject(), "ns_comp.events.kv_events");
}

#[test]
fn newer_snapshot_is_observed() {
    let mut router = KvRouter::new("svc".to_string(), 4, 0);
    router.update_endpoints(ProcessedEndpoints::new(vec![endpoint(1, 0, 10, 0, 10)]), 0);
    assert_eq!(router.schedule(&vec![1], 1).unwrap().worker_id, 1);
    router.update_endpoints(ProcessedEndpoints::new(vec![endpoint(2, 0, 10, 0, 10)]), 2);
    assert_eq!(router.schedule(&vec![1], 3).unwrap().worker_id, 2);
}

#[test]
fn cancelled_router_refuses() {
    let mut router = KvRouter::new("svc".to_string(), 4, 0);
    router.update_endpoints(ProcessedEndpoints::new(vec![endpoint(1, 0, 10, 0, 10)]), 0);
    router.cancel();
    assert!(router.is_cancelled());
    assert_eq!(router.schedule(&vec![1], 1).unwrap_err(), KvRouterError::Cancelled);
}

#[test]
fn scheduler_formulas() {
    // 100 tokens, 2 blocks of 4 cached: 92 tokens to prefill
    assert_eq!(compute_prefill_cost(100, 2, 4), 92);
    assert_eq!(compute_prefill_cost(4, 2, 4), 0);
    let m = ForwardPassMetrics::new(5, 10, 25, 100);
    let idle = ForwardPassMetrics::new(0, 0, 0, 0);
    // cost = prefill + 32 * (25/100 + 5/10) = prefill + 24
    assert_eq!(compare_cost(0, &m, 24, &idle), 0);
    assert_eq!(compare_cost(0, &m, 23, &idle), 1);
    assert_eq!(compare_cost(0, &m, 25, &idle), -1);
    assert_eq!(compare_cost(7, &idle, 7, &idle), 0);
}

#[test]
fn exact_pressure_decides_at_equal_overlap() {
    let none = KvIndexer::new(4).find_matches_for_request(&[]);
    let big = 1u64 << 40;
    // worker 1: 1 of 2^40 blocks, 0 of 1 slots; worker 2: 2 of 2^40 blocks, 0 of 5 slots
    let eps = vec![endpoint(2, 0, 5, 2, big), endpoint(1, 0, 1, 1, big)];
    assert_eq!(select_worker(&none, &eps, 0, 4), Ok(1));
    let a = ForwardPassMetrics::new(0, 1, 1, big);
    let b = ForwardPassMetrics::new(0, 5, 2, big);
    assert_eq!(compare_cost(0, &a, 0, &b), -1);
    // pressures that differ by about 2^-64
    let c = ForwardPassMetrics::new(u64::MAX - 1, u64::MAX, 0, 0);
    let d = ForwardPassMetrics::new(u64::MAX - 2, u64::MAX, 0, 0);
    assert_eq!(compare_cost(0, &d, 0, &c), -1);
    assert_eq!(compare_cost(0, &c, 0, &d), 1);
}

#[test]
fn scheduler_tie_breaks() {
    // block size 4, 4 tokens: worker 1 holds the block with 1 of 8 slots used (cost 0 + 32/8),
    // worker 2 holds nothing with 0 of 8 used (cost 4 + 0); equal cost, more free slots wins
    let mut indexer = KvIndexer::new(4);
    indexer.apply_event(&stored(1, &[(1, h(&[1, 1, 1, 1]))])).unwrap();
    let scores = indexer.find_matches_for_request(&[1, 1, 1, 1]);
    let eps = vec![endpoint(1, 1, 8, 0, 10), endpoint(2, 0, 8, 0, 10)];
    assert_eq!(select_worker(&scores, &eps, 4, 4), Ok(2));
    // equal load: the worker holding the block costs less
    let eps = vec![endpoint(2, 0, 10, 0, 10), endpoint(1, 0, 10, 0, 10)];
    assert_eq!(select_worker(&scores, &eps, 4, 4), Ok(1));
    // equal everything but headroom
    let none = indexer.find_matches_for_request(&[]);
    let eps = vec![endpoint(5, 2, 10, 0, 10), endpoint(6, 4, 20, 0, 10)];
    assert_eq!(select_worker(&none, &eps, 0, 4), Ok(6));
    // everything equal: lower id
    let eps = vec![endpoint(8, 0, 10, 0, 10), endpoint(3, 0, 10, 0, 10)];
    assert_eq!(select_worker(&none, &eps, 0, 4), Ok(3));
    assert_eq!(select_worker(&none, &vec![], 0, 4), Err(KvSchedulerError::NoWorkersAvailable));
}

#[test]
fn aggregator_keeps_latest_snapshot() {
    let mut agg = KvMetricsAggregator::new("svc".to_string());
    assert!(agg.get_endpoints().endpoints.is_empty());
    agg.update(ProcessedEndpoints::new(vec![endpoint(1, 1, 2, 3, 4), endpoint(2, 0, 1, 0, 1)]));
    let snap = agg.get_endpoints();
    assert_eq!(snap.endpoints.len(), 2);
    assert_eq!(snap.endpoints[0].worker_id, 1);
    assert_eq!(snap.endpoints[0].data, ForwardPassMetrics::new(1, 2, 3, 4));
    assert_eq!(snap.worker_ids(), vec![1, 2]);
    assert_eq!(snap.kv_active_blocks_total(), 3);
}

#[test]
fn preprocessed_request_annotations() {
    let mut req = kv_router::preprocessor::PreprocessedRequest::new(vec![1, 2]);
    assert!(!req.has_annotation("formatted_prompt"));
    req.annotations.push("formatted_prompt".to_string());
    assert!(req.has_annotation("formatted_prompt"));
    assert!(!req.has_annotation("token_ids"));
}

#[test]
fn removing_a_worker_forgets_its_blocks() {
    let (a, b) = ([1u32, 1, 1, 1], [2u32, 2, 2, 2]);
    let mut router = KvRouter::new("svc".to_string(), 4, 0);
    router.apply_event(&stored(1, &[(11, h(&a)), (12, h(&b))])).unwrap();
    router.apply_event(&stored(2, &[(21, h(&a))])).unwrap();
    router.remove_worker(1);
    router.update_endpoints(
        ProcessedEndpoints::new(vec![endpoint(1, 0, 10, 0, 100), endpoint(2, 0, 10, 0, 100)]),
        0,
    );
    let request: Vec<u32> = a.iter().chain(b.iter()).cloned().collect();
    assert_eq!(router.schedule(&request, 1).unwrap().worker_id, 2);
    let mut indexer = KvIndexer::new(4);
    indexer.apply_event(&stored(1, &[(11, h(&a))])).unwrap();
    indexer.remove_worker(1);
    assert!(indexer.find_matches_for_request(&request).scores.is_empty());
}
