use vstd::prelude::*;

use std::collections::HashMap;

use crate::hash::{block_hashes_of, compute_block_hash_for_seq};
use crate::kv_events::{
    external_hashes, tokens_hashes, KvCacheEventData, KvCacheStoredBlockData, RouterEvent,
    WorkerId,
};

verus! {

broadcast use vstd::std_specs::hash::group_hash_axioms;

/// What the index holds: for a path of token hashes from the root of the trie and a worker,
/// the worker's handle (external hash) of the block at the end of that path.
pub type Residency = Map<(Seq<u64>, WorkerId), u64>;

/// `k` is one of the nodes that a `Stored` event of worker `w` with these token hashes visits:
/// a non-empty prefix of `hashes`, for worker `w`.
pub open spec fn visited_by_store(hashes: Seq<u64>, w: WorkerId, k: (Seq<u64>, WorkerId)) -> bool {
    &&& k.1 == w
    &&& 1 <= k.0.len() <= hashes.len()
    &&& k.0 == hashes.take(k.0.len() as int)
}

/// The residency after worker `w` stored blocks with these token hashes and handles: each
/// visited node holds `w` with the handle of the block at that depth, overwriting an older one.
pub open spec fn after_stored(m: Residency, w: WorkerId, hashes: Seq<u64>, exts: Seq<u64>) -> Residency {
    Map::new(
        |k: (Seq<u64>, WorkerId)| m.contains_key(k) || visited_by_store(hashes, w, k),
        |k: (Seq<u64>, WorkerId)|
            if visited_by_store(hashes, w, k) {
                exts[k.0.len() - 1]
            } else {
                m[k]
            },
    )
}

/// The residency after worker `w` removed the blocks whose handles are in `xs`.
pub open spec fn after_removed(m: Residency, w: WorkerId, xs: Seq<u64>) -> Residency {
    Map::new(
        |k: (Seq<u64>, WorkerId)| m.contains_key(k) && !(k.1 == w && xs.contains(m[k])),
        |k: (Seq<u64>, WorkerId)| m[k],
    )
}

/// The entry `k` with handle `e` goes when worker `w` removes `handles`; with no list, every
/// entry of `w` goes.
pub open spec fn removed_by(w: WorkerId, handles: Option<Seq<u64>>, k: (Seq<u64>, WorkerId), e: u64) -> bool {
    k.1 == w && match handles {
        Some(xs) => xs.contains(e),
        None => true,
    }
}

/// The residency after every entry of worker `w` was dropped.
pub open spec fn after_worker_removed(m: Residency, w: WorkerId) -> Residency {
    Map::new(|k: (Seq<u64>, WorkerId)| m.contains_key(k) && k.1 != w, |k: (Seq<u64>, WorkerId)| m[k])
}

/// The residency without the entries that `removed_by` picks.
pub open spec fn after_removal(m: Residency, w: WorkerId, handles: Option<Seq<u64>>) -> Residency {
    Map::new(
        |k: (Seq<u64>, WorkerId)| m.contains_key(k) && !removed_by(w, handles, k, m[k]),
        |k: (Seq<u64>, WorkerId)| m[k],
    )
}

/// The residency after applying an event.
pub open spec fn after_event(m: Residency, event: RouterEvent) -> Residency {
    match event.event.data {
        KvCacheEventData::Stored(s) => if s.blocks.len() == 0 {
            m
        } else {
            after_stored(m, event.worker_id, tokens_hashes(s.blocks@), external_hashes(s.blocks@))
        },
        KvCacheEventData::Removed(r) => after_removed(m, event.worker_id, r.block_hashes@),
    }
}

/// Number of depths `1..=d` along `hashes` at which worker `w` holds the block.
pub open spec fn overlap_count(m: Residency, hashes: Seq<u64>, w: WorkerId, d: nat) -> nat
    decreases d,
{
    if d == 0 {
        0
    } else {
        overlap_count(m, hashes, w, (d - 1) as nat) + if m.contains_key(
            (hashes.take(d as int), w),
        ) {
            1nat
        } else {
            0nat
        }
    }
}

/// The overlap score of each worker for a request whose blocks hash to `hashes`: the number of
/// its leading blocks that the worker holds. Workers that hold none of them are absent.
pub open spec fn overlap_scores_of(m: Residency, hashes: Seq<u64>) -> Map<WorkerId, u32> {
    Map::new(
        |w: WorkerId| overlap_count(m, hashes, w, hashes.len()) > 0,
        |w: WorkerId| overlap_count(m, hashes, w, hashes.len()) as u32,
    )
}

/// The node at `p` exists: some worker holds the block at the end of that path.
pub open spec fn node_exists(m: Residency, p: Seq<u64>) -> bool {
    exists|w: WorkerId| m.contains_key((p, w))
}

pub proof fn lemma_overlap_count_bounded(m: Residency, hashes: Seq<u64>, w: WorkerId, d: nat)
    ensures
        overlap_count(m, hashes, w, d) <= d,
    decreases d,
{
    if d > 0 {
        lemma_overlap_count_bounded(m, hashes, w, (d - 1) as nat);
    }
}

/// Overlap scores of the workers for one request.
#[derive(Clone, Debug)]
pub struct OverlapScores {
    /// Worker id to the number of leading request blocks that the worker holds.
    pub scores: HashMap<WorkerId, u32>,
}

/// Errors that the indexer reports for an event it drops.
#[derive(Clone, Copy, Debug, PartialEq, Eq, Structural)]
pub enum KvIndexerError {
    /// A `Stored` event that carries no block.
    EmptyStoredEvent,
}

/// One worker holding one block: the path of token hashes from the root to the block's node.
struct BlockResident {
    path: Vec<u64>,
    worker_id: WorkerId,
    external_hash: u64,
}

spec fn key_of(r: BlockResident) -> (Seq<u64>, WorkerId) {
    (r.path@, r.worker_id)
}

/// One of the first `n` records is worker `w` at the node `p`.
spec fn held_in(res: Seq<BlockResident>, n: int, p: Seq<u64>, w: WorkerId) -> bool {
    exists|j: int| 0 <= j < n && #[trigger] key_of(res[j]) == (p, w)
}

/// A prefix trie over block token hashes that tracks which worker holds which block.
///
/// The nodes are stored as an arena of residency records, one per (node, worker) pair; a node
/// is identified by its path of token hashes from the root, and exists while a worker holds it.
pub struct KvIndexer {
    kv_block_size: usize,
    residents: Vec<BlockResident>,
    residency: Ghost<Residency>,
}

impl View for KvIndexer {
    type V = Residency;

    closed spec fn view(&self) -> Residency {
        self.residency@
    }
}

fn copy_u64s(v: &Vec<u64>) -> (r: Vec<u64>)
    ensures
        r@ == v@,
{
    let mut out: Vec<u64> = Vec::new();
    let mut i: usize = 0;
    while i < v.len()
        invariant
            i <= v@.len(),
            out@ == v@.take(i as int),
        decreases v@.len() - i,
    {
        out.push(v[i]);
        i = i + 1;
        proof {
            assert(out@ =~= v@.take(i as int));
        }
    }
    proof {
        assert(v@.take(v@.len() as int) =~= v@);
    }
    out
}

fn same_u64s(a: &Vec<u64>, b: &Vec<u64>) -> (r: bool)
    ensures
        r == (a@ == b@),
{
    if a.len() != b.len() {
        return false;
    }
    let mut i: usize = 0;
    while i < a.len()
        invariant
            a@.len() == b@.len(),
            i <= a@.len(),
            forall|j: int| 0 <= j < i ==> a@[j] == b@[j],
        decreases a@.len() - i,
    {
        if a[i] != b[i] {
            return false;
        }
        i = i + 1;
    }
    proof {
        assert(a@ =~= b@);
    }
    true
}

/// `path` equals the first `d` entries of `seq`.
fn is_prefix_path(path: &Vec<u64>, seq: &Vec<u64>, d: usize) -> (r: bool)
    requires
        d <= seq@.len(),
    ensures
        r == (path@ == seq@.take(d as int)),
{
    if path.len() != d {
        return false;
    }
    let mut i: usize = 0;
    while i < d
        invariant
            path@.len() == d,
            d <= seq@.len(),
            i <= d,
            forall|j: int| 0 <= j < i ==> path@[j] == seq@[j],
        decreases d - i,
    {
        if path[i] != seq[i] {
            proof {
                assert(seq@.take(d as int)[i as int] == seq@[i as int]);
            }
            return false;
        }
        i = i + 1;
    }
    proof {
        assert(path@ =~= seq@.take(d as int));
    }
    true
}

fn contains_u64(xs: &Vec<u64>, v: u64) -> (r: bool)
    ensures
        r == xs@.contains(v),
{
    let mut i: usize = 0;
    while i < xs.len()
        invariant
            i <= xs@.len(),
            forall|j: int| 0 <= j < i ==> xs@[j] != v,
        decreases xs@.len() - i,
    {
        if xs[i] == v {
            proof {
                assert(xs@[i as int] == v);
            }
            return true;
        }
        i = i + 1;
    }
    false
}

fn copy_resident(r: &BlockResident) -> (c: BlockResident)
    ensures
        key_of(c) == key_of(*r),
        c.external_hash == r.external_hash,
{
    BlockResident { path: copy_u64s(&r.path), worker_id: r.worker_id, external_hash: r.external_hash }
}

impl KvIndexer {
    /// The records and the residency agree, and each (node, worker) pair has one record.
    pub closed spec fn wf(&self) -> bool {
        &&& self.kv_block_size > 0
        &&& forall|i: int|
            0 <= i < self.residents@.len() ==> {
                &&& self.residency@.contains_key(#[trigger] key_of(self.residents@[i]))
                &&& self.residency@[key_of(self.residents@[i])] == self.residents@[i].external_hash
            }
        &&& forall|k: (Seq<u64>, WorkerId)|
            #[trigger] self.residency@.contains_key(k) ==> exists|i: int|
                0 <= i < self.residents@.len() && key_of(self.residents@[i]) == k
        &&& forall|i: int, j: int|
            0 <= i < self.residents@.len() && 0 <= j < self.residents@.len() && key_of(
                #[trigger] self.residents@[i],
            ) == key_of(#[trigger] self.residents@[j]) ==> i == j
    }

    pub closed spec fn spec_block_size(&self) -> nat {
        self.kv_block_size as nat
    }

    /// An empty index for blocks of `kv_block_size` tokens.
    pub fn new(kv_block_size: usize) -> (r: KvIndexer)
        requires
            kv_block_size > 0,
        ensures
            r.wf(),
            r@ == Map::<(Seq<u64>, WorkerId), u64>::empty(),
            r.spec_block_size() == kv_block_size,
    {
        KvIndexer {
            kv_block_size,
            residents: Vec::new(),
            residency: Ghost(Map::empty()),
        }
    }

    /// Number of tokens in one block.
    pub fn block_size(&self) -> (r: usize)
        ensures
            r == self.spec_block_size(),
    {
        self.kv_block_size
    }

    /// Record that `worker_id` holds the block at `path`, with handle `external_hash`.
    fn upsert(&mut self, path: &Vec<u64>, worker_id: WorkerId, external_hash: u64)
        requires
            old(self).wf(),
        ensures
            final(self).wf(),
            final(self)@ == old(self)@.insert((path@, worker_id), external_hash),
            final(self).kv_block_size == old(self).kv_block_size,
    {
        let ghost key: (Seq<u64>, WorkerId) = (path@, worker_id);
        let mut j: usize = 0;
        while j < self.residents.len()
            invariant
                self.wf(),
                self.residency@ == old(self).residency@,
                self.residents@ == old(self).residents@,
                self.kv_block_size == old(self).kv_block_size,
                key == (path@, worker_id),
                j <= self.residents@.len(),
                forall|i: int| 0 <= i < j ==> key_of(#[trigger] self.residents@[i]) != key,
            decreases self.residents@.len() - j,
        {
            if self.residents[j].worker_id == worker_id && same_u64s(&self.residents[j].path, path) {
                let r = BlockResident { path: copy_u64s(path), worker_id, external_hash };
                self.residents.set(j, r);
                self.residency = Ghost(self.residency@.insert(key, external_hash));
                proof {
                    assert(key_of(self.residents@[j as int]) == key);
                    assert forall|i: int| 0 <= i < self.residents@.len() && i != j implies key_of(
                        #[trigger] self.residents@[i],
                    ) != key by {
                        assert(self.residents@[i] == old(self).residents@[i]);
                    }
                    assert forall|k: (Seq<u64>, WorkerId)| #[trigger]
                        self.residency@.contains_key(k) implies exists|i: int|
                        0 <= i < self.residents@.len() && key_of(self.residents@[i]) == k by {
                        if k != key {
                            let i = choose|i: int|
                                0 <= i < old(self).residents@.len() && key_of(
                                    old(self).residents@[i],
                                ) == k;
                            assert(key_of(self.residents@[i]) == k);
                        }
                    }
                }
                return;
            }
            j = j + 1;
        }
        let r = BlockResident { path: copy_u64s(path), worker_id, external_hash };
        self.residents.push(r);
        self.residency = Ghost(self.residency@.insert(key, external_hash));
        proof {
            let n = self.residents@.len() - 1;
            assert(key_of(self.residents@[n]) == key);
            assert(!old(self).residency@.contains_key(key));
            assert forall|i: int| 0 <= i < n implies #[trigger] self.residents@[i] == old(
                self,
            ).residents@[i] by {}
            assert forall|k: (Seq<u64>, WorkerId)| #[trigger]
                self.residency@.contains_key(k) implies exists|i: int|
                0 <= i < self.residents@.len() && key_of(self.residents@[i]) == k by {
                if k != key {
                    let i = choose|i: int|
                        0 <= i < old(self).residents@.len() && key_of(old(self).residents@[i]) == k;
                    assert(key_of(self.residents@[i]) == k);
                } else {
                    assert(key_of(self.residents@[n]) == k);
                }
            }
        }
    }

    /// Apply a `Stored` event of `worker_id`: walk down from the root along the blocks' token
    /// hashes, creating nodes as needed, and record the worker at each node with the block's
    /// handle.
    fn apply_stored(&mut self, worker_id: WorkerId, blocks: &Vec<KvCacheStoredBlockData>)
        requires
            old(self).wf(),
        ensures
            final(self).wf(),
            final(self)@ == after_stored(
                old(self)@,
                worker_id,
                tokens_hashes(blocks@),
                external_hashes(blocks@),
            ),
            final(self).kv_block_size == old(self).kv_block_size,
    {
        let ghost hashes = tokens_hashes(blocks@);
        let ghost exts = external_hashes(blocks@);
        let ghost m0 = self.residency@;
        let mut path: Vec<u64> = Vec::new();
        let mut k: usize = 0;
        proof {
            assert(after_stored(m0, worker_id, hashes.take(0), exts.take(0)) =~= m0);
        }
        while k < blocks.len()
            invariant
                self.wf(),
                self.kv_block_size == old(self).kv_block_size,
                hashes == tokens_hashes(blocks@),
                exts == external_hashes(blocks@),
                hashes.len() == blocks@.len(),
                exts.len() == blocks@.len(),
                k <= blocks@.len(),
                path@ == hashes.take(k as int),
                self.residency@ == after_stored(
                    m0,
                    worker_id,
                    hashes.take(k as int),
                    exts.take(k as int),
                ),
            decreases blocks@.len() - k,
        {
            path.push(blocks[k].tokens_hash);
            let ext = blocks[k].block_hash;
            proof {
                assert(path@ =~= hashes.take(k + 1));
            }
            let ghost before = self.residency@;
            self.upsert(&path, worker_id, ext);
            proof {
                let h0 = hashes.take(k as int);
                let h1 = hashes.take(k + 1);
                let e0 = exts.take(k as int);
                let e1 = exts.take(k + 1);
                assert forall|kk: (Seq<u64>, WorkerId)|
                    visited_by_store(h1, worker_id, kk) && kk.0.len() <= k implies
                    #[trigger] visited_by_store(h0, worker_id, kk) by {
                    assert(h1.take(kk.0.len() as int) =~= h0.take(kk.0.len() as int));
                }
                assert forall|kk: (Seq<u64>, WorkerId)| #[trigger]
                    visited_by_store(h0, worker_id, kk) implies visited_by_store(
                    h1,
                    worker_id,
                    kk,
                ) by {
                    assert(h1.take(kk.0.len() as int) =~= h0.take(kk.0.len() as int));
                }
                assert(visited_by_store(h1, worker_id, (h1, worker_id))) by {
                    assert(h1.take(h1.len() as int) =~= h1);
                }
                assert forall|kk: (Seq<u64>, WorkerId)|
                    visited_by_store(h1, worker_id, kk) && kk.0.len() == k + 1 implies kk == (
                    h1,
                    worker_id,
                ) by {
                    assert(h1.take(kk.0.len() as int) =~= h1);
                }
                assert(after_stored(m0, worker_id, h1, e1) =~= before.insert((h1, worker_id), ext));
            }
            k = k + 1;
        }
        proof {
            assert(hashes.take(k as int) =~= hashes);
            assert(exts.take(k as int) =~= exts);
        }
    }

    /// Drop the entries of `worker_id` whose handle is in `block_hashes`, or all of its entries
    /// when no list is given.
    fn remove_entries(&mut self, worker_id: WorkerId, block_hashes: Option<&Vec<u64>>)
        requires
            old(self).wf(),
        ensures
            final(self).wf(),
            final(self)@ == after_removal(
                old(self)@,
                worker_id,
                match block_hashes {
                    Some(xs) => Some(xs@),
                    None => None,
                },
            ),
            final(self).kv_block_size == old(self).kv_block_size,
    {
        let ghost m0 = self.residency@;
        let ghost handles = match block_hashes {
            Some(xs) => Some(xs@),
            None => None::<Seq<u64>>,
        };
        let ghost target = after_removal(m0, worker_id, handles);
        let mut kept: Vec<BlockResident> = Vec::new();
        let ghost mut kept_map: Residency = Map::empty();
        let mut i: usize = 0;
        while i < self.residents.len()
            invariant
                self.wf(),
                self.residency@ == m0,
                handles == match block_hashes {
                    Some(xs) => Some(xs@),
                    None => None::<Seq<u64>>,
                },
                target == after_removal(m0, worker_id, handles),
                i <= self.residents@.len(),
                forall|a: int|
                    0 <= a < kept@.len() ==> {
                        &&& kept_map.contains_key(#[trigger] key_of(kept@[a]))
                        &&& kept_map[key_of(kept@[a])] == kept@[a].external_hash
                    },
                forall|k: (Seq<u64>, WorkerId)| #[trigger]
                    kept_map.contains_key(k) ==> exists|a: int|
                        0 <= a < kept@.len() && key_of(kept@[a]) == k,
                forall|a: int, b: int|
                    0 <= a < kept@.len() && 0 <= b < kept@.len() && key_of(#[trigger] kept@[a])
                        == key_of(#[trigger] kept@[b]) ==> a == b,
                forall|k: (Seq<u64>, WorkerId)| #[trigger]
                    kept_map.contains_key(k) ==> target.contains_key(k) && kept_map[k] == target[k]
                        && exists|j: int| 0 <= j < i && key_of(self.residents@[j]) == k,
                forall|j: int|
                    0 <= j < i && #[trigger] target.contains_key(key_of(self.residents@[j]))
                        ==> kept_map.contains_key(key_of(self.residents@[j])),
            decreases self.residents@.len() - i,
        {
            let r = &self.residents[i];
            let drop = r.worker_id == worker_id && match block_hashes {
                Some(xs) => contains_u64(xs, r.external_hash),
                None => true,
            };
            proof {
                assert(m0.contains_key(key_of(self.residents@[i as int])));
                assert(target.contains_key(key_of(self.residents@[i as int])) == !drop);
            }
            if !drop {
                let c = copy_resident(r);
                proof {
                    let k = key_of(c);
                    if kept_map.contains_key(k) {
                        let j = choose|j: int| 0 <= j < i && key_of(self.residents@[j]) == k;
                        assert(key_of(self.residents@[j]) == key_of(self.residents@[i as int]));
                    }
                    kept_map = kept_map.insert(k, c.external_hash);
                }
                let ghost old_kept = kept@;
                kept.push(c);
                proof {
                    let n = kept@.len() - 1;
                    assert forall|k: (Seq<u64>, WorkerId)| #[trigger]
                        kept_map.contains_key(k) implies exists|a: int|
                        0 <= a < kept@.len() && key_of(kept@[a]) == k by {
                        if k == key_of(kept@[n]) {
                            assert(key_of(kept@[n]) == k);
                        } else {
                            let a = choose|a: int|
                                0 <= a < old_kept.len() && key_of(old_kept[a]) == k;
                            assert(kept@[a] == old_kept[a]);
                            assert(key_of(kept@[a]) == k);
                        }
                    }
                    assert forall|k: (Seq<u64>, WorkerId)| #[trigger]
                        kept_map.contains_key(k) implies target.contains_key(k) && kept_map[k]
                        == target[k] && exists|j: int|
                        0 <= j < i + 1 && key_of(self.residents@[j]) == k by {
                        if k == key_of(kept@[n]) {
                            assert(key_of(self.residents@[i as int]) == k);
                        } else {
                            let j = choose|j: int| 0 <= j < i && key_of(self.residents@[j]) == k;
                            assert(key_of(self.residents@[j]) == k);
                        }
                    }
                }
            } else {
                proof {
                    assert forall|k: (Seq<u64>, WorkerId)| #[trigger]
                        kept_map.contains_key(k) implies target.contains_key(k) && kept_map[k]
                        == target[k] && exists|j: int|
                        0 <= j < i + 1 && key_of(self.residents@[j]) == k by {
                        let j = choose|j: int| 0 <= j < i && key_of(self.residents@[j]) == k;
                        assert(key_of(self.residents@[j]) == k);
                    }
                }
            }
            i = i + 1;
        }
        proof {
            assert forall|k: (Seq<u64>, WorkerId)| #[trigger]
                target.contains_key(k) implies kept_map.contains_key(k) by {
                assert(m0.contains_key(k));
                let j = choose|j: int|
                    0 <= j < self.residents@.len() && key_of(self.residents@[j]) == k;
                assert(target.contains_key(key_of(self.residents@[j])));
            }
            assert(kept_map =~= target);
        }
        let ghost final_kept = kept@;
        proof {
            assert(forall|k: (Seq<u64>, WorkerId)|
            #[trigger] kept_map.contains_key(k) ==> exists|i: int|
                0 <= i < final_kept.len() && key_of(final_kept[i]) == k);
        }
        self.residents = kept;
        self.residency = Ghost(kept_map);
        proof {
            assert(self.residents@ == final_kept);
        }
    }

    /// Overlap scores for a request whose complete blocks hash to `sequence`: walking down from
    /// the root along `sequence`, each worker scores one for every depth at which it holds the
    /// block.
    pub fn find_matches(&self, sequence: &Vec<u64>) -> (r: OverlapScores)
        requires
            self.wf(),
            sequence@.len() <= u32::MAX,
        ensures
            r.scores@ == overlap_scores_of(self@, sequence@),
    {
        let mut scores: HashMap<WorkerId, u32> = HashMap::new();
        let mut d: usize = 0;
        while d < sequence.len()
            invariant
                self.wf(),
                d <= sequence@.len() <= u32::MAX,
                forall|w: WorkerId| #[trigger]
                    scores@.contains_key(w) <==> overlap_count(self@, sequence@, w, d as nat) > 0,
                forall|w: WorkerId| #[trigger]
                    scores@.contains_key(w) ==> scores@[w] == overlap_count(
                        self@,
                        sequence@,
                        w,
                        d as nat,
                    ),
            decreases sequence@.len() - d,
        {
            let depth: usize = d + 1;
            let ghost prefix = sequence@.take(depth as int);
            let ghost base = scores@;
            let mut i: usize = 0;
            while i < self.residents.len()
                invariant
                    self.wf(),
                    depth == d + 1,
                    depth <= sequence@.len() <= u32::MAX,
                    prefix == sequence@.take(depth as int),
                    i <= self.residents@.len(),
                    forall|w: WorkerId| #[trigger]
                        base.contains_key(w) <==> overlap_count(self@, sequence@, w, d as nat) > 0,
                    forall|w: WorkerId| #[trigger]
                        base.contains_key(w) ==> base[w] == overlap_count(
                            self@,
                            sequence@,
                            w,
                            d as nat,
                        ),
                    forall|w: WorkerId| #[trigger]
                        scores@.contains_key(w) <==> (base.contains_key(w) || held_in(self.residents@, i as int, prefix, w)),
                    forall|w: WorkerId| #[trigger]
                        scores@.contains_key(w) ==> scores@[w] == overlap_count(
                            self@,
                            sequence@,
                            w,
                            d as nat,
                        ) + if held_in(self.residents@, i as int, prefix, w) {
                            1nat
                        } else {
                            0nat
                        },
                decreases self.residents@.len() - i,
            {
                if is_prefix_path(&self.residents[i].path, sequence, depth) {
                    let w = self.residents[i].worker_id;
                    proof {
                        assert(key_of(self.residents@[i as int]) == (prefix, w));
                        if held_in(self.residents@, i as int, prefix, w) {
                            let j = choose|j: int|
                                0 <= j < i && key_of(self.residents@[j]) == (prefix, w);
                            assert(key_of(self.residents@[j]) == key_of(self.residents@[i as int]));
                        }
                        lemma_overlap_count_bounded(self@, sequence@, w, d as nat);
                    }
                    let cur: u32 = match scores.get(&w) {
                        Some(v) => *v,
                        None => 0,
                    };
                    scores.insert(w, cur + 1);
                    proof {
                        assert forall|w2: WorkerId| w2 != w implies #[trigger] held_in(
                            self.residents@,
                            i + 1,
                            prefix,
                            w2,
                        ) == held_in(self.residents@, i as int, prefix, w2) by {
                            if held_in(self.residents@, i + 1, prefix, w2) {
                                let j = choose|j: int|
                                    0 <= j < i + 1 && key_of(self.residents@[j]) == (prefix, w2);
                                assert(j != i);
                            }
                        }
                        assert(key_of(self.residents@[i as int]) == (prefix, w));
                        assert(held_in(self.residents@, i + 1, prefix, w));
                        assert(key_of(self.residents@[i as int]) == (prefix, w));
                    }
                } else {
                    proof {
                        assert forall|w2: WorkerId| #[trigger] held_in(
                            self.residents@,
                            i + 1,
                            prefix,
                            w2,
                        ) == held_in(self.residents@, i as int, prefix, w2) by {
                            if held_in(self.residents@, i + 1, prefix, w2) {
                                let j = choose|j: int|
                                    0 <= j < i + 1 && key_of(self.residents@[j]) == (prefix, w2);
                                assert(j != i);
                            }
                        }
                    }
                }
                i = i + 1;
            }
            proof {
                assert forall|w: WorkerId| #[trigger] held_in(
                    self.residents@,
                    self.residents@.len() as int,
                    prefix,
                    w,
                ) == self@.contains_key((prefix, w)) by {
                    if self@.contains_key((prefix, w)) {
                        let j = choose|j: int|
                            0 <= j < self.residents@.len() && key_of(self.residents@[j]) == (
                            prefix,
                            w,
                        );
                        assert(key_of(self.residents@[j]) == (prefix, w));
                    }
                }
                assert forall|w: WorkerId|
                    overlap_count(self@, sequence@, w, depth as nat) == overlap_count(
                        self@,
                        sequence@,
                        w,
                        d as nat,
                    ) + (if #[trigger] self@.contains_key((prefix, w)) {
                        1nat
                    } else {
                        0nat
                    }) by {}
            }
            d = depth;
        }
        proof {
            assert(scores@ =~= overlap_scores_of(self@, sequence@));
        }
        OverlapScores { scores }
    }

    /// Overlap scores for a request given as tokens: its complete blocks are hashed and matched.
    pub fn find_matches_for_request(&self, tokens: &[u32]) -> (r: OverlapScores)
        requires
            self.wf(),
            tokens@.len() <= u32::MAX,
        ensures
            r.scores@ == overlap_scores_of(
                self@,
                block_hashes_of(tokens@, self.spec_block_size()),
            ),
    {
        let sequence = compute_block_hash_for_seq(tokens, self.kv_block_size);
        proof {
            assert(sequence@.len() <= tokens@.len()) by (nonlinear_arith)
                requires
                    sequence@.len() == tokens@.len() / (self.kv_block_size as nat),
                    self.kv_block_size > 0,
            ;
        }
        self.find_matches(&sequence)
    }

    /// Drop every entry of `worker_id`, as when the worker's event stream ends.
    pub fn remove_worker(&mut self, worker_id: WorkerId)
        requires
            old(self).wf(),
        ensures
            final(self).wf(),
            final(self).spec_block_size() == old(self).spec_block_size(),
            final(self)@ == after_worker_removed(old(self)@, worker_id),
    {
        self.remove_entries(worker_id, None);
        proof {
            assert(self@ =~= after_worker_removed(old(self)@, worker_id));
        }
    }

    /// Apply one event of a worker to the index. A `Stored` event without blocks is dropped
    /// and reported; every other event is applied.
    pub fn apply_event(&mut self, event: &RouterEvent) -> (r: Result<(), KvIndexerError>)
        requires
            old(self).wf(),
        ensures
            final(self).wf(),
            final(self).spec_block_size() == old(self).spec_block_size(),
            final(self)@ == after_event(old(self)@, *event),
            r is Err <==> (match event.event.data {
                KvCacheEventData::Stored(s) => s.blocks.len() == 0,
                KvCacheEventData::Removed(_) => false,
            }),
            r is Err ==> r == Err::<(), KvIndexerError>(KvIndexerError::EmptyStoredEvent),
    {
        match &event.event.data {
            KvCacheEventData::Stored(s) => {
                if s.blocks.len() == 0 {
                    return Err(KvIndexerError::EmptyStoredEvent);
                }
                self.apply_stored(event.worker_id, &s.blocks);
            },
            KvCacheEventData::Removed(r) => {
                self.remove_entries(event.worker_id, Some(&r.block_hashes));
                proof {
                    assert(self@ =~= after_removed(old(self)@, event.worker_id, r.block_hashes@));
                }
            },
        }
        Ok(())
    }
}

} // verus!

verus! {

proof fn lemma_overlap_count_full(m: Residency, hashes: Seq<u64>, w: WorkerId, stored: Seq<u64>, d: nat)
    requires
        stored.len() <= hashes.len(),
        hashes.take(stored.len() as int) == stored,
        forall|k: (Seq<u64>, WorkerId)| #[trigger] m.contains_key(k) <==> visited_by_store(stored, w, k),
        d <= hashes.len(),
    ensures
        overlap_count(m, hashes, w, d) == if d <= stored.len() { d } else { stored.len() as nat },
    decreases d,
{
    if d > 0 {
        lemma_overlap_count_full(m, hashes, w, stored, (d - 1) as nat);
        let p = hashes.take(d as int);
        if d <= stored.len() {
            assert(stored.take(d as int) =~= p);
            assert(visited_by_store(stored, w, (p, w)));
        } else {
            assert(!visited_by_store(stored, w, (p, w)));
        }
    }
}

/// Storing is idempotent: applying the same `Stored` event twice leaves the index as applying
/// it once does, so every overlap query answers the same.
pub proof fn lemma_stored_event_idempotent(m: Residency, event: RouterEvent, hashes: Seq<u64>)
    requires
        event.event.data is Stored,
    ensures
        after_event(after_event(m, event), event) == after_event(m, event),
        overlap_scores_of(after_event(after_event(m, event), event), hashes) == overlap_scores_of(
            after_event(m, event),
            hashes,
        ),
{
    if let KvCacheEventData::Stored(s) = event.event.data {
        if s.blocks.len() > 0 {
            let h = tokens_hashes(s.blocks@);
            let e = external_hashes(s.blocks@);
            let once = after_stored(m, event.worker_id, h, e);
            assert(after_stored(once, event.worker_id, h, e) =~= once);
        }
    }
}

/// A `Stored` event of worker `w` with blocks `B`, applied to an empty index, gives `w` an
/// overlap of exactly `|B|` for every request whose first `|B|` block hashes are those of `B`.
pub proof fn lemma_stored_event_overlap(event: RouterEvent, hashes: Seq<u64>)
    requires
        event.event.data is Stored,
        event.event.data->Stored_0.blocks.len() > 0,
        event.event.data->Stored_0.blocks.len() <= hashes.len(),
        hashes.take(event.event.data->Stored_0.blocks.len() as int) == tokens_hashes(
            event.event.data->Stored_0.blocks@,
        ),
        hashes.len() <= u32::MAX,
    ensures
        overlap_scores_of(after_event(Map::empty(), event), hashes).contains_key(event.worker_id),
        overlap_scores_of(after_event(Map::empty(), event), hashes)[event.worker_id]
            == event.event.data->Stored_0.blocks.len(),
{
    let s = event.event.data->Stored_0;
    let stored = tokens_hashes(s.blocks@);
    let m = after_event(Map::empty(), event);
    assert forall|k: (Seq<u64>, WorkerId)| #[trigger]
        m.contains_key(k) <==> visited_by_store(stored, event.worker_id, k) by {}
    lemma_overlap_count_full(m, hashes, event.worker_id, stored, hashes.len());
}

/// A `Removed` event of worker `w` with handles `X` detaches `w` from exactly the nodes where
/// its handle is in `X`, leaves every other entry as it was, and a node whose residents were all
/// removed no longer exists.
pub proof fn lemma_removed_event(m: Residency, event: RouterEvent, p: Seq<u64>, w: WorkerId)
    requires
        event.event.data is Removed,
    ensures
        ({
            let after = after_event(m, event);
            let xs = event.event.data->Removed_0.block_hashes@;
            &&& after.contains_key((p, w)) <==> (m.contains_key((p, w)) && !(w == event.worker_id
                && xs.contains(m[(p, w)])))
            &&& after.contains_key((p, w)) ==> after[(p, w)] == m[(p, w)]
            &&& (forall|v: WorkerId| #[trigger]
                m.contains_key((p, v)) ==> v == event.worker_id && xs.contains(m[(p, v)]))
                ==> !node_exists(after, p)
        }),
{
}

} // verus!

verus! {

/// No worker's overlap exceeds the number of complete blocks in the request.
pub proof fn lemma_overlap_at_most_blocks(m: Residency, hashes: Seq<u64>, w: WorkerId)
    requires
        hashes.len() <= u32::MAX,
    ensures
        overlap_scores_of(m, hashes).contains_key(w) ==> overlap_scores_of(m, hashes)[w]
            <= hashes.len(),
{
    lemma_overlap_count_bounded(m, hashes, w, hashes.len());
}

} // verus!
