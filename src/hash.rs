use vstd::prelude::*;

verus! {

/// Number of tokens in one KV cache block.
pub const KV_BLOCK_SIZE: usize = 64;

/// Starting value of the 64-bit FNV-1a hash.
pub const FNV_OFFSET_BASIS: u64 = 0xcbf29ce484222325;

/// Multiplier of the 64-bit FNV-1a hash.
pub const FNV_PRIME: u64 = 0x100000001b3;

/// One FNV-1a round: fold one byte into the running hash.
pub open spec fn fnv_round(h: u64, byte: u64) -> u64 {
    vstd::wrapping::u64_specs::wrapping_mul(h ^ byte, FNV_PRIME)
}

/// Fold the four little-endian bytes of a token into the running hash.
pub open spec fn fold_token(h: u64, t: u32) -> u64 {
    let t = t as u64;
    fnv_round(
        fnv_round(fnv_round(fnv_round(h, t & 0xff), (t >> 8u64) & 0xff), (t >> 16u64) & 0xff),
        (t >> 24u64) & 0xff,
    )
}

/// The hash of a run of tokens: FNV-1a over the little-endian bytes of each token in order.
pub open spec fn block_hash_of(tokens: Seq<u32>) -> u64
    decreases tokens.len(),
{
    if tokens.len() == 0 {
        FNV_OFFSET_BASIS
    } else {
        fold_token(block_hash_of(tokens.drop_last()), tokens.last())
    }
}

/// The hashes of the complete blocks of `tokens`, in order; a trailing partial block is left out.
pub open spec fn block_hashes_of(tokens: Seq<u32>, block_size: nat) -> Seq<u64>
    recommends
        block_size > 0,
{
    Seq::new(
        tokens.len() / block_size,
        |i: int| block_hash_of(tokens.subrange(i * block_size, i * block_size + block_size)),
    )
}

/// The block hash depends on the tokens alone: equal token runs hash equally, whichever
/// process computes them.
pub proof fn lemma_block_hash_deterministic(a: Seq<u32>, b: Seq<u32>)
    requires
        a == b,
    ensures
        block_hash_of(a) == block_hash_of(b),
{
}

fn fold_token_exec(h: u64, t: u32) -> (r: u64)
    ensures
        r == fold_token(h, t),
{
    let t64 = t as u64;
    let h1 = (h ^ (t64 & 0xff)).wrapping_mul(FNV_PRIME);
    let h2 = (h1 ^ ((t64 >> 8u64) & 0xff)).wrapping_mul(FNV_PRIME);
    let h3 = (h2 ^ ((t64 >> 16u64) & 0xff)).wrapping_mul(FNV_PRIME);
    (h3 ^ ((t64 >> 24u64) & 0xff)).wrapping_mul(FNV_PRIME)
}

/// Hash of `tokens[start..end]`.
fn hash_token_range(tokens: &[u32], start: usize, end: usize) -> (r: u64)
    requires
        start <= end <= tokens@.len(),
    ensures
        r == block_hash_of(tokens@.subrange(start as int, end as int)),
{
    let mut h: u64 = FNV_OFFSET_BASIS;
    let mut i: usize = start;
    proof {
        assert(tokens@.subrange(start as int, start as int).len() == 0);
    }
    while i < end
        invariant
            start <= i <= end <= tokens@.len(),
            h == block_hash_of(tokens@.subrange(start as int, i as int)),
        decreases end - i,
    {
        proof {
            let s = tokens@.subrange(start as int, i as int + 1);
            assert(s.drop_last() =~= tokens@.subrange(start as int, i as int));
            assert(s.last() == tokens@[i as int]);
        }
        h = fold_token_exec(h, tokens[i]);
        i = i + 1;
    }
    h
}

/// Hash one block of tokens. Workers and the indexer must agree on this function: it is
/// FNV-1a over the little-endian bytes of the tokens, and depends on nothing but them.
pub fn compute_block_hash(tokens: &[u32]) -> (r: u64)
    ensures
        r == block_hash_of(tokens@),
{
    let r = hash_token_range(tokens, 0, tokens.len());
    proof {
        assert(tokens@.subrange(0, tokens@.len() as int) =~= tokens@);
    }
    r
}

/// Hash every complete block of `tokens`; a trailing partial block is not hashed.
pub fn compute_block_hash_for_seq(tokens: &[u32], block_size: usize) -> (r: Vec<u64>)
    requires
        block_size > 0,
    ensures
        r@ == block_hashes_of(tokens@, block_size as nat),
{
    let len: usize = tokens.len();
    let n: usize = len / block_size;
    let mut out: Vec<u64> = Vec::new();
    let mut i: usize = 0;
    while i < n
        invariant
            block_size > 0,
            len == tokens@.len(),
            n == tokens@.len() / (block_size as nat),
            i <= n,
            out@.len() == i,
            forall|k: int|
                0 <= k < i ==> out@[k] == block_hash_of(
                    #[trigger] tokens@.subrange(
                        k * block_size,
                        k * block_size + block_size,
                    ),
                ),
        decreases n - i,
    {
        proof {
            assert((i as int + 1) * (block_size as int) <= n * (block_size as int)) by (nonlinear_arith)
                requires
                    i < n,
                    block_size > 0,
            ;
            assert(n * (block_size as int) <= tokens@.len()) by (nonlinear_arith)
                requires
                    n == tokens@.len() / (block_size as nat),
                    block_size > 0,
            ;
            assert((i as int + 1) * (block_size as int) == i * block_size + block_size) by (nonlinear_arith);
            assert(i * block_size + block_size <= len);
        }
        let start: usize = i * block_size;
        let h = hash_token_range(tokens, start, start + block_size);
        out.push(h);
        i = i + 1;
    }
    proof {
        assert(out@ =~= block_hashes_of(tokens@, block_size as nat));
    }
    out
}

} // verus!
