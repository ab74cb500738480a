use vstd::prelude::*;

use std::collections::HashMap;

use crate::indexer::OverlapScores;
use crate::kv_events::WorkerId;
use crate::scoring::{Endpoint, ForwardPassMetrics};

verus! {

broadcast use vstd::std_specs::hash::group_hash_axioms;

/// Weight of the load pressure against the prefill cost, in prompt tokens: a worker with every
/// slot and every block in use (pressure 2) costs as much as this many times two extra tokens.
pub const LOAD_WEIGHT: u128 = 32;

/// Errors of worker selection.
#[derive(Clone, Copy, Debug, PartialEq, Eq, Structural)]
pub enum KvSchedulerError {
    /// No worker is a candidate for the request.
    NoWorkersAvailable,
}

pub open spec fn at_least_one(x: u64) -> int {
    if x == 0 {
        1
    } else {
        x as int
    }
}

/// Numerator of the load pressure `kv_active / max(1, kv_total) + request_active /
/// max(1, request_total)` over the denominator `pressure_den`.
pub open spec fn pressure_num(m: ForwardPassMetrics) -> int {
    m.kv_active_blocks * at_least_one(m.request_total_slots) + m.request_active_slots
        * at_least_one(m.kv_total_blocks)
}

/// Denominator of the load pressure: `max(1, kv_total) * max(1, request_total)`.
pub open spec fn pressure_den(m: ForwardPassMetrics) -> int {
    at_least_one(m.kv_total_blocks) * at_least_one(m.request_total_slots)
}

/// The load pressure of `a` is exactly below that of `b`.
pub open spec fn pressure_lt(a: ForwardPassMetrics, b: ForwardPassMetrics) -> bool {
    pressure_num(a) * pressure_den(b) < pressure_num(b) * pressure_den(a)
}

/// The load pressures of `a` and `b` are exactly equal.
pub open spec fn pressure_eq(a: ForwardPassMetrics, b: ForwardPassMetrics) -> bool {
    pressure_num(a) * pressure_den(b) == pressure_num(b) * pressure_den(a)
}

/// Tokens of the request that a worker holding `overlap` leading blocks still has to prefill.
pub open spec fn prefill_cost(isl_tokens: int, overlap: int, block_size: int) -> int {
    if isl_tokens - overlap * block_size > 0 {
        isl_tokens - overlap * block_size
    } else {
        0
    }
}

/// Free request slots of a worker.
pub open spec fn headroom(m: ForwardPassMetrics) -> int {
    m.request_total_slots - m.request_active_slots
}

/// The overlap score of worker `w`: zero when the worker holds none of the request's blocks.
pub open spec fn overlap_of(scores: Map<WorkerId, u32>, w: WorkerId) -> int {
    if scores.contains_key(w) {
        scores[w] as int
    } else {
        0
    }
}

/// The cost `prefill + LOAD_WEIGHT * load_pressure` of a worker, times `pressure_den(m)`.
pub open spec fn cost_num(prefill: int, m: ForwardPassMetrics) -> int {
    prefill * pressure_den(m) + LOAD_WEIGHT * pressure_num(m)
}

/// The sign of `cost(a) - cost(b)`, computed exactly.
pub open spec fn cost_sign(pa: int, a: ForwardPassMetrics, pb: int, b: ForwardPassMetrics) -> int {
    sign(cost_num(pa, a) * pressure_den(b) - cost_num(pb, b) * pressure_den(a))
}

/// Candidate `a` ranks strictly before candidate `b`: lower cost, then more free request
/// slots, then the lower worker id.
pub open spec fn ranks_before(
    scores: Map<WorkerId, u32>,
    isl_tokens: int,
    block_size: int,
    a: Endpoint,
    b: Endpoint,
) -> bool {
    let pa = prefill_cost(isl_tokens, overlap_of(scores, a.worker_id), block_size);
    let pb = prefill_cost(isl_tokens, overlap_of(scores, b.worker_id), block_size);
    let c = cost_sign(pa, a.data, pb, b.data);
    ||| c < 0
    ||| c == 0 && headroom(a.data) > headroom(b.data)
    ||| c == 0 && headroom(a.data) == headroom(b.data) && a.worker_id < b.worker_id
}

/// The endpoint at `i` is a best candidate: no endpoint ranks strictly before it.
pub open spec fn is_best_candidate(
    scores: Map<WorkerId, u32>,
    endpoints: Seq<Endpoint>,
    isl_tokens: int,
    block_size: int,
    i: int,
) -> bool {
    &&& 0 <= i < endpoints.len()
    &&& forall|j: int|
        0 <= j < endpoints.len() ==> !ranks_before(
            scores,
            isl_tokens,
            block_size,
            #[trigger] endpoints[j],
            endpoints[i],
        )
}

} // verus!

verus! {

/// The sign of `x`: -1, 0 or 1.
pub open spec fn sign(x: int) -> int {
    if x < 0 {
        -1
    } else if x == 0 {
        0
    } else {
        1
    }
}

proof fn lemma_frac_step(p: int, q: int, r: int, s: int, qp: int, rp: int, qr: int, rr: int)
    requires
        q > 0,
        s > 0,
        p == qp * q + rp,
        0 <= rp < q,
        r == qr * s + rr,
        0 <= rr < s,
    ensures
        qp < qr ==> p * s - r * q < 0,
        qp > qr ==> p * s - r * q > 0,
        qp == qr ==> p * s - r * q == rp * s - rr * q,
{
    assert(p * s - r * q == (qp - qr) * (q * s) + rp * s - rr * q) by (nonlinear_arith)
        requires
            p == qp * q + rp,
            r == qr * s + rr,
    ;
    assert(0 <= rp * s < q * s) by (nonlinear_arith)
        requires
            0 <= rp < q,
            s > 0,
    ;
    assert(0 <= rr * q < q * s) by (nonlinear_arith)
        requires
            0 <= rr < s,
            q > 0,
    ;
    if qp < qr {
        assert((qp - qr) * (q * s) <= -(q * s)) by (nonlinear_arith)
            requires
                qp < qr,
                q * s > 0,
        ;
    }
    if qp == qr {
        assert((qp - qr) * (q * s) == 0) by (nonlinear_arith)
            requires
                qp == qr,
        ;
    }
    if qp > qr {
        assert((qp - qr) * (q * s) >= q * s) by (nonlinear_arith)
            requires
                qp > qr,
                q * s > 0,
        ;
    }
}

/// Compare the fractions `p / q` and `r / s` exactly: the sign of `p * s - r * q`.
fn compare_fractions(p: u128, q: u128, r: u128, s: u128) -> (c: i8)
    requires
        q > 0,
        s > 0,
    ensures
        c as int == sign(p * s - r * q),
    decreases q + s,
{
    let qp = p / q;
    let qr = r / s;
    let rp = p % q;
    let rr = r % s;
    proof {
        vstd::arithmetic::div_mod::lemma_fundamental_div_mod(p as int, q as int);
        vstd::arithmetic::div_mod::lemma_fundamental_div_mod(r as int, s as int);
        assert(p as int == qp * q + rp) by (nonlinear_arith)
            requires
                p as int == q * (p as int / q as int) + p as int % q as int,
                qp == p as int / q as int,
                rp == p as int % q as int,
        ;
        assert(r as int == qr * s + rr) by (nonlinear_arith)
            requires
                r as int == s * (r as int / s as int) + r as int % s as int,
                qr == r as int / s as int,
                rr == r as int % s as int,
        ;
        lemma_frac_step(p as int, q as int, r as int, s as int, qp as int, rp as int, qr as int, rr as int);
    }
    if qp < qr {
        -1
    } else if qp > qr {
        1
    } else if rp == 0 && rr == 0 {
        proof {
            assert(rp * s - rr * q == 0) by (nonlinear_arith)
                requires
                    rp == 0,
                    rr == 0,
            ;
        }
        0
    } else if rp == 0 {
        proof {
            assert(rp * s - rr * q < 0) by (nonlinear_arith)
                requires
                    rp == 0,
                    rr > 0,
                    q > 0,
            ;
        }
        -1
    } else if rr == 0 {
        proof {
            assert(rp * s - rr * q > 0) by (nonlinear_arith)
                requires
                    rr == 0,
                    rp > 0,
                    s > 0,
            ;
        }
        1
    } else {
        let c = compare_fractions(s, rr, q, rp);
        proof {
            assert(s * rp - q * rr == rp * s - rr * q) by (nonlinear_arith);
        }
        c
    }
}

} // verus!

verus! {

fn at_least_one_exec(x: u64) -> (r: u128)
    ensures
        r == at_least_one(x),
        1 <= r <= u64::MAX,
{
    if x == 0 {
        1
    } else {
        x as u128
    }
}

/// The prefill cost of a worker with `overlap` blocks for a request of `isl_tokens` tokens.
pub fn compute_prefill_cost(isl_tokens: usize, overlap: u32, block_size: usize) -> (r: u128)
    ensures
        r == prefill_cost(isl_tokens as int, overlap as int, block_size as int),
        r <= usize::MAX,
{
    proof {
        assert(overlap as int * block_size as int <= (u32::MAX as int) * (usize::MAX as int))
            by (nonlinear_arith)
            requires
                overlap <= u32::MAX,
                block_size <= usize::MAX,
        ;
    }
    let covered: u128 = overlap as u128 * block_size as u128;
    if (isl_tokens as u128) > covered {
        isl_tokens as u128 - covered
    } else {
        0
    }
}

/// `cost_num(p, m) * (b * d)` in terms of the whole part `p + qa + qc` of the cost and the
/// remainders `ra` and `rc` of `LOAD_WEIGHT * kv_active` and `LOAD_WEIGHT * request_active`.
proof fn lemma_cost_num_split(p: int, m: ForwardPassMetrics, qa: int, ra: int, qc: int, rc: int, b: int, d: int)
    requires
        LOAD_WEIGHT * m.kv_active_blocks == qa * at_least_one(m.kv_total_blocks) + ra,
        LOAD_WEIGHT * m.request_active_slots == qc * at_least_one(m.request_total_slots) + rc,
    ensures
        cost_num(p, m) * (b * d) == (p + qa + qc) * ((at_least_one(m.kv_total_blocks) * b) * (
        at_least_one(m.request_total_slots) * d)) + (ra * b) * (at_least_one(m.request_total_slots)
            * d) + (rc * d) * (at_least_one(m.kv_total_blocks) * b),
{
    let kb = at_least_one(m.kv_total_blocks);
    let rb = at_least_one(m.request_total_slots);
    let a = m.kv_active_blocks as int;
    let c = m.request_active_slots as int;
    let w = LOAD_WEIGHT as int;
    assert(cost_num(p, m) == p * (kb * rb) + w * (a * rb + c * kb));
    assert(w * (a * rb + c * kb) == (w * a) * rb + (w * c) * kb) by (nonlinear_arith);
    assert(p * (kb * rb) + w * (a * rb + c * kb) == p * (kb * rb) + (qa * kb + ra) * rb + (qc * rb
        + rc) * kb);
    let t = p * (kb * rb) + (qa * kb + ra) * rb + (qc * rb + rc) * kb;
    assert((qa * kb + ra) * rb == qa * (kb * rb) + ra * rb) by (nonlinear_arith);
    assert((qc * rb + rc) * kb == qc * (kb * rb) + rc * kb) by (nonlinear_arith);
    assert(p * (kb * rb) + qa * (kb * rb) + qc * (kb * rb) == (p + qa + qc) * (kb * rb))
        by (nonlinear_arith);
    assert(t == (p + qa + qc) * (kb * rb) + ra * rb + rc * kb);
    let u = p + qa + qc;
    let bd = b * d;
    assert((u * (kb * rb) + ra * rb + rc * kb) * bd == u * (kb * rb) * bd + ra * rb * bd + rc * kb
        * bd) by (nonlinear_arith);
    assert(u * (kb * rb) * bd == u * ((kb * b) * (rb * d))) by (nonlinear_arith)
        requires
            bd == b * d,
    ;
    assert(ra * rb * bd == (ra * b) * (rb * d)) by (nonlinear_arith)
        requires
            bd == b * d,
    ;
    assert(rc * kb * bd == (rc * d) * (kb * b)) by (nonlinear_arith)
        requires
            bd == b * d,
    ;
}

/// For remainders `r1 < b1` and `r2 < b2`: `r1 * b2 - r2 * b1 == qx * (b1 * b2) + rx` with
/// `qx` in `{-1, 0}` and `0 <= rx < b1 * b2`, as returned here.
fn floor_difference(r1: u128, b1: u128, r2: u128, b2: u128) -> (res: (i8, u128))
    requires
        1 <= b1 <= u64::MAX,
        1 <= b2 <= u64::MAX,
        r1 < b1,
        r2 < b2,
    ensures
        res.0 == 0 || res.0 == -1,
        0 <= res.1 < b1 * b2,
        r1 * b2 - r2 * b1 == res.0 * (b1 * b2) + res.1,
{
    proof {
        assert(r1 * b2 < b1 * b2) by (nonlinear_arith)
            requires
                r1 < b1,
                b2 >= 1,
        ;
        assert(r2 * b1 < b1 * b2) by (nonlinear_arith)
            requires
                r2 < b2,
                b1 >= 1,
        ;
        assert(b1 * b2 <= (u64::MAX as int) * (u64::MAX as int)) by (nonlinear_arith)
            requires
                b1 <= u64::MAX,
                b2 <= u64::MAX,
        ;
    }
    let x: u128 = r1 * b2;
    let y: u128 = r2 * b1;
    let q: u128 = b1 * b2;
    if x >= y {
        (0, x - y)
    } else {
        (-1, q - (y - x))
    }
}

/// Compare the costs `prefill + LOAD_WEIGHT * load_pressure` of two workers exactly: the sign
/// of `cost(a) - cost(b)`.
pub fn compare_cost(pa: u128, a: &ForwardPassMetrics, pb: u128, b: &ForwardPassMetrics) -> (c: i8)
    requires
        pa <= usize::MAX,
        pb <= usize::MAX,
    ensures
        c as int == cost_sign(pa as int, *a, pb as int, *b),
{
    let kb1 = at_least_one_exec(a.kv_total_blocks);
    let rb1 = at_least_one_exec(a.request_total_slots);
    let kb2 = at_least_one_exec(b.kv_total_blocks);
    let rb2 = at_least_one_exec(b.request_total_slots);
    let ka1: u128 = LOAD_WEIGHT * a.kv_active_blocks as u128;
    let kc1: u128 = LOAD_WEIGHT * a.request_active_slots as u128;
    let ka2: u128 = LOAD_WEIGHT * b.kv_active_blocks as u128;
    let kc2: u128 = LOAD_WEIGHT * b.request_active_slots as u128;
    let qa1 = ka1 / kb1;
    let ra1 = ka1 % kb1;
    let qc1 = kc1 / rb1;
    let rc1 = kc1 % rb1;
    let qa2 = ka2 / kb2;
    let ra2 = ka2 % kb2;
    let qc2 = kc2 / rb2;
    let rc2 = kc2 % rb2;
    proof {
        vstd::arithmetic::div_mod::lemma_fundamental_div_mod(ka1 as int, kb1 as int);
        vstd::arithmetic::div_mod::lemma_fundamental_div_mod(kc1 as int, rb1 as int);
        vstd::arithmetic::div_mod::lemma_fundamental_div_mod(ka2 as int, kb2 as int);
        vstd::arithmetic::div_mod::lemma_fundamental_div_mod(kc2 as int, rb2 as int);
        assert(qa1 <= ka1 && qc1 <= kc1 && qa2 <= ka2 && qc2 <= kc2) by (nonlinear_arith)
            requires
                kb1 >= 1,
                rb1 >= 1,
                kb2 >= 1,
                rb2 >= 1,
                qa1 == ka1 / kb1,
                qc1 == kc1 / rb1,
                qa2 == ka2 / kb2,
                qc2 == kc2 / rb2,
        ;
    }
    let whole1: u128 = pa + qa1 + qc1;
    let whole2: u128 = pb + qa2 + qc2;
    let (qx, rx) = floor_difference(ra1, kb1, ra2, kb2);
    let (qy, ry) = floor_difference(rc1, rb1, rc2, rb2);
    let k: i128 = whole1 as i128 - whole2 as i128 + qx as i128 + qy as i128;
    proof {
        assert(kb1 * kb2 <= (u64::MAX as int) * (u64::MAX as int)) by (nonlinear_arith)
            requires
                kb1 <= u64::MAX,
                kb2 <= u64::MAX,
        ;
        assert(rb1 * rb2 <= (u64::MAX as int) * (u64::MAX as int)) by (nonlinear_arith)
            requires
                rb1 <= u64::MAX,
                rb2 <= u64::MAX,
        ;
    }
    let q: u128 = kb1 * kb2;
    let s: u128 = rb1 * rb2;
    let ghost value = cost_num(pa as int, *a) * pressure_den(*b) - cost_num(pb as int, *b)
        * pressure_den(*a);
    proof {
        assert(ka1 as int == qa1 * kb1 + ra1) by (nonlinear_arith)
            requires
                ka1 as int == kb1 * (ka1 as int / kb1 as int) + ka1 as int % kb1 as int,
                qa1 == ka1 as int / kb1 as int,
                ra1 == ka1 as int % kb1 as int,
        ;
        assert(kc1 as int == qc1 * rb1 + rc1) by (nonlinear_arith)
            requires
                kc1 as int == rb1 * (kc1 as int / rb1 as int) + kc1 as int % rb1 as int,
                qc1 == kc1 as int / rb1 as int,
                rc1 == kc1 as int % rb1 as int,
        ;
        assert(ka2 as int == qa2 * kb2 + ra2) by (nonlinear_arith)
            requires
                ka2 as int == kb2 * (ka2 as int / kb2 as int) + ka2 as int % kb2 as int,
                qa2 == ka2 as int / kb2 as int,
                ra2 == ka2 as int % kb2 as int,
        ;
        assert(kc2 as int == qc2 * rb2 + rc2) by (nonlinear_arith)
            requires
                kc2 as int == rb2 * (kc2 as int / rb2 as int) + kc2 as int % rb2 as int,
                qc2 == kc2 as int / rb2 as int,
                rc2 == kc2 as int % rb2 as int,
        ;
        lemma_cost_num_split(pa as int, *a, qa1 as int, ra1 as int, qc1 as int, rc1 as int, kb2 as int, rb2 as int);
        lemma_cost_num_split(pb as int, *b, qa2 as int, ra2 as int, qc2 as int, rc2 as int, kb1 as int, rb1 as int);
        assert(pressure_den(*b) == kb2 * rb2);
        assert(pressure_den(*a) == kb1 * rb1);
        assert((kb2 * kb1) == q as int) by (nonlinear_arith)
            requires
                q == kb1 * kb2,
        ;
        assert((rb2 * rb1) == s as int) by (nonlinear_arith)
            requires
                s == rb1 * rb2,
        ;
        assert(value == k * (q * s) + rx * s + ry * q) by (nonlinear_arith)
            requires
                value == (whole1 * ((kb1 * kb2) * (rb1 * rb2)) + (ra1 * kb2) * (rb1 * rb2) + (rc1 * rb2) * (kb1 * kb2))
                    - (whole2 * ((kb2 * kb1) * (rb2 * rb1)) + (ra2 * kb1) * (rb2 * rb1) + (rc2 * rb1) * (kb2 * kb1)),
                ra1 * kb2 - ra2 * kb1 == qx * (kb1 * kb2) + rx,
                rc1 * rb2 - rc2 * rb1 == qy * (rb1 * rb2) + ry,
                k == whole1 - whole2 + qx + qy,
                q == kb1 * kb2,
                s == rb1 * rb2,
        ;
        assert(0 <= rx * s < q * s) by (nonlinear_arith)
            requires
                0 <= rx < q,
                s >= 1,
        ;
        assert(0 <= ry * q < q * s) by (nonlinear_arith)
            requires
                0 <= ry < s,
                q >= 1,
        ;
        assert(q >= 1 && s >= 1) by (nonlinear_arith)
            requires
                q == kb1 * kb2,
                s == rb1 * rb2,
                kb1 >= 1,
                kb2 >= 1,
                rb1 >= 1,
                rb2 >= 1,
        ;
    }
    if k >= 1 {
        proof {
            assert(k * (q * s) >= q * s) by (nonlinear_arith)
                requires
                    k >= 1,
                    q * s >= 1,
            ;
        }
        1
    } else if k <= -2 {
        proof {
            assert(k * (q * s) <= -2 * (q * s)) by (nonlinear_arith)
                requires
                    k <= -2,
                    q * s >= 1,
            ;
        }
        -1
    } else if k == 0 {
        proof {
            assert(k * (q * s) == 0) by (nonlinear_arith)
                requires
                    k == 0,
            ;
        }
        if rx == 0 && ry == 0 {
            proof {
                assert(rx * s + ry * q == 0) by (nonlinear_arith)
                    requires
                        rx == 0,
                        ry == 0,
                ;
            }
            0
        } else {
            proof {
                assert(rx * s + ry * q > 0) by (nonlinear_arith)
                    requires
                        rx > 0 || ry > 0,
                        rx >= 0,
                        ry >= 0,
                        q >= 1,
                        s >= 1,
                ;
            }
            1
        }
    } else {
        proof {
            assert(value == rx * s - (s - ry) * q) by (nonlinear_arith)
                requires
                    value == k * (q * s) + rx * s + ry * q,
                    k == -1,
            ;
        }
        compare_fractions(rx, q, s - ry, s)
    }
}

fn overlap_lookup(scores: &HashMap<WorkerId, u32>, w: WorkerId) -> (r: u32)
    ensures
        r == overlap_of(scores@, w),
{
    match scores.get(&w) {
        Some(v) => *v,
        None => 0,
    }
}

/// Choose the worker for a request of `isl_tokens` tokens: among the workers of the snapshot,
/// the one of lowest cost `prefill + LOAD_WEIGHT * load_pressure`, compared exactly; ties go
/// to more free request slots, then to the lower id. A worker absent from `overlap` holds none
/// of the request's blocks.
pub fn select_worker(
    overlap: &OverlapScores,
    endpoints: &Vec<Endpoint>,
    isl_tokens: usize,
    block_size: usize,
) -> (r: Result<WorkerId, KvSchedulerError>)
    ensures
        endpoints@.len() == 0 <==> r is Err,
        r is Err ==> r == Err::<WorkerId, KvSchedulerError>(KvSchedulerError::NoWorkersAvailable),
        r is Ok ==> exists|i: int|
            is_best_candidate(
                overlap.scores@,
                endpoints@,
                isl_tokens as int,
                block_size as int,
                i,
            ) && #[trigger] endpoints@[i].worker_id == r->Ok_0,
{
    if endpoints.len() == 0 {
        return Err(KvSchedulerError::NoWorkersAvailable);
    }
    let ghost scores = overlap.scores@;
    let ghost isl = isl_tokens as int;
    let ghost bs = block_size as int;
    let mut best: usize = 0;
    let mut best_prefill: u128 = compute_prefill_cost(
        isl_tokens,
        overlap_lookup(&overlap.scores, endpoints[0].worker_id),
        block_size,
    );
    let mut i: usize = 1;
    while i < endpoints.len()
        invariant
            scores == overlap.scores@,
            isl == isl_tokens as int,
            bs == block_size as int,
            1 <= i <= endpoints@.len(),
            best < i,
            best_prefill <= usize::MAX,
            best_prefill == prefill_cost(
                isl,
                overlap_of(scores, endpoints@[best as int].worker_id),
                bs,
            ),
            forall|j: int|
                0 <= j < i ==> !ranks_before(
                    scores,
                    isl,
                    bs,
                    #[trigger] endpoints@[j],
                    endpoints@[best as int],
                ),
        decreases endpoints@.len() - i,
    {
        let e = &endpoints[i];
        let b = &endpoints[best];
        let pe = compute_prefill_cost(isl_tokens, overlap_lookup(&overlap.scores, e.worker_id), block_size);
        let c = compare_cost(pe, &e.data, best_prefill, &b.data);
        let e_room: i128 = e.data.request_total_slots as i128 - e.data.request_active_slots as i128;
        let b_room: i128 = b.data.request_total_slots as i128 - b.data.request_active_slots as i128;
        let better = c < 0 || (c == 0 && e_room > b_room) || (c == 0 && e_room == b_room
            && e.worker_id < b.worker_id);
        proof {
            lemma_cost_sign_antisymmetric(pe as int, e.data, best_prefill as int, b.data);
            assert forall|j: int| 0 <= j < i && better implies !ranks_before(
                scores,
                isl,
                bs,
                #[trigger] endpoints@[j],
                endpoints@[i as int],
            ) by {
                lemma_ranks_before_transitive(scores, isl, bs, endpoints@[j], endpoints@[i as int], endpoints@[best as int]);
            }
        }
        if better {
            best = i;
            best_prefill = pe;
        }
        i = i + 1;
    }
    Ok(endpoints[best].worker_id)
}

proof fn lemma_cost_sign_antisymmetric(pa: int, a: ForwardPassMetrics, pb: int, b: ForwardPassMetrics)
    ensures
        cost_sign(pb, b, pa, a) == -cost_sign(pa, a, pb, b),
{
}

/// Cost order is transitive: it compares the exact rationals `cost_num / pressure_den`.
proof fn lemma_cost_sign_transitive(
    pa: int,
    a: ForwardPassMetrics,
    pb: int,
    b: ForwardPassMetrics,
    pc: int,
    c: ForwardPassMetrics,
)
    ensures
        cost_sign(pa, a, pb, b) <= 0 && cost_sign(pb, b, pc, c) <= 0 ==> cost_sign(pa, a, pc, c)
            <= 0,
        cost_sign(pa, a, pb, b) < 0 && cost_sign(pb, b, pc, c) <= 0 ==> cost_sign(pa, a, pc, c)
            < 0,
        cost_sign(pa, a, pb, b) <= 0 && cost_sign(pb, b, pc, c) < 0 ==> cost_sign(pa, a, pc, c)
            < 0,
        cost_sign(pa, a, pb, b) == 0 && cost_sign(pb, b, pc, c) == 0 ==> cost_sign(pa, a, pc, c)
            == 0,
{
    let na = cost_num(pa, a);
    let nb = cost_num(pb, b);
    let nc = cost_num(pc, c);
    let da = pressure_den(a);
    let db = pressure_den(b);
    let dc = pressure_den(c);
    assert(da >= 1 && db >= 1 && dc >= 1) by (nonlinear_arith)
        requires
            da == at_least_one(a.kv_total_blocks) * at_least_one(a.request_total_slots),
            db == at_least_one(b.kv_total_blocks) * at_least_one(b.request_total_slots),
            dc == at_least_one(c.kv_total_blocks) * at_least_one(c.request_total_slots),
            at_least_one(a.kv_total_blocks) >= 1,
            at_least_one(a.request_total_slots) >= 1,
            at_least_one(b.kv_total_blocks) >= 1,
            at_least_one(b.request_total_slots) >= 1,
            at_least_one(c.kv_total_blocks) >= 1,
            at_least_one(c.request_total_slots) >= 1,
    ;
    // (na db - nb da) dc + (nb dc - nc db) da == (na dc - nc da) db
    assert((na * db - nb * da) * dc + (nb * dc - nc * db) * da == (na * dc - nc * da) * db)
        by (nonlinear_arith);
    if na * db - nb * da <= 0 && nb * dc - nc * db <= 0 {
        assert((na * db - nb * da) * dc <= 0) by (nonlinear_arith)
            requires
                na * db - nb * da <= 0,
                dc >= 1,
        ;
        assert((nb * dc - nc * db) * da <= 0) by (nonlinear_arith)
            requires
                nb * dc - nc * db <= 0,
                da >= 1,
        ;
        if na * db - nb * da < 0 {
            assert((na * db - nb * da) * dc < 0) by (nonlinear_arith)
                requires
                    na * db - nb * da < 0,
                    dc >= 1,
            ;
        }
        if nb * dc - nc * db < 0 {
            assert((nb * dc - nc * db) * da < 0) by (nonlinear_arith)
                requires
                    nb * dc - nc * db < 0,
                    da >= 1,
            ;
        }
        if na * db - nb * da == 0 && nb * dc - nc * db == 0 {
            assert((na * db - nb * da) * dc == 0) by (nonlinear_arith)
                requires
                    na * db - nb * da == 0,
            ;
            assert((nb * dc - nc * db) * da == 0) by (nonlinear_arith)
                requires
                    nb * dc - nc * db == 0,
            ;
        }
        assert((na * dc - nc * da) * db <= 0);
        assert((na * dc - nc * da) <= 0) by (nonlinear_arith)
            requires
                (na * dc - nc * da) * db <= 0,
                db >= 1,
        ;
        if (na * dc - nc * da) * db < 0 {
            assert((na * dc - nc * da) < 0) by (nonlinear_arith)
                requires
                    (na * dc - nc * da) * db < 0,
                    db >= 1,
            ;
        }
        if (na * dc - nc * da) * db == 0 {
            assert((na * dc - nc * da) == 0) by (nonlinear_arith)
                requires
                    (na * dc - nc * da) * db == 0,
                    db >= 1,
            ;
        }
    }
}

proof fn lemma_ranks_before_transitive(
    scores: Map<WorkerId, u32>,
    isl: int,
    bs: int,
    x: Endpoint,
    y: Endpoint,
    z: Endpoint,
)
    ensures
        !ranks_before(scores, isl, bs, x, z) && ranks_before(scores, isl, bs, y, z) ==> !ranks_before(
            scores,
            isl,
            bs,
            x,
            y,
        ),
{
    let px = prefill_cost(isl, overlap_of(scores, x.worker_id), bs);
    let py = prefill_cost(isl, overlap_of(scores, y.worker_id), bs);
    let pz = prefill_cost(isl, overlap_of(scores, z.worker_id), bs);
    lemma_cost_sign_transitive(px, x.data, py, y.data, pz, z.data);
    lemma_cost_sign_antisymmetric(px, x.data, pz, z.data);
    lemma_cost_sign_antisymmetric(px, x.data, py, y.data);
    lemma_cost_sign_antisymmetric(py, y.data, pz, z.data);
    lemma_cost_sign_transitive(pz, z.data, px, x.data, py, y.data);
    lemma_cost_sign_transitive(py, y.data, pz, z.data, px, x.data);
}

/// At equal load pressure, the chosen worker's overlap is at least that of any other candidate
/// whose overlap covers no more than the request: a candidate with strictly greater overlap and
/// equal load is never passed over.
pub proof fn lemma_overlap_monotone(
    scores: Map<WorkerId, u32>,
    endpoints: Seq<Endpoint>,
    isl_tokens: int,
    block_size: int,
    chosen: int,
    other: int,
)
    requires
        block_size > 0,
        is_best_candidate(scores, endpoints, isl_tokens, block_size, chosen),
        0 <= other < endpoints.len(),
        overlap_of(scores, endpoints[other].worker_id) * block_size <= isl_tokens,
        pressure_eq(endpoints[other].data, endpoints[chosen].data),
    ensures
        !(overlap_of(scores, endpoints[other].worker_id) > overlap_of(
            scores,
            endpoints[chosen].worker_id,
        )),
{
    let oc = overlap_of(scores, endpoints[chosen].worker_id);
    let oo = overlap_of(scores, endpoints[other].worker_id);
    let a = endpoints[other].data;
    let b = endpoints[chosen].data;
    assert(!ranks_before(scores, isl_tokens, block_size, endpoints[other], endpoints[chosen]));
    if oo > oc {
        assert(oo * block_size > oc * block_size) by (nonlinear_arith)
            requires
                oo > oc,
                block_size > 0,
        ;
        let po = prefill_cost(isl_tokens, oo, block_size);
        let pc = prefill_cost(isl_tokens, oc, block_size);
        assert(po < pc);
        let da = pressure_den(a);
        let db = pressure_den(b);
        assert(da >= 1 && db >= 1) by (nonlinear_arith)
            requires
                da == at_least_one(a.kv_total_blocks) * at_least_one(a.request_total_slots),
                db == at_least_one(b.kv_total_blocks) * at_least_one(b.request_total_slots),
                at_least_one(a.kv_total_blocks) >= 1,
                at_least_one(a.request_total_slots) >= 1,
                at_least_one(b.kv_total_blocks) >= 1,
                at_least_one(b.request_total_slots) >= 1,
        ;
        let na = pressure_num(a);
        let nb = pressure_num(b);
        let w = LOAD_WEIGHT as int;
        assert(cost_num(po, a) * db == (po * da) * db + w * (na * db)) by (nonlinear_arith)
            requires
                cost_num(po, a) == po * da + w * na,
        ;
        assert(cost_num(pc, b) * da == (pc * da) * db + w * (nb * da)) by (nonlinear_arith)
            requires
                cost_num(pc, b) == pc * db + w * nb,
        ;
        assert((po * da) * db < (pc * da) * db) by (nonlinear_arith)
            requires
                po < pc,
                da >= 1,
                db >= 1,
        ;
    }
}

/// At equal overlap, the chosen worker's load pressure is no higher than any other
/// candidate's: a candidate with strictly lower exact pressure and equal overlap is never
/// passed over.
pub proof fn lemma_load_monotone(
    scores: Map<WorkerId, u32>,
    endpoints: Seq<Endpoint>,
    isl_tokens: int,
    block_size: int,
    chosen: int,
    other: int,
)
    requires
        is_best_candidate(scores, endpoints, isl_tokens, block_size, chosen),
        0 <= other < endpoints.len(),
        overlap_of(scores, endpoints[other].worker_id) == overlap_of(
            scores,
            endpoints[chosen].worker_id,
        ),
    ensures
        !pressure_lt(endpoints[other].data, endpoints[chosen].data),
{
    let a = endpoints[other].data;
    let b = endpoints[chosen].data;
    let p = prefill_cost(isl_tokens, overlap_of(scores, endpoints[chosen].worker_id), block_size);
    assert(!ranks_before(scores, isl_tokens, block_size, endpoints[other], endpoints[chosen]));
    if pressure_lt(a, b) {
        let da = pressure_den(a);
        let db = pressure_den(b);
        assert(cost_num(p, a) * db - cost_num(p, b) * da == LOAD_WEIGHT * (pressure_num(a) * db
            - pressure_num(b) * da)) by (nonlinear_arith)
            requires
                cost_num(p, a) == p * da + LOAD_WEIGHT * pressure_num(a),
                cost_num(p, b) == p * db + LOAD_WEIGHT * pressure_num(b),
        ;
    }
}

} // verus!
