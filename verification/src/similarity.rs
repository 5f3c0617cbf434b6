//! The similarity metric: fixed-point cosine similarity.
//!
//! The metric is the cosine of the angle between two embedding vectors,
//! computed exactly over the fixed-point components and clamped into
//! `[0, 1]`; it is used identically at enrollment and at verification.

use vstd::prelude::*;
use crate::score::{SCALE_PPM, score_valid};
use crate::embedding::{COMPONENT_LIMIT_PPM, MAX_EMBEDDING_DIM, comps_bounded};

verus! {

/// Sum of the first `n` pairwise component products.
pub open spec fn dot_prefix(a: Seq<i64>, b: Seq<i64>, n: int) -> int
    decreases n,
{
    if n <= 0 {
        0
    } else {
        dot_prefix(a, b, n - 1) + a[n - 1] * b[n - 1]
    }
}

/// Dot product of two equal-length vectors.
pub open spec fn spec_dot(a: Seq<i64>, b: Seq<i64>) -> int {
    dot_prefix(a, b, a.len() as int)
}

/// The integer square root: the unique `r` with `r^2 <= n < (r+1)^2`.
pub open spec fn spec_isqrt(n: nat) -> nat {
    choose|r: nat| #[trigger] (r * r) <= n && n < (r + 1) * (r + 1)
}

/// Fixed-point cosine similarity of two vectors, in ppm of 1.0.
///
/// Vectors of different lengths, zero vectors and non-positive dot
/// products all score 0; otherwise the score is
/// `dot * SCALE_PPM / (isqrt(|a|^2) * isqrt(|b|^2))`, clamped to 1.0.
pub open spec fn sim_spec(a: Seq<i64>, b: Seq<i64>) -> int {
    if a.len() != b.len() {
        0
    } else {
        let d = spec_dot(a, b);
        let na = spec_dot(a, a);
        let nb = spec_dot(b, b);
        if na <= 0 || nb <= 0 || d <= 0 {
            0
        } else {
            let q = d * SCALE_PPM / (spec_isqrt(na as nat) * spec_isqrt(nb as nat)) as int;
            if q > SCALE_PPM {
                SCALE_PPM as int
            } else {
                q
            }
        }
    }
}

pub proof fn lemma_dot_prefix_bound(a: Seq<i64>, b: Seq<i64>, n: int)
    requires
        comps_bounded(a),
        comps_bounded(b),
        0 <= n <= a.len(),
        n <= b.len(),
    ensures
        -(n * COMPONENT_LIMIT_PPM * COMPONENT_LIMIT_PPM) <= dot_prefix(a, b, n) <= n
            * COMPONENT_LIMIT_PPM * COMPONENT_LIMIT_PPM,
    decreases n,
{
    if n > 0 {
        lemma_dot_prefix_bound(a, b, n - 1);
        let x = a[n - 1];
        let y = b[n - 1];
        assert(-(COMPONENT_LIMIT_PPM * COMPONENT_LIMIT_PPM) <= x * y <= COMPONENT_LIMIT_PPM
            * COMPONENT_LIMIT_PPM) by (nonlinear_arith)
            requires
                -COMPONENT_LIMIT_PPM <= x <= COMPONENT_LIMIT_PPM,
                -COMPONENT_LIMIT_PPM <= y <= COMPONENT_LIMIT_PPM,
        ;
        assert((n - 1) * COMPONENT_LIMIT_PPM * COMPONENT_LIMIT_PPM + COMPONENT_LIMIT_PPM
            * COMPONENT_LIMIT_PPM == n * COMPONENT_LIMIT_PPM * COMPONENT_LIMIT_PPM)
            by (nonlinear_arith);
    }
}

pub proof fn lemma_dot_self_nonneg(a: Seq<i64>, n: int)
    requires
        0 <= n <= a.len(),
    ensures
        dot_prefix(a, a, n) >= 0,
    decreases n,
{
    if n > 0 {
        lemma_dot_self_nonneg(a, n - 1);
        let x = a[n - 1];
        assert(x * x >= 0) by (nonlinear_arith);
    }
}

/// The integer square root exists for every number, so `spec_isqrt`
/// denotes it.
pub proof fn lemma_isqrt_exists(n: nat)
    ensures
        spec_isqrt(n) * spec_isqrt(n) <= n,
        n < (spec_isqrt(n) + 1) * (spec_isqrt(n) + 1),
    decreases n,
{
    if n == 0 {
        assert((0nat) * (0nat) == 0 && (0nat + 1) * (0nat + 1) == 1) by (nonlinear_arith);
        assert(exists|r: nat| #[trigger] (r * r) <= n && n < (r + 1) * (r + 1)) by {
            assert((0nat) * (0nat) <= n && n < (0nat + 1) * (0nat + 1));
        }
    } else {
        lemma_isqrt_exists((n - 1) as nat);
        let r0 = spec_isqrt((n - 1) as nat);
        if (r0 + 1) * (r0 + 1) <= n {
            assert(n == (r0 + 1) * (r0 + 1));
            assert((r0 + 1) * (r0 + 1) < (r0 + 2) * (r0 + 2)) by (nonlinear_arith);
            assert(exists|r: nat| #[trigger] (r * r) <= n && n < (r + 1) * (r + 1)) by {
                assert((r0 + 1) * (r0 + 1) <= n && n < (r0 + 2) * (r0 + 2));
            }
        } else {
            assert(exists|r: nat| #[trigger] (r * r) <= n && n < (r + 1) * (r + 1)) by {
                assert(r0 * r0 <= n && n < (r0 + 1) * (r0 + 1));
            }
        }
    }
}

/// Law: a probe identical to a nonzero stored embedding scores exactly
/// 1.0, so matching a fresh capture of the very same template clears
/// every valid threshold. The all-zero vector has no direction and
/// scores 0, which is why the law asks for a nonzero one.
pub proof fn lemma_self_similarity(v: Seq<i64>)
    requires
        spec_dot(v, v) > 0,
    ensures
        sim_spec(v, v) == SCALE_PPM,
{
    let na = spec_dot(v, v);
    lemma_isqrt_exists(na as nat);
    let sa = spec_isqrt(na as nat);
    assert(sa >= 1) by (nonlinear_arith)
        requires
            sa * sa <= na as nat,
            (na as nat) < (sa + 1) * (sa + 1),
            na as nat >= 1,
    ;
    let m = (sa * sa) as int;
    assert(m >= 1) by (nonlinear_arith)
        requires
            sa >= 1,
            m == sa * sa,
    ;
    assert(m * SCALE_PPM <= na * SCALE_PPM) by (nonlinear_arith)
        requires
            m <= na,
            SCALE_PPM > 0,
    ;
    vstd::arithmetic::div_mod::lemma_div_is_ordered(m * SCALE_PPM, na * SCALE_PPM, m);
    vstd::arithmetic::div_mod::lemma_div_multiples_vanish(SCALE_PPM as int, m);
    assert(m * SCALE_PPM == SCALE_PPM * m) by (nonlinear_arith);
    assert(na * SCALE_PPM / m >= SCALE_PPM);
}

pub proof fn lemma_isqrt_unique(r1: nat, r2: nat, n: nat)
    requires
        r1 * r1 <= n < (r1 + 1) * (r1 + 1),
        r2 * r2 <= n < (r2 + 1) * (r2 + 1),
    ensures
        r1 == r2,
{
    if r1 < r2 {
        assert(false) by (nonlinear_arith)
            requires
                r1 < r2,
                n < (r1 + 1) * (r1 + 1),
                r2 * r2 <= n,
        ;
    }
    if r2 < r1 {
        assert(false) by (nonlinear_arith)
            requires
                r2 < r1,
                n < (r2 + 1) * (r2 + 1),
                r1 * r1 <= n,
        ;
    }
}

/// Integer square root by bisection.
pub fn isqrt_u64(n: u64) -> (r: u64)
    ensures
        (r as nat) * (r as nat) <= n as nat,
        (n as nat) < ((r as nat) + 1) * ((r as nat) + 1),
        r as nat == spec_isqrt(n as nat),
{
    let mut lo: u64 = 0;
    let mut hi: u64 = 4294967296;
    proof {
        assert((4294967296 as nat) * (4294967296 as nat) > u64::MAX as nat) by (nonlinear_arith);
    }
    while lo + 1 < hi
        invariant
            lo < hi <= 4294967296,
            (lo as nat) * (lo as nat) <= n as nat,
            (n as nat) < (hi as nat) * (hi as nat),
        decreases hi - lo,
    {
        let mid: u64 = lo + (hi - lo) / 2;
        proof {
            assert((mid as int) * (mid as int) < u128::MAX) by (nonlinear_arith)
                requires
                    0 <= (mid as int) <= 4294967296,
            ;
        }
        if (mid as u128) * (mid as u128) <= n as u128 {
            lo = mid;
        } else {
            hi = mid;
        }
    }
    proof {
        assert(hi == lo + 1);
        let rn = lo as nat;
        assert(exists|q: nat| #[trigger] (q * q) <= n as nat && (n as nat) < (q + 1) * (q + 1))
            by {
            assert(rn * rn <= n as nat && (n as nat) < (rn + 1) * (rn + 1));
        }
        lemma_isqrt_unique(spec_isqrt(n as nat), rn, n as nat);
    }
    lo
}

/// Compute the dot product of two bounded vectors exactly.
pub fn dot_ppm(a: &Vec<i64>, b: &Vec<i64>) -> (r: i128)
    requires
        comps_bounded(a@),
        comps_bounded(b@),
        a@.len() == b@.len(),
        a@.len() <= MAX_EMBEDDING_DIM,
    ensures
        r == spec_dot(a@, b@),
        -((a@.len() * COMPONENT_LIMIT_PPM * COMPONENT_LIMIT_PPM) as i128) <= r <= (a@.len()
            * COMPONENT_LIMIT_PPM * COMPONENT_LIMIT_PPM) as i128,
{
    let n = a.len();
    let mut acc: i128 = 0;
    let mut i: usize = 0;
    while i < n
        invariant
            0 <= i <= n,
            n == a@.len() == b@.len(),
            n <= MAX_EMBEDDING_DIM,
            comps_bounded(a@),
            comps_bounded(b@),
            acc == dot_prefix(a@, b@, i as int),
            -((i * COMPONENT_LIMIT_PPM * COMPONENT_LIMIT_PPM) as i128) <= acc <= (i
                * COMPONENT_LIMIT_PPM * COMPONENT_LIMIT_PPM) as i128,
        decreases n - i,
    {
        let x = a[i];
        let y = b[i];
        proof {
            assert(-(COMPONENT_LIMIT_PPM * COMPONENT_LIMIT_PPM) <= x * y <= COMPONENT_LIMIT_PPM
                * COMPONENT_LIMIT_PPM) by (nonlinear_arith)
                requires
                    -COMPONENT_LIMIT_PPM <= x <= COMPONENT_LIMIT_PPM,
                    -COMPONENT_LIMIT_PPM <= y <= COMPONENT_LIMIT_PPM,
            ;
            assert((i as int + 1) * COMPONENT_LIMIT_PPM * COMPONENT_LIMIT_PPM == i as int
                * COMPONENT_LIMIT_PPM * COMPONENT_LIMIT_PPM + COMPONENT_LIMIT_PPM
                * COMPONENT_LIMIT_PPM) by (nonlinear_arith);
            assert((MAX_EMBEDDING_DIM as int) * COMPONENT_LIMIT_PPM * COMPONENT_LIMIT_PPM
                < i128::MAX) by (nonlinear_arith);
            assert(i as int * COMPONENT_LIMIT_PPM * COMPONENT_LIMIT_PPM <= MAX_EMBEDDING_DIM as int
                * COMPONENT_LIMIT_PPM * COMPONENT_LIMIT_PPM) by (nonlinear_arith)
                requires
                    0 <= i as int <= MAX_EMBEDDING_DIM as int,
            ;
        }
        acc = acc + (x as i128) * (y as i128);
        i = i + 1;
    }
    acc
}

/// Fixed-point cosine similarity, exactly `sim_spec` of the two vectors.
pub fn cosine_similarity_ppm(a: &Vec<i64>, b: &Vec<i64>) -> (r: i64)
    requires
        comps_bounded(a@),
        comps_bounded(b@),
        a@.len() <= MAX_EMBEDDING_DIM,
        b@.len() <= MAX_EMBEDDING_DIM,
    ensures
        r == sim_spec(a@, b@),
        score_valid(r),
{
    if a.len() != b.len() {
        return 0;
    }
    let d = dot_ppm(a, b);
    let na = dot_ppm(a, a);
    let nb = dot_ppm(b, b);
    proof {
        lemma_dot_self_nonneg(a@, a@.len() as int);
        lemma_dot_self_nonneg(b@, b@.len() as int);
        assert(a@.len() * COMPONENT_LIMIT_PPM * COMPONENT_LIMIT_PPM <= (MAX_EMBEDDING_DIM as int)
            * COMPONENT_LIMIT_PPM * COMPONENT_LIMIT_PPM) by (nonlinear_arith)
            requires
                a@.len() <= MAX_EMBEDDING_DIM,
        ;
        assert((MAX_EMBEDDING_DIM as int) * COMPONENT_LIMIT_PPM * COMPONENT_LIMIT_PPM
            < u64::MAX) by (nonlinear_arith);
    }
    if na <= 0 || nb <= 0 || d <= 0 {
        return 0;
    }
    let sa = isqrt_u64(na as u64);
    let sb = isqrt_u64(nb as u64);
    proof {
        assert(sa as nat >= 1 && sb as nat >= 1) by (nonlinear_arith)
            requires
                (sa as nat) * (sa as nat) <= na as nat,
                (sb as nat) * (sb as nat) <= nb as nat,
                (na as nat) < ((sa as nat) + 1) * ((sa as nat) + 1),
                (nb as nat) < ((sb as nat) + 1) * ((sb as nat) + 1),
                na as nat >= 1,
                nb as nat >= 1,
        ;
        assert((sa as nat) < 4294967296 && (sb as nat) < 4294967296) by (nonlinear_arith)
            requires
                (sa as nat) * (sa as nat) <= u64::MAX as nat,
                (sb as nat) * (sb as nat) <= u64::MAX as nat,
        ;
        assert((sa as int) * (sb as int) < u128::MAX) by (nonlinear_arith)
            requires
                0 <= (sa as int) < 4294967296,
                0 <= (sb as int) < 4294967296,
        ;
        assert((sa as int) * (sb as int) >= 1) by (nonlinear_arith)
            requires
                sa as int >= 1,
                sb as int >= 1,
        ;
        assert((d as int) * (SCALE_PPM as int) < u128::MAX) by (nonlinear_arith)
            requires
                0 < (d as int) <= (MAX_EMBEDDING_DIM as int) * COMPONENT_LIMIT_PPM
                    * COMPONENT_LIMIT_PPM,
        ;
    }
    let num: u128 = (d as u128) * (SCALE_PPM as u128);
    let den: u128 = (sa as u128) * (sb as u128);
    let q: u128 = num / den;
    let r: i64 = if q > SCALE_PPM as u128 {
        SCALE_PPM
    } else {
        q as i64
    };
    proof {
        assert(num as int == spec_dot(a@, b@) * SCALE_PPM);
        assert(den as int == (spec_isqrt(na as nat) * spec_isqrt(nb as nat)) as int);
        assert(q as int == spec_dot(a@, b@) * SCALE_PPM / (spec_isqrt(na as nat) * spec_isqrt(
            nb as nat,
        )) as int);
    }
    r
}

} // verus!
