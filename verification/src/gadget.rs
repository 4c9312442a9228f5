//! Base-`z` gadget decomposition of ring elements.
//!
//! For base `z` and length `t` the gadget vector is `(1, z, z^2, ..., z^(t-1))`.
//! Decomposition splits every coefficient into `t` digits below `z`;
//! recomposing the digits against the gadget vector gives the coefficient
//! back exactly whenever `z^t` covers the modulus.
use vstd::prelude::*;
use vstd::arithmetic::div_mod::{
    lemma_basic_div, lemma_div_basics, lemma_div_denominator, lemma_fundamental_div_mod,
    lemma_mod_bound,
};
use vstd::arithmetic::power::{
    lemma_pow0, lemma_pow1, lemma_pow_adds, lemma_pow_increases, lemma_pow_positive, pow,
};
use crate::ring::{Poly, Q_LIMIT};

verus! {

/// Digit `j` of the base-`z` expansion of `x`.
pub open spec fn spec_digit(x: u64, z: u64, j: nat) -> int {
    (x as int / pow(z as int, j)) % (z as int)
}

/// Sum of the first `n` digits of `x` against the gadget vector:
/// `digit_0 + digit_1 * z + ... + digit_(n-1) * z^(n-1)`.
pub open spec fn spec_recompose(x: u64, z: u64, n: nat) -> int
    decreases n,
{
    if n == 0 {
        0
    } else {
        spec_recompose(x, z, (n - 1) as nat) + spec_digit(x, z, (n - 1) as nat) * pow(
            z as int,
            (n - 1) as nat,
        )
    }
}

proof fn lemma_recompose_partial(x: u64, z: u64, n: nat)
    requires
        2 <= z,
    ensures
        spec_recompose(x, z, n) + (x as int / pow(z as int, n)) * pow(z as int, n) == x,
    decreases n,
{
    let zi = z as int;
    let xi = x as int;
    if n == 0 {
        lemma_pow0(zi);
        lemma_div_basics(xi);
    } else {
        let m = (n - 1) as nat;
        lemma_recompose_partial(x, z, m);
        let pm = pow(zi, m);
        let pn = pow(zi, n);
        lemma_pow_positive(zi, m);
        lemma_pow_positive(zi, n);
        lemma_pow_adds(zi, m, 1);
        lemma_pow1(zi);
        assert(pn == pm * zi);
        let u = xi / pm;
        lemma_fundamental_div_mod(u, zi);
        lemma_div_denominator(xi, pm, zi);
        assert(xi / pn == u / zi);
        // u * pm == (u % z) * pm + (u / z) * (z * pm)
        assert(u * pm == (zi * (u / zi) + u % zi) * pm) by (nonlinear_arith)
            requires
                u == zi * (u / zi) + u % zi,
        ;
        assert((zi * (u / zi) + u % zi) * pm == (u % zi) * pm + (u / zi) * (zi * pm))
            by (nonlinear_arith);
        assert(spec_digit(x, z, m) == u % zi);
        assert(spec_recompose(x, z, n) == spec_recompose(x, z, m) + (u % zi) * pm);
        assert((xi / pn) * pn == (u / zi) * (zi * pm)) by (nonlinear_arith)
            requires
                xi / pn == u / zi,
                pn == pm * zi,
        ;
        assert(spec_recompose(x, z, n) + (xi / pn) * pn == spec_recompose(x, z, m) + u * pm);
    }
}

/// The gadget law: for `x < z^t`, the base-`z` digits of `x` recompose to
/// `x` against the gadget vector.
pub proof fn lemma_gadget_recompose(x: u64, z: u64, t: nat)
    requires
        2 <= z,
        x < pow(z as int, t),
    ensures
        spec_recompose(x, z, t) == x,
{
    lemma_recompose_partial(x, z, t);
    lemma_pow_positive(z as int, t);
    lemma_basic_div(x as int, pow(z as int, t));
}

/// Decomposes every coefficient of `p` into `t` base-`z` digits.
/// Entry `j` of the result holds digit `j` of every coefficient, as a ring
/// element (digits are below `z <= q`, hence already reduced).
pub fn gadget_decompose(p: &Poly, z: u64, t: usize) -> (r: Vec<Poly>)
    requires
        p.wf(),
        2 <= z <= p.q,
        1 <= t <= 64,
    ensures
        r@.len() == t,
        forall|j: int|
            0 <= j < t ==> (#[trigger] r@[j]).wf() && r@[j].q == p.q && r@[j]@.len() == p@.len(),
        forall|j: int, i: int|
            0 <= j < t && 0 <= i < p@.len() ==> (#[trigger] r@[j]@[i]) == spec_digit(
                p@[i],
                z,
                j as nat,
            ),
{
    let d = p.coeffs.len();
    let q = p.q;
    let mut cur: Vec<u64> = p.coeffs.clone();
    let mut r: Vec<Poly> = Vec::new();
    let mut j: usize = 0;
    proof {
        lemma_pow0(z as int);
        assert forall|i: int| 0 <= i < d implies cur@[i] == p@[i] as int / pow(z as int, 0) by {
            lemma_div_basics(p@[i] as int);
        }
    }
    while j < t
        invariant
            j <= t <= 64,
            p.wf(),
            2 <= z <= q,
            q == p.q,
            d == p@.len(),
            cur@.len() == d,
            forall|i: int| 0 <= i < d ==> cur@[i] == p@[i] as int / pow(z as int, j as nat),
            r@.len() == j,
            forall|jj: int|
                0 <= jj < j ==> (#[trigger] r@[jj]).wf() && r@[jj].q == q && r@[jj]@.len() == d,
            forall|jj: int, i: int|
                0 <= jj < j && 0 <= i < d ==> (#[trigger] r@[jj]@[i]) == spec_digit(
                    p@[i],
                    z,
                    jj as nat,
                ),
        decreases t - j,
    {
        let mut digits: Vec<u64> = Vec::new();
        let mut next: Vec<u64> = Vec::new();
        let mut i: usize = 0;
        while i < d
            invariant
                i <= d,
                2 <= z <= q,
                d == p@.len(),
                cur@.len() == d,
                forall|ii: int| 0 <= ii < d ==> cur@[ii] == p@[ii] as int / pow(z as int, j as nat),
                digits@.len() == i,
                next@.len() == i,
                forall|ii: int|
                    0 <= ii < i ==> digits@[ii] == (cur@[ii] as int) % (z as int) && digits@[ii]
                        < z,
                forall|ii: int| 0 <= ii < i ==> next@[ii] == (cur@[ii] as int) / (z as int),
            decreases d - i,
        {
            proof {
                lemma_mod_bound(cur@[i as int] as int, z as int);
            }
            digits.push(cur[i] % z);
            next.push(cur[i] / z);
            i = i + 1;
        }
        proof {
            assert forall|ii: int| 0 <= ii < d implies next@[ii] == p@[ii] as int / pow(
                z as int,
                (j + 1) as nat,
            ) by {
                lemma_pow_adds(z as int, j as nat, 1);
                lemma_pow1(z as int);
                lemma_pow_positive(z as int, j as nat);
                lemma_div_denominator(p@[ii] as int, pow(z as int, j as nat), z as int);
            }
        }
        let dp = Poly::from_coeffs(q, digits);
        r.push(dp);
        cur = next;
        j = j + 1;
    }
    r
}

/// The smallest base `z >= 2` with `z^t >= q`: the gadget base used for a
/// decomposition of length `t` over modulus `q`.
pub fn base_from_len(t: usize, q: u64) -> (z: u64)
    requires
        1 <= t <= 64,
        2 <= q < Q_LIMIT,
    ensures
        2 <= z <= q,
        pow(z as int, t as nat) >= q,
        z == 2 || pow(z - 1, t as nat) < q,
{
    let mut lo: u64 = 2;
    let mut hi: u64 = q;
    proof {
        lemma_pow_at_least_linear(q, t as nat);
    }
    while lo < hi
        invariant
            1 <= t <= 64,
            2 <= q < Q_LIMIT,
            2 <= lo <= hi <= q,
            pow(hi as int, t as nat) >= q,
            lo == 2 || pow(lo - 1, t as nat) < q,
        decreases hi - lo,
    {
        let mid: u64 = lo + (hi - lo) / 2;
        if pow_at_least(mid, t, q) {
            hi = mid;
        } else {
            lo = mid + 1;
        }
    }
    lo
}

/// `b^t >= b` for `t >= 1, b >= 1`.
proof fn lemma_pow_at_least_linear(b: u64, t: nat)
    requires
        1 <= b,
        1 <= t,
    ensures
        pow(b as int, t) >= b,
{
    lemma_pow_increases(b as nat, 1, t);
    lemma_pow1(b as int);
}

/// Whether `z^t >= bound`, computed with early exit so that the running
/// product never exceeds `bound * z`.
pub fn pow_at_least(z: u64, t: usize, bound: u64) -> (r: bool)
    requires
        2 <= z < Q_LIMIT,
        1 <= t <= 64,
        1 <= bound < Q_LIMIT,
    ensures
        r <==> pow(z as int, t as nat) >= bound,
{
    if bound == 1 {
        proof {
            lemma_pow_positive(z as int, t as nat);
        }
        return true;
    }
    let mut acc: u128 = 1;
    let mut i: usize = 0;
    proof {
        lemma_pow0(z as int);
    }
    while i < t
        invariant
            i <= t,
            2 <= z < Q_LIMIT,
            2 <= bound < Q_LIMIT,
            t <= 64,
            acc == pow(z as int, i as nat),
            acc < bound,
        decreases t - i,
    {
        proof {
            lemma_pow_adds(z as int, i as nat, 1);
            lemma_pow1(z as int);
            vstd::arithmetic::mul::lemma_mul_upper_bound(
                acc as int,
                Q_LIMIT as int,
                z as int,
                Q_LIMIT as int,
            );
        }
        acc = acc * (z as u128);
        i = i + 1;
        if acc >= bound as u128 {
            proof {
                lemma_pow_increases(z as nat, i as nat, t as nat);
            }
            return true;
        }
    }
    false
}

} // verus!
