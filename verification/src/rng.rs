//! Randomness layer.
//!
//! The only outside calls are the two wrappers below: a ChaCha20 stream
//! expanded from a 32-byte seed (the protocol PRG: both parties re-derive
//! the same bytes from the same seed), and operating-system entropy for
//! fresh seeds.  Everything built on the stream — uniform residues,
//! bounded secrets, centered-binomial noise — is verified code.
use vstd::prelude::*;
use vstd::arithmetic::div_mod::{lemma_mod_bound, lemma_mod_multiples_vanish, lemma_small_mod};
use crate::ring::{Poly, D_LIMIT, Q_LIMIT};

verus! {

/// The first `n` bytes of the ChaCha20 keystream under `seed`: a function
/// of the seed alone, re-derivable by any party.
pub uninterp spec fn chacha_stream(seed: Seq<u8>, n: int) -> Seq<u8>;

/// Relies on `rand_chacha::ChaCha20Rng::from_seed` and its `RngCore::fill_bytes`:
/// the generator is constructed from the 32-byte seed with counter zero, so the
/// bytes it fills are a deterministic function of the seed and the count.
#[verifier::external_body]
pub fn prg_bytes(seed: &Vec<u8>, n: usize) -> (r: Vec<u8>)
    requires
        seed@.len() == 32,
    ensures
        r@ == chacha_stream(seed@, n as int),
        r@.len() == n,
{
    let mut key = [0u8; 32];
    key.copy_from_slice(seed.as_slice());
    let mut rng = <rand_chacha::ChaCha20Rng as rand::SeedableRng>::from_seed(key);
    let mut buf = vec![0u8; n];
    rand::RngCore::fill_bytes(&mut rng, buf.as_mut_slice());
    buf
}

/// Relies on `rand::rngs::OsRng::fill_bytes`: operating-system entropy.
/// Nothing is assumed of the bytes beyond their count.
#[verifier::external_body]
pub fn entropy_seed() -> (r: Vec<u8>)
    ensures
        r@.len() == 32,
{
    let mut buf = vec![0u8; 32];
    rand::RngCore::fill_bytes(&mut rand::rngs::OsRng, buf.as_mut_slice());
    buf
}

/// The 64-bit little-endian word at position `i` of a byte stream.
pub open spec fn le_u64(bytes: Seq<u8>, i: int) -> int {
    bytes[8 * i] + 0x100 * bytes[8 * i + 1] + 0x1_0000 * bytes[8 * i + 2] + 0x100_0000 * bytes[8 * i
        + 3] + 0x1_0000_0000 * bytes[8 * i + 4] + 0x100_0000_0000 * bytes[8 * i + 5]
        + 0x1_0000_0000_0000 * bytes[8 * i + 6] + 0x100_0000_0000_0000 * bytes[8 * i + 7]
}

/// The uniform ring element derived from a byte stream: word `i` of the
/// stream, reduced mod `q`.
pub open spec fn spec_uniform_poly(bytes: Seq<u8>, d: int, q: u64) -> Seq<u64> {
    Seq::new(d as nat, |i: int| ((le_u64(bytes, i) % (q as int)) as u64))
}

/// Expands `seed` into a uniform element of `R_q` in dimension `d`:
/// the deterministic reduction of the protocol PRG's stream.
pub fn uniform_poly_from_seed(seed: &Vec<u8>, d: usize, q: u64) -> (r: Poly)
    requires
        seed@.len() == 32,
        2 <= q < Q_LIMIT,
        1 <= d <= D_LIMIT,
    ensures
        r.wf(),
        r.q == q,
        r@.len() == d,
        r@ == spec_uniform_poly(chacha_stream(seed@, 8 * d as int), d as int, q),
{
    let bytes = prg_bytes(seed, 8 * d);
    let ghost bs = chacha_stream(seed@, 8 * d as int);
    let mut v: Vec<u64> = Vec::new();
    let mut i: usize = 0;
    while i < d
        invariant
            i <= d <= D_LIMIT,
            2 <= q < Q_LIMIT,
            bytes@ == bs,
            bytes@.len() == 8 * d,
            v@.len() == i,
            forall|j: int| 0 <= j < i ==> v@[j] == ((le_u64(bs, j) % (q as int)) as u64),
            forall|j: int| 0 <= j < i ==> v@[j] < q,
        decreases d - i,
    {
        let w: u64 = (bytes[8 * i] as u64) + 0x100 * (bytes[8 * i + 1] as u64) + 0x1_0000 * (
        bytes[8 * i + 2] as u64) + 0x100_0000 * (bytes[8 * i + 3] as u64) + 0x1_0000_0000 * (
        bytes[8 * i + 4] as u64) + 0x100_0000_0000 * (bytes[8 * i + 5] as u64)
            + 0x1_0000_0000_0000 * (bytes[8 * i + 6] as u64) + 0x100_0000_0000_0000 * (bytes[8 * i
            + 7] as u64);
        let c = crate::arith::reduce_mod(w, q);
        proof {
            assert(w == le_u64(bs, i as int));
        }
        v.push(c);
        i = i + 1;
    }
    let r = Poly::from_coeffs(q, v);
    proof {
        assert(r@ =~= spec_uniform_poly(bs, d as int, q));
    }
    r
}

/// The bounded secret derived from a byte stream: word `i` reduced into
/// `[-bound, bound)` and represented mod `q`.
pub open spec fn spec_bounded_poly(bytes: Seq<u8>, d: int, q: u64, bound: u64) -> Seq<u64> {
    Seq::new(
        d as nat,
        |i: int|
            ((((le_u64(bytes, i) % (q as int)) % (2 * bound as int) - bound) % (q as int)) as u64),
    )
}

/// Expands `seed` into a secret with coefficients in `[-bound, bound)`,
/// represented mod `q`.  Every coefficient of the result is within `bound`
/// of zero mod `q`.
pub fn bounded_poly_from_seed(seed: &Vec<u8>, d: usize, q: u64, bound: u64) -> (r: Poly)
    requires
        seed@.len() == 32,
        2 <= q < Q_LIMIT,
        1 <= d <= D_LIMIT,
        1 <= bound,
        2 * bound < q,
    ensures
        r.wf(),
        r.q == q,
        r@.len() == d,
        r@ == spec_bounded_poly(chacha_stream(seed@, 8 * d as int), d as int, q, bound),
        forall|i: int| 0 <= i < d ==> r@[i] < bound || r@[i] >= q - bound,
{
    let u = uniform_poly_from_seed(seed, d, q);
    let ghost bs = chacha_stream(seed@, 8 * d as int);
    let mut v: Vec<u64> = Vec::new();
    let mut i: usize = 0;
    while i < d
        invariant
            i <= d <= D_LIMIT,
            2 <= q < Q_LIMIT,
            1 <= bound,
            2 * bound < q,
            u.wf(),
            u.q == q,
            u@.len() == d,
            u@ == spec_uniform_poly(bs, d as int, q),
            v@.len() == i,
            forall|j: int|
                0 <= j < i ==> v@[j] == ((((le_u64(bs, j) % (q as int)) % (2 * bound as int)
                    - bound) % (q as int)) as u64),
            forall|j: int| 0 <= j < i ==> v@[j] < bound || v@[j] >= q - bound,
            forall|j: int| 0 <= j < i ==> v@[j] < q,
        decreases d - i,
    {
        let w: u64 = u.coeffs[i];
        let t: u64 = crate::arith::reduce_mod(w, 2 * bound);
        proof {
            let wi = le_u64(bs, i as int);
            let qi = q as int;
            let bi = bound as int;
            lemma_mod_bound(wi, qi);
            lemma_mod_bound(wi % qi, 2 * bi);
            lemma_mod_bound(wi % (2 * bi), 2 * bi);
        }
        let c: u64 = if t >= bound {
            t - bound
        } else {
            t + q - bound
        };
        proof {
            let wi = le_u64(bs, i as int);
            let qi = q as int;
            let bi = bound as int;
            let tv = (wi % qi) % (2 * bi);
            if t >= bound {
                lemma_small_mod((tv - bi) as nat, q as nat);
            } else {
                lemma_mod_multiples_vanish(1, tv - bi, qi);
                lemma_small_mod((tv - bi + qi) as nat, q as nat);
            }
        }
        v.push(c);
        i = i + 1;
    }
    let r = Poly::from_coeffs(q, v);
    proof {
        assert(r@ =~= spec_bounded_poly(bs, d as int, q, bound));
    }
    r
}

/// Centered-binomial sum over `n` stream bytes starting at `base`: each
/// byte contributes its lowest bit minus its second bit, so the sum lies
/// in `[-n, n]` with variance `n/2`.
pub open spec fn cbd_sum(bytes: Seq<u8>, base: int, n: int) -> int
    decreases n,
{
    if n <= 0 {
        0
    } else {
        cbd_sum(bytes, base, n - 1) + (bytes[base + n - 1] % 2) - ((bytes[base + n - 1] / 2) % 2)
    }
}

/// The noise element derived from a byte stream: coefficient `i` is the
/// centered-binomial sum of its `k` bytes, represented mod `q`.
pub open spec fn spec_noise_poly(bytes: Seq<u8>, d: int, q: u64, k: int) -> Seq<u64> {
    Seq::new(d as nat, |i: int| ((cbd_sum(bytes, k * i, k) % (q as int)) as u64))
}

/// Expands `seed` into a noise element with centered-binomial coefficients
/// of parameter `k` (variance `k/2`); every coefficient is within `k` of
/// zero mod `q`.  With `k == 0` the result is the zero element.
pub fn noise_poly_from_seed(seed: &Vec<u8>, d: usize, q: u64, k: usize) -> (r: Poly)
    requires
        seed@.len() == 32,
        2 <= q < Q_LIMIT,
        1 <= d <= D_LIMIT,
        k <= 0x20_0000,
        k * d <= 0x7FFF_FFFF,
        2 * k < q,
    ensures
        r.wf(),
        r.q == q,
        r@.len() == d,
        r@ == spec_noise_poly(chacha_stream(seed@, (k * d) as int), d as int, q, k as int),
        forall|i: int| 0 <= i < d ==> r@[i] <= k || r@[i] >= q - k,
{
    let bytes = prg_bytes(seed, k * d);
    let ghost bs = chacha_stream(seed@, (k * d) as int);
    let mut v: Vec<u64> = Vec::new();
    let mut i: usize = 0;
    while i < d
        invariant
            i <= d <= D_LIMIT,
            2 <= q < Q_LIMIT,
            k <= 0x20_0000,
            k * d <= 0x7FFF_FFFF,
            2 * k < q,
            bytes@ == bs,
            bytes@.len() == k * d,
            v@.len() == i,
            forall|j: int|
                0 <= j < i ==> v@[j] == ((cbd_sum(bs, k as int * j, k as int) % (q as int)) as u64),
            forall|j: int| 0 <= j < i ==> v@[j] <= k || v@[j] >= q - k,
            forall|j: int| 0 <= j < i ==> v@[j] < q,
        decreases d - i,
    {
        let mut s: i64 = 0;
        let mut t: usize = 0;
        proof {
            vstd::arithmetic::mul::lemma_mul_inequality(i + 1, d as int, k as int);
            vstd::arithmetic::mul::lemma_mul_is_commutative(d as int, k as int);
        }
        while t < k
            invariant
                t <= k <= 0x20_0000,
                i < d,
                bytes@ == bs,
                bytes@.len() == k * d,
                k * d <= 0x7FFF_FFFF,
                (i + 1) * k <= k * d,
                s == cbd_sum(bs, k as int * i, t as int),
                -(t as int) <= s <= t as int,
            decreases k - t,
        {
            proof {
                assert(k * i + t < k * d) by (nonlinear_arith)
                    requires
                        t < k,
                        (i + 1) * k <= k * d,
                ;
            }
            let b: u8 = bytes[k * i + t];
            let up: i64 = (b % 2) as i64;
            let down: i64 = ((b / 2) % 2) as i64;
            s = s + up - down;
            t = t + 1;
        }
        let c: u64 = if s >= 0 {
            proof {
                lemma_small_mod(s as nat, q as nat);
            }
            s as u64
        } else {
            proof {
                lemma_mod_multiples_vanish(1, s as int, q as int);
                lemma_small_mod((s + q) as nat, q as nat);
            }
            q - ((-s) as u64)
        };
        v.push(c);
        i = i + 1;
    }
    let r = Poly::from_coeffs(q, v);
    proof {
        assert(r@ =~= spec_noise_poly(bs, d as int, q, k as int));
    }
    r
}

} // verus!
