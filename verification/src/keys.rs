//! Key material: automorphism keys, GSW encryption, and the RLWE-to-GSW
//! conversion key.
//!
//! Setups build each key column from seed-derived uniform masks and
//! centered-binomial noise; the homomorphic operations that consume the
//! keys carry exact compositional contracts.
use vstd::prelude::*;
use vstd::arithmetic::power::pow;
use crate::arith::mul_mod;
use crate::gadget::{gadget_decompose, spec_digit};
use crate::gsw::{col_comb_loop, gsw_view, spec_col_comb, spec_gadget_digits, Gsw};
use crate::ring::{spec_auto, spec_poly_add, spec_poly_scale, Poly, Q_LIMIT};
use crate::rlwe::{encrypt_rlwe_with, spec_encrypt_c1, Rlwe};
use crate::rng::{noise_poly_from_seed, prg_bytes, uniform_poly_from_seed};

verus! {

/// The powers `z^0, z^1, ..., z^(t-1)` reduced mod `q`.
pub fn powers_mod(z: u64, t: usize, q: u64) -> (r: Vec<u64>)
    requires
        1 <= z <= q,
        2 <= q < Q_LIMIT,
        1 <= t <= 64,
    ensures
        r@.len() == t,
        forall|j: int| 0 <= j < t ==> r@[j] == pow(z as int, j as nat) % (q as int),
        forall|j: int| 0 <= j < t ==> r@[j] < q,
{
    let mut r: Vec<u64> = Vec::new();
    let zr = crate::arith::reduce_mod(z, q);
    let mut cur: u64 = 1;
    let mut j: usize = 0;
    proof {
        vstd::arithmetic::power::lemma_pow0(z as int);
        vstd::arithmetic::div_mod::lemma_small_mod(1nat, q as nat);
    }
    while j < t
        invariant
            j <= t,
            1 <= z <= q,
            zr == (z as int) % (q as int),
            zr < q,
            2 <= q < Q_LIMIT,
            cur < q,
            cur == pow(z as int, j as nat) % (q as int),
            r@.len() == j,
            forall|k: int| 0 <= k < j ==> r@[k] == pow(z as int, k as nat) % (q as int),
            forall|k: int| 0 <= k < j ==> r@[k] < q,
        decreases t - j,
    {
        r.push(cur);
        let next = mul_mod(cur, zr, q);
        proof {
            let qi = q as int;
            let zi = z as int;
            let p = pow(zi, j as nat);
            vstd::arithmetic::power::lemma_pow_adds(zi, j as nat, 1);
            vstd::arithmetic::power::lemma_pow1(zi);
            vstd::arithmetic::div_mod::lemma_mul_mod_noop_general(p, zi, qi);
            assert(((p % qi) * (zi % qi)) % qi == (p * zi) % qi);
        }
        cur = next;
        j = j + 1;
    }
    r
}

/// Chunk `idx` of the ChaCha20 stream under `master`: the sub-seed a
/// component at that index derives.
pub open spec fn derive_seed_spec(master: Seq<u8>, idx: int) -> Seq<u8> {
    crate::rng::chacha_stream(master, 32 * (idx + 1)).subrange(32 * idx, 32 * (idx + 1))
}

/// The uniform ring element a component derives from sub-seed `idx` of
/// `master`.
pub open spec fn spec_seeded_uniform(master: Seq<u8>, idx: int, d: int, q: u64) -> Seq<u64> {
    crate::rng::spec_uniform_poly(
        crate::rng::chacha_stream(derive_seed_spec(master, idx), 8 * d),
        d,
        q,
    )
}

/// The centered-binomial noise element a component derives from sub-seed
/// `idx` of `master`.
pub open spec fn spec_seeded_noise(master: Seq<u8>, idx: int, d: int, q: u64, k: int) -> Seq<u64> {
    crate::rng::spec_noise_poly(
        crate::rng::chacha_stream(derive_seed_spec(master, idx), k * d),
        d,
        q,
        k,
    )
}

/// A 32-byte sub-seed: chunk `idx` of the ChaCha20 stream under `master`.
/// Distinct indices give independent streams for key columns.
pub fn derive_seed(master: &Vec<u8>, idx: usize) -> (r: Vec<u8>)
    requires
        master@.len() == 32,
        idx < 0x100_0000,
    ensures
        r@.len() == 32,
        r@ == derive_seed_spec(master@, idx as int),
{
    let bytes = prg_bytes(master, 32 * (idx + 1));
    let mut r: Vec<u8> = Vec::new();
    let mut i: usize = 0;
    while i < 32
        invariant
            i <= 32,
            bytes@.len() == 32 * (idx + 1),
            idx < 0x100_0000,
            bytes@ == crate::rng::chacha_stream(master@, 32 * (idx + 1)),
            r@.len() == i,
            forall|k: int| 0 <= k < i ==> r@[k] == bytes@[32 * idx + k],
        decreases 32 - i,
    {
        r.push(bytes[32 * idx + i]);
        i = i + 1;
    }
    proof {
        assert(r@ =~= crate::rng::chacha_stream(master@, 32 * (idx + 1)).subrange(
            32 * idx,
            32 * (idx + 1),
        ));
    }
    r
}

/// An automorphism key for `tau_k`: `t` columns
/// `(a_j, a_j*s + e_j - z^j * tau_k(s))`, plus the power `k`.
#[derive(Clone, Debug)]
pub struct AutoKey {
    pub w: Vec<Rlwe>,
    pub tau: usize,
}

impl AutoKey {
    /// Valid for ring dimension `d` and modulus `q` with `t` columns.
    pub open spec fn wf_for(&self, d: nat, q: u64, t: nat) -> bool {
        &&& self.w@.len() == t
        &&& t >= 1
        &&& forall|j: int|
            0 <= j < t ==> (#[trigger] self.w@[j]).wf() && self.w@[j].q() == q && self.w@[j].dim()
                == d
        &&& self.tau % 2 == 1
        &&& self.tau < 2 * d
    }
}

/// The automorphism key built from `seed`: column `j` is
/// `(a_j, a_j*s + e_j - z^j * tau(s))` with mask `a_j` from sub-seed `2j`
/// and noise `e_j` from sub-seed `2j+1`.
pub open spec fn auto_key_matches(
    k: AutoKey,
    s: Seq<u64>,
    z: u64,
    t: int,
    q: u64,
    d: int,
    tau: int,
    nk: int,
    seed: Seq<u8>,
) -> bool {
    &&& k.tau == tau
    &&& k.w@.len() == t
    &&& forall|j: int|
        0 <= j < t ==> ({
            let a = spec_seeded_uniform(seed, 2 * j, d, q);
            let e = spec_seeded_noise(seed, 2 * j + 1, d, q, nk);
            (#[trigger] k.w@[j]).c0@ == a && k.w@[j].c1@ == crate::ring::spec_poly_sub(
                crate::ring::spec_poly_add(crate::ring::spec_poly_mul(a, s, q), e, q),
                spec_poly_scale(spec_auto(s, tau, q), (pow(z as int, j as nat) % (q as int)) as u64, q),
                q,
            )
        })
}

/// Builds the automorphism key for `tau`: column `j` encrypts
/// `-z^j * tau(s)` under `s` with fresh mask and noise from `seed`.
pub fn auto_setup(tau: usize, s: &Poly, z: u64, t: usize, noise_k: usize, seed: &Vec<u8>) -> (r:
    AutoKey)
    requires
        s.wf(),
        tau % 2 == 1,
        tau < 2 * s@.len(),
        2 <= z <= s.q,
        1 <= t <= 64,
        seed@.len() == 32,
        noise_k <= 0x20_0000,
        noise_k * s@.len() <= 0x7FFF_FFFF,
        2 * noise_k < s.q,
    ensures
        r.wf_for(s@.len(), s.q, t as nat),
        auto_key_matches(r, s@, z, t as int, s.q, s@.len() as int, tau as int, noise_k as int,
            seed@),
{
    let d = s.coeffs.len();
    let q = s.q;
    let tau_s = s.auto(tau);
    let zpows = powers_mod(z, t, q);
    let mut w: Vec<Rlwe> = Vec::new();
    let mut j: usize = 0;
    while j < t
        invariant
            j <= t <= 64,
            s.wf(),
            d == s@.len(),
            q == s.q,
            tau < 2 * d,
            tau % 2 == 1,
            tau_s.wf(),
            tau_s.q == q,
            tau_s@.len() == d,
            tau_s@ == spec_auto(s@, tau as int, q),
            zpows@.len() == t,
            forall|k: int| 0 <= k < t ==> zpows@[k] < q,
            seed@.len() == 32,
            noise_k <= 0x20_0000,
            noise_k * d <= 0x7FFF_FFFF,
            2 * noise_k < q,
            forall|k: int| 0 <= k < t ==> zpows@[k] == pow(z as int, k as nat) % (q as int),
            w@.len() == j,
            forall|k: int|
                0 <= k < j ==> (#[trigger] w@[k]).wf() && w@[k].q() == q && w@[k].dim() == d,
            forall|k: int|
                0 <= k < j ==> ({
                    let a = spec_seeded_uniform(seed@, 2 * k, d as int, q);
                    let e = spec_seeded_noise(seed@, 2 * k + 1, d as int, q, noise_k as int);
                    (#[trigger] w@[k]).c0@ == a && w@[k].c1@ == crate::ring::spec_poly_sub(
                        crate::ring::spec_poly_add(
                            crate::ring::spec_poly_mul(a, s@, q),
                            e,
                            q,
                        ),
                        spec_poly_scale(
                            spec_auto(s@, tau as int, q),
                            (pow(z as int, k as nat) % (q as int)) as u64,
                            q,
                        ),
                        q,
                    )
                }),
        decreases t - j,
    {
        let seed_a = derive_seed(seed, 2 * j);
        let seed_e = derive_seed(seed, 2 * j + 1);
        let a = uniform_poly_from_seed(&seed_a, d, q);
        let e = noise_poly_from_seed(&seed_e, d, q, noise_k);
        // a*s + e - z^j * tau(s)
        proof {
            assert(a@ == spec_seeded_uniform(seed@, 2 * j, d as int, q));
            assert(e@ == spec_seeded_noise(seed@, 2 * j + 1, d as int, q, noise_k as int));
        }
        let c1 = a.mul(s).add(&e).sub(&tau_s.scale(zpows[j]));
        w.push(Rlwe { c0: a, c1 });
        j = j + 1;
    }
    AutoKey { w, tau }
}

/// What the homomorphic automorphism computes: both halves pass through
/// `tau_k`, and the key columns switch the transformed mask back under
/// the original secret — `W * gadget_inverse(tau(c0))` with `tau(c1)`
/// added onto the message row.
pub open spec fn spec_auto_hom(
    c: (Seq<u64>, Seq<u64>),
    key: AutoKey,
    z: u64,
    t: int,
    q: u64,
    d: nat,
) -> (Seq<u64>, Seq<u64>) {
    let tau0 = spec_auto(c.0, key.tau as int, q);
    let tau1 = spec_auto(c.1, key.tau as int, q);
    let comb = spec_col_comb(gsw_view(key.w@), spec_gadget_digits(tau0, z, t), q, d, t);
    (comb.0, spec_poly_add(comb.1, tau1, q))
}

/// Applies `tau_k` homomorphically.
pub fn auto_hom(key: &AutoKey, c: &Rlwe, z: u64, t: usize) -> (r: Rlwe)
    requires
        c.wf(),
        key.wf_for(c.dim(), c.q(), t as nat),
        2 <= z <= c.q(),
        1 <= t <= 64,
    ensures
        r.wf(),
        r.q() == c.q(),
        r.dim() == c.dim(),
        ({
            let a = spec_auto_hom((c.c0@, c.c1@), *key, z, t as int, c.q(), c.dim());
            r.c0@ == a.0 && r.c1@ == a.1
        }),
{
    let d = c.c0.dim();
    let q = c.c0.q;
    let tau0 = c.c0.auto(key.tau);
    let tau1 = c.c1.auto(key.tau);
    let digs = gadget_decompose(&tau0, z, t);
    proof {
        let target = spec_gadget_digits(tau0@, z, t as int);
        assert forall|j: int| 0 <= j < t implies digs@[j]@ =~= target[j] by {
            assert(target[j] =~= Seq::new(
                tau0@.len(),
                |ii: int| spec_digit(tau0@[ii], z, j as nat) as u64,
            ));
        }
        assert(Seq::new(digs@.len(), |j: int| digs@[j]@) =~= target);
    }
    let kg = Gsw { cols: key_cols_copy(&key.w) };
    proof {
        assert forall|j: int| 0 <= j < kg.cols@.len() implies (#[trigger] kg.cols@[j]).wf()
            && kg.cols@[0].same_ring(&kg.cols@[j]) by {
            assert(key.w@[j].wf());
            assert(key.w@[0].wf());
        }
        assert(kg.wf());
        assert(kg.q() == q && kg.dim() == d);
        assert(gsw_view(kg.cols@) =~= gsw_view(key.w@));
    }
    let comb = col_comb_loop(&kg, &digs, d, q);
    let c1 = comb.c1.add(&tau1);
    Rlwe { c0: comb.c0, c1 }
}

/// Copies a key's columns (the column views are preserved).
fn key_cols_copy(w: &Vec<Rlwe>) -> (r: Vec<Rlwe>)
    ensures
        r@.len() == w@.len(),
        forall|j: int|
            0 <= j < w@.len() ==> (#[trigger] r@[j]).c0.q == w@[j].c0.q && r@[j].c1.q == w@[j].c1.q
                && r@[j].c0@ == w@[j].c0@ && r@[j].c1@ == w@[j].c1@,
        forall|j: int| 0 <= j < w@.len() ==> (#[trigger] r@[j]).wf() == w@[j].wf(),
{
    let mut r: Vec<Rlwe> = Vec::new();
    let mut j: usize = 0;
    while j < w.len()
        invariant
            j <= w@.len(),
            r@.len() == j,
            forall|k: int|
                0 <= k < j ==> (#[trigger] r@[k]).c0.q == w@[k].c0.q && r@[k].c1.q == w@[k].c1.q
                    && r@[k].c0@ == w@[k].c0@ && r@[k].c1@ == w@[k].c1@,
            forall|k: int| 0 <= k < j ==> (#[trigger] r@[k]).wf() == w@[k].wf(),
        decreases w@.len() - j,
    {
        r.push(w[j].duplicate());
        j = j + 1;
    }
    r
}

/// Encrypts `mu` as a GSW ciphertext with the given masks and noises:
/// `(a^T ; a^T s + e^T) + G * mu` for the block gadget matrix `G`.
/// Column `j < t` carries `z^j * mu` on the mask row; column `t + j`
/// carries it on the message row.
pub fn encrypt_gsw_with(s: &Poly, mu: &Poly, a: &Vec<Poly>, e: &Vec<Poly>, z: u64, t: usize) -> (r:
    Gsw)
    requires
        s.wf(),
        mu.wf(),
        s.same_ring(mu),
        2 <= z <= s.q,
        1 <= t <= 64,
        a@.len() == 2 * t,
        e@.len() == 2 * t,
        forall|j: int|
            0 <= j < 2 * t ==> (#[trigger] a@[j]).wf() && a@[j].q == s.q && a@[j]@.len()
                == s@.len(),
        forall|j: int|
            0 <= j < 2 * t ==> (#[trigger] e@[j]).wf() && e@[j].q == s.q && e@[j]@.len()
                == s@.len(),
    ensures
        r.wf(),
        r.q() == s.q,
        r.dim() == s@.len(),
        r.m() == 2 * t,
        forall|j: int|
            0 <= j < t ==> (#[trigger] r.cols@[j]).c0@ == spec_poly_add(
                a@[j]@,
                spec_poly_scale(mu@, (pow(z as int, j as nat) % (s.q as int)) as u64, s.q),
                s.q,
            ) && r.cols@[j].c1@ == spec_encrypt_c1(
                a@[j]@,
                s@,
                e@[j]@,
                Seq::new(s@.len() as nat, |i: int| 0u64),
                s.q,
            ),
        forall|j: int|
            t <= j < 2 * t ==> (#[trigger] r.cols@[j]).c0@ == a@[j]@ && r.cols@[j].c1@
                == spec_encrypt_c1(
                a@[j]@,
                s@,
                e@[j]@,
                spec_poly_scale(mu@, (pow(z as int, (j - t) as nat) % (s.q as int)) as u64, s.q),
                s.q,
            ),
{
    let d = s.coeffs.len();
    let q = s.q;
    let zpows = powers_mod(z, t, q);
    let zero = Poly::zero(d, q);
    let mut cols: Vec<Rlwe> = Vec::new();
    let mut j: usize = 0;
    while j < t
        invariant
            j <= t <= 64,
            s.wf(),
            mu.wf(),
            s.same_ring(mu),
            d == s@.len(),
            q == s.q,
            zero.wf(),
            zero.q == q,
            zero@ == Seq::new(s@.len() as nat, |i: int| 0u64),
            zpows@.len() == t,
            forall|k: int| 0 <= k < t ==> zpows@[k] < q,
            forall|k: int|
                0 <= k < t ==> zpows@[k] == pow(z as int, k as nat) % (q as int),
            a@.len() == 2 * t,
            e@.len() == 2 * t,
            forall|k: int|
                0 <= k < 2 * t ==> (#[trigger] a@[k]).wf() && a@[k].q == q && a@[k]@.len() == d,
            forall|k: int|
                0 <= k < 2 * t ==> (#[trigger] e@[k]).wf() && e@[k].q == q && e@[k]@.len() == d,
            cols@.len() == j,
            forall|k: int|
                0 <= k < j ==> (#[trigger] cols@[k]).wf() && cols@[k].q() == q && cols@[k].dim()
                    == d,
            forall|k: int|
                0 <= k < j ==> (#[trigger] cols@[k]).c0@ == spec_poly_add(
                    a@[k]@,
                    spec_poly_scale(mu@, (pow(z as int, k as nat) % (q as int)) as u64, q),
                    q,
                ) && cols@[k].c1@ == spec_encrypt_c1(
                    a@[k]@,
                    s@,
                    e@[k]@,
                    Seq::new(s@.len() as nat, |i: int| 0u64),
                    q,
                ),
        decreases t - j,
    {
        let base = encrypt_rlwe_with(s, &zero, a[j].duplicate(), &e[j]);
        let c0 = base.c0.add(&mu.scale(zpows[j]));
        cols.push(Rlwe { c0, c1: base.c1 });
        j = j + 1;
    }
    let mut k: usize = 0;
    while k < t
        invariant
            k <= t <= 64,
            s.wf(),
            mu.wf(),
            s.same_ring(mu),
            d == s@.len(),
            q == s.q,
            zpows@.len() == t,
            forall|kk: int| 0 <= kk < t ==> zpows@[kk] < q,
            forall|kk: int|
                0 <= kk < t ==> zpows@[kk] == pow(z as int, kk as nat) % (q as int),
            a@.len() == 2 * t,
            e@.len() == 2 * t,
            forall|kk: int|
                0 <= kk < 2 * t ==> (#[trigger] a@[kk]).wf() && a@[kk].q == q && a@[kk]@.len()
                    == d,
            forall|kk: int|
                0 <= kk < 2 * t ==> (#[trigger] e@[kk]).wf() && e@[kk].q == q && e@[kk]@.len()
                    == d,
            cols@.len() == t + k,
            forall|kk: int|
                0 <= kk < t + k ==> (#[trigger] cols@[kk]).wf() && cols@[kk].q() == q
                    && cols@[kk].dim() == d,
            forall|kk: int|
                0 <= kk < t ==> (#[trigger] cols@[kk]).c0@ == spec_poly_add(
                    a@[kk]@,
                    spec_poly_scale(mu@, (pow(z as int, kk as nat) % (q as int)) as u64, q),
                    q,
                ) && cols@[kk].c1@ == spec_encrypt_c1(
                    a@[kk]@,
                    s@,
                    e@[kk]@,
                    Seq::new(s@.len() as nat, |i: int| 0u64),
                    q,
                ),
            forall|kk: int|
                t <= kk < t + k ==> (#[trigger] cols@[kk]).c0@ == a@[kk]@ && cols@[kk].c1@
                    == spec_encrypt_c1(
                    a@[kk]@,
                    s@,
                    e@[kk]@,
                    spec_poly_scale(
                        mu@,
                        (pow(z as int, (kk - t) as nat) % (q as int)) as u64,
                        q,
                    ),
                    q,
                ),
        decreases t - k,
    {
        let muz = mu.scale(zpows[k]);
        let col = encrypt_rlwe_with(s, &muz, a[t + k].duplicate(), &e[t + k]);
        cols.push(col);
        k = k + 1;
    }
    Gsw { cols }
}

/// The GSW round trip on a message-row column: column `t + j` of
/// `encrypt_gsw_with` is an RLWE pair `(a, a*s + e + z^j * mu)`, so
/// decrypting it yields exactly `e + z^j * mu` — the mask cancels, as in
/// the scalar RLWE round trip.
pub proof fn lemma_gsw_round_trip(
    s: Seq<u64>,
    mu: Seq<u64>,
    a: Seq<u64>,
    e: Seq<u64>,
    zpow: u64,
    q: u64,
)
    requires
        crate::ring::coeffs_ok(s, q),
        crate::ring::coeffs_ok(mu, q),
        crate::ring::coeffs_ok(a, q),
        crate::ring::coeffs_ok(e, q),
        mu.len() == s.len(),
        a.len() == s.len(),
        e.len() == s.len(),
    ensures
        crate::rlwe::spec_decrypt(
            a,
            spec_encrypt_c1(a, s, e, spec_poly_scale(mu, zpow, q), q),
            s,
            q,
        ) == crate::ring::spec_poly_add(e, spec_poly_scale(mu, zpow, q), q),
{
    let muz = spec_poly_scale(mu, zpow, q);
    assert forall|i: int| 0 <= i < muz.len() implies muz[i] < q by {
        vstd::arithmetic::div_mod::lemma_mod_bound(mu[i] * zpow, q as int);
    }
    assert(crate::ring::coeffs_ok(muz, q));
    crate::rlwe::lemma_rlwe_round_trip(s, muz, a, e, q);
}

/// The GSW encryption of a constant `bit` built from `seed`: the masks
/// and noises of `encrypt_gsw_with`, with mask `x` from sub-seed `2x` and
/// noise `x` from sub-seed `2x+1`, and the message the constant
/// polynomial `bit`.
pub open spec fn gsw_bit_matches(
    g: Gsw,
    s: Seq<u64>,
    bit: u64,
    z: u64,
    t: int,
    q: u64,
    d: int,
    nk: int,
    seed: Seq<u8>,
) -> bool {
    let mu = Seq::new(d as nat, |i: int| if i == 0 { bit } else { 0u64 });
    &&& g.cols@.len() == 2 * t
    &&& forall|j: int|
        0 <= j < t ==> ({
            let a = spec_seeded_uniform(seed, 2 * j, d, q);
            let e = spec_seeded_noise(seed, 2 * j + 1, d, q, nk);
            (#[trigger] g.cols@[j]).c0@ == crate::ring::spec_poly_add(
                a,
                spec_poly_scale(mu, (pow(z as int, j as nat) % (q as int)) as u64, q),
                q,
            ) && g.cols@[j].c1@ == spec_encrypt_c1(
                a,
                s,
                e,
                Seq::new(d as nat, |i: int| 0u64),
                q,
            )
        })
    &&& forall|j: int|
        t <= j < 2 * t ==> ({
            let a = spec_seeded_uniform(seed, 2 * j, d, q);
            let e = spec_seeded_noise(seed, 2 * j + 1, d, q, nk);
            (#[trigger] g.cols@[j]).c0@ == a && g.cols@[j].c1@ == spec_encrypt_c1(
                a,
                s,
                e,
                spec_poly_scale(mu, (pow(z as int, (j - t) as nat) % (q as int)) as u64, q),
                q,
            )
        })
}

/// Encrypts a constant bit as GSW, with masks and noise derived from
/// `seed` (mask columns from even chunks, noise from odd chunks).
pub fn encrypt_gsw_bit_seeded(s: &Poly, bit: u64, z: u64, t: usize, noise_k: usize, seed: &Vec<
    u8,
>) -> (r: Gsw)
    requires
        s.wf(),
        bit < s.q,
        2 <= z <= s.q,
        1 <= t <= 64,
        seed@.len() == 32,
        noise_k <= 0x20_0000,
        noise_k * s@.len() <= 0x7FFF_FFFF,
        2 * noise_k < s.q,
    ensures
        r.wf(),
        r.q() == s.q,
        r.dim() == s@.len(),
        r.m() == 2 * t,
        gsw_bit_matches(r, s@, bit, z, t as int, s.q, s@.len() as int, noise_k as int, seed@),
{
    let d = s.coeffs.len();
    let q = s.q;
    let mut mu = Poly::zero(d, q);
    mu.coeffs.set(0, bit);
    proof {
        assert(mu@ =~= Seq::new(d as nat, |i: int| if i == 0 { bit } else { 0u64 }));
    }
    let mut a: Vec<Poly> = Vec::new();
    let mut e: Vec<Poly> = Vec::new();
    let mut j: usize = 0;
    while j < 2 * t
        invariant
            j <= 2 * t <= 128,
            s.wf(),
            d == s@.len(),
            q == s.q,
            seed@.len() == 32,
            noise_k <= 0x20_0000,
            noise_k * d <= 0x7FFF_FFFF,
            2 * noise_k < q,
            a@.len() == j,
            e@.len() == j,
            forall|k: int|
                0 <= k < j ==> (#[trigger] a@[k]).wf() && a@[k].q == q && a@[k]@.len() == d,
            forall|k: int|
                0 <= k < j ==> (#[trigger] e@[k]).wf() && e@[k].q == q && e@[k]@.len() == d,
            forall|k: int|
                0 <= k < j ==> (#[trigger] a@[k]@) == spec_seeded_uniform(seed@, 2 * k, d as int,
                    q),
            forall|k: int|
                0 <= k < j ==> (#[trigger] e@[k]@) == spec_seeded_noise(seed@, 2 * k + 1,
                    d as int, q, noise_k as int),
        decreases 2 * t - j,
    {
        let seed_a = derive_seed(seed, 2 * j);
        let seed_e = derive_seed(seed, 2 * j + 1);
        a.push(uniform_poly_from_seed(&seed_a, d, q));
        e.push(noise_poly_from_seed(&seed_e, d, q, noise_k));
        j = j + 1;
    }
    let r = encrypt_gsw_with(s, &mu, &a, &e, z, t);
    proof {
        assert(gsw_bit_matches(r, s@, bit, z, t as int, q, d as int, noise_k as int, seed@));
    }
    r
}

/// The RLWE-to-GSW conversion key: a `2 x 2t_conv` matrix `V` such that
/// `V * gadget_inverse(C_hat)` completes the mask rows of a GSW ciphertext
/// from RLWE encryptions of the gadget-scaled bit.
#[derive(Clone, Debug)]
pub struct RlweToGswKey {
    pub cols: Vec<Rlwe>,
}

impl RlweToGswKey {
    /// Valid for ring dimension `d`, modulus `q`, with `2*t_conv` columns.
    pub open spec fn wf_for(&self, d: nat, q: u64, t_conv: nat) -> bool {
        &&& self.cols@.len() == 2 * t_conv
        &&& t_conv >= 1
        &&& forall|j: int|
            0 <= j < self.cols@.len() ==> (#[trigger] self.cols@[j]).wf() && self.cols@[j].q() == q
                && self.cols@[j].dim() == d
    }
}

/// The conversion key built from `seed`: column `k < t` is
/// `(a_k, a_k*s + e_k + s^2 z^k)` and column `t + k` is
/// `(a_{t+k}, a_{t+k}*s + e_{t+k} - s z^k)`, with mask `a_x` from
/// sub-seed `2x` and noise `e_x` from sub-seed `2x+1`.
pub open spec fn conv_key_matches(
    key: RlweToGswKey,
    s: Seq<u64>,
    z: u64,
    t: int,
    q: u64,
    d: int,
    nk: int,
    seed: Seq<u8>,
) -> bool {
    &&& key.cols@.len() == 2 * t
    &&& forall|j: int|
        0 <= j < t ==> ({
            let a = spec_seeded_uniform(seed, 2 * j, d, q);
            let e = spec_seeded_noise(seed, 2 * j + 1, d, q, nk);
            (#[trigger] key.cols@[j]).c0@ == a && key.cols@[j].c1@ == crate::ring::spec_poly_add(
                crate::ring::spec_poly_add(crate::ring::spec_poly_mul(a, s, q), e, q),
                spec_poly_scale(
                    crate::ring::spec_poly_mul(s, s, q),
                    (pow(z as int, j as nat) % (q as int)) as u64,
                    q,
                ),
                q,
            )
        })
    &&& forall|j: int|
        t <= j < 2 * t ==> ({
            let a = spec_seeded_uniform(seed, 2 * j, d, q);
            let e = spec_seeded_noise(seed, 2 * j + 1, d, q, nk);
            (#[trigger] key.cols@[j]).c0@ == a && key.cols@[j].c1@ == crate::ring::spec_poly_sub(
                crate::ring::spec_poly_add(crate::ring::spec_poly_mul(a, s, q), e, q),
                spec_poly_scale(s, (pow(z as int, (j - t) as nat) % (q as int)) as u64, q),
                q,
            )
        })
}

/// Builds the conversion key from the secret: columns
/// `(a_k, a_k*s + e_k + s^2 z^k)` for `k < t_conv` and
/// `(a_k, a_k*s + e_k - s z^(k-t_conv))` for the rest.
pub fn rlwe_to_gsw_setup(s: &Poly, z_conv: u64, t_conv: usize, noise_k: usize, seed: &Vec<u8>) -> (
    r: RlweToGswKey)
    requires
        s.wf(),
        2 <= z_conv <= s.q,
        1 <= t_conv <= 64,
        seed@.len() == 32,
        noise_k <= 0x20_0000,
        noise_k * s@.len() <= 0x7FFF_FFFF,
        2 * noise_k < s.q,
    ensures
        r.wf_for(s@.len(), s.q, t_conv as nat),
        conv_key_matches(r, s@, z_conv, t_conv as int, s.q, s@.len() as int, noise_k as int,
            seed@),
{
    let d = s.coeffs.len();
    let q = s.q;
    let zpows = powers_mod(z_conv, t_conv, q);
    let s_sq = s.mul(s);
    let mut cols: Vec<Rlwe> = Vec::new();
    let mut j: usize = 0;
    while j < t_conv
        invariant
            j <= t_conv <= 64,
            s.wf(),
            d == s@.len(),
            q == s.q,
            s_sq.wf(),
            s_sq.q == q,
            s_sq@.len() == d,
            s_sq@ == crate::ring::spec_poly_mul(s@, s@, q),
            zpows@.len() == t_conv,
            forall|k: int| 0 <= k < t_conv ==> zpows@[k] < q,
            forall|k: int|
                0 <= k < t_conv ==> zpows@[k] == pow(z_conv as int, k as nat) % (q as int),
            seed@.len() == 32,
            noise_k <= 0x20_0000,
            noise_k * d <= 0x7FFF_FFFF,
            2 * noise_k < q,
            cols@.len() == j,
            forall|k: int|
                0 <= k < j ==> (#[trigger] cols@[k]).wf() && cols@[k].q() == q && cols@[k].dim()
                    == d,
            forall|k: int|
                0 <= k < j ==> ({
                    let a = spec_seeded_uniform(seed@, 2 * k, d as int, q);
                    let e = spec_seeded_noise(seed@, 2 * k + 1, d as int, q, noise_k as int);
                    (#[trigger] cols@[k]).c0@ == a && cols@[k].c1@
                        == crate::ring::spec_poly_add(
                        crate::ring::spec_poly_add(
                            crate::ring::spec_poly_mul(a, s@, q),
                            e,
                            q,
                        ),
                        spec_poly_scale(
                            crate::ring::spec_poly_mul(s@, s@, q),
                            (pow(z_conv as int, k as nat) % (q as int)) as u64,
                            q,
                        ),
                        q,
                    )
                }),
        decreases t_conv - j,
    {
        let seed_a = derive_seed(seed, 2 * j);
        let seed_e = derive_seed(seed, 2 * j + 1);
        let a = uniform_poly_from_seed(&seed_a, d, q);
        let e = noise_poly_from_seed(&seed_e, d, q, noise_k);
        proof {
            assert(a@ == spec_seeded_uniform(seed@, 2 * j, d as int, q));
            assert(e@ == spec_seeded_noise(seed@, 2 * j + 1, d as int, q, noise_k as int));
        }
        let c1 = a.mul(s).add(&e).add(&s_sq.scale(zpows[j]));
        cols.push(Rlwe { c0: a, c1 });
        j = j + 1;
    }
    let mut k: usize = 0;
    while k < t_conv
        invariant
            k <= t_conv <= 64,
            s.wf(),
            d == s@.len(),
            q == s.q,
            zpows@.len() == t_conv,
            forall|kk: int| 0 <= kk < t_conv ==> zpows@[kk] < q,
            forall|kk: int|
                0 <= kk < t_conv ==> zpows@[kk] == pow(z_conv as int, kk as nat) % (q as int),
            seed@.len() == 32,
            noise_k <= 0x20_0000,
            noise_k * d <= 0x7FFF_FFFF,
            2 * noise_k < q,
            cols@.len() == t_conv + k,
            forall|kk: int|
                0 <= kk < t_conv + k ==> (#[trigger] cols@[kk]).wf() && cols@[kk].q() == q
                    && cols@[kk].dim() == d,
            forall|kk: int|
                0 <= kk < t_conv ==> ({
                    let a = spec_seeded_uniform(seed@, 2 * kk, d as int, q);
                    let e = spec_seeded_noise(seed@, 2 * kk + 1, d as int, q, noise_k as int);
                    (#[trigger] cols@[kk]).c0@ == a && cols@[kk].c1@
                        == crate::ring::spec_poly_add(
                        crate::ring::spec_poly_add(
                            crate::ring::spec_poly_mul(a, s@, q),
                            e,
                            q,
                        ),
                        spec_poly_scale(
                            crate::ring::spec_poly_mul(s@, s@, q),
                            (pow(z_conv as int, kk as nat) % (q as int)) as u64,
                            q,
                        ),
                        q,
                    )
                }),
            forall|kk: int|
                t_conv <= kk < t_conv + k ==> ({
                    let a = spec_seeded_uniform(seed@, 2 * kk, d as int, q);
                    let e = spec_seeded_noise(seed@, 2 * kk + 1, d as int, q, noise_k as int);
                    (#[trigger] cols@[kk]).c0@ == a && cols@[kk].c1@
                        == crate::ring::spec_poly_sub(
                        crate::ring::spec_poly_add(
                            crate::ring::spec_poly_mul(a, s@, q),
                            e,
                            q,
                        ),
                        spec_poly_scale(
                            s@,
                            (pow(z_conv as int, (kk - t_conv) as nat) % (q as int)) as u64,
                            q,
                        ),
                        q,
                    )
                }),
        decreases t_conv - k,
    {
        let seed_a = derive_seed(seed, 2 * (t_conv + k));
        let seed_e = derive_seed(seed, 2 * (t_conv + k) + 1);
        let a = uniform_poly_from_seed(&seed_a, d, q);
        let e = noise_poly_from_seed(&seed_e, d, q, noise_k);
        proof {
            assert(a@ == spec_seeded_uniform(seed@, 2 * (t_conv + k), d as int, q));
            assert(e@ == spec_seeded_noise(seed@, 2 * (t_conv + k) + 1, d as int, q,
                noise_k as int));
        }
        let c1 = a.mul(s).add(&e).sub(&s.scale(zpows[k]));
        cols.push(Rlwe { c0: a, c1 });
        k = k + 1;
    }
    RlweToGswKey { cols }
}

/// Promotes `t_gsw` RLWE encryptions of one bit scaled by `z^j` into a GSW
/// ciphertext: the mask-row columns are `V * gadget_inverse(c_j)`, the
/// message-row columns are the inputs themselves.
pub fn rlwe_to_gsw(key: &RlweToGswKey, cs: &Vec<Rlwe>, z_conv: u64, t_conv: usize) -> (r: Gsw)
    requires
        cs@.len() >= 1,
        forall|j: int| 0 <= j < cs@.len() ==> (#[trigger] cs@[j]).wf(),
        forall|j: int|
            0 <= j < cs@.len() ==> (#[trigger] cs@[j]).q() == cs@[0].q() && cs@[j].dim()
                == cs@[0].dim(),
        key.wf_for(cs@[0].dim(), cs@[0].q(), t_conv as nat),
        2 <= z_conv <= cs@[0].q(),
        1 <= t_conv <= 64,
        cs@.len() <= 64,
    ensures
        r.wf(),
        r.q() == cs@[0].q(),
        r.dim() == cs@[0].dim(),
        r.m() == 2 * cs@.len(),
        forall|j: int|
            0 <= j < cs@.len() ==> ({
                let comb = crate::gsw::spec_hybrid(
                    gsw_view(key.cols@),
                    cs@[j].c0@,
                    cs@[j].c1@,
                    z_conv,
                    t_conv as int,
                    cs@[0].q(),
                );
                (#[trigger] r.cols@[j]).c0@ == comb.0 && r.cols@[j].c1@ == comb.1
            }),
        forall|j: int|
            cs@.len() <= j < 2 * cs@.len() ==> (#[trigger] r.cols@[j]).c0@ == cs@[j
                - cs@.len()].c0@ && r.cols@[j].c1@ == cs@[j - cs@.len()].c1@,
{
    let q = cs[0].c0.q;
    let t_gsw = cs.len();
    let kg = Gsw { cols: key_cols_copy(&key.cols) };
    proof {
        assert forall|j: int| 0 <= j < kg.cols@.len() implies (#[trigger] kg.cols@[j]).wf()
            && kg.cols@[0].same_ring(&kg.cols@[j]) by {
            assert(key.cols@[j].wf());
            assert(key.cols@[0].wf());
        }
        assert(kg.wf());
        assert(gsw_view(kg.cols@) =~= gsw_view(key.cols@));
    }
    let mut cols: Vec<Rlwe> = Vec::new();
    let mut j: usize = 0;
    while j < t_gsw
        invariant
            j <= t_gsw,
            t_gsw == cs@.len(),
            forall|k: int| 0 <= k < cs@.len() ==> (#[trigger] cs@[k]).wf(),
            forall|k: int|
                0 <= k < cs@.len() ==> (#[trigger] cs@[k]).q() == cs@[0].q() && cs@[k].dim()
                    == cs@[0].dim(),
            key.wf_for(cs@[0].dim(), cs@[0].q(), t_conv as nat),
            kg.wf(),
            kg.q() == cs@[0].q(),
            kg.dim() == cs@[0].dim(),
            kg.m() == 2 * t_conv,
            gsw_view(kg.cols@) == gsw_view(key.cols@),
            2 <= z_conv <= cs@[0].q(),
            1 <= t_conv <= 64,
            q == cs@[0].q(),
            cols@.len() == j,
            forall|k: int|
                0 <= k < j ==> (#[trigger] cols@[k]).wf() && cols@[k].q() == q && cols@[k].dim()
                    == cs@[0].dim(),
            forall|k: int|
                0 <= k < j ==> ({
                    let comb = crate::gsw::spec_hybrid(
                        gsw_view(key.cols@),
                        cs@[k].c0@,
                        cs@[k].c1@,
                        z_conv,
                        t_conv as int,
                        cs@[0].q(),
                    );
                    (#[trigger] cols@[k]).c0@ == comb.0 && cols@[k].c1@ == comb.1
                }),
        decreases t_gsw - j,
    {
        let h = crate::gsw::hybrid_mul_hom(&cs[j], &kg, z_conv, t_conv);
        cols.push(h);
        j = j + 1;
    }
    let mut k: usize = 0;
    while k < t_gsw
        invariant
            k <= t_gsw,
            t_gsw == cs@.len(),
            forall|kk: int| 0 <= kk < cs@.len() ==> (#[trigger] cs@[kk]).wf(),
            forall|kk: int|
                0 <= kk < cs@.len() ==> (#[trigger] cs@[kk]).q() == cs@[0].q() && cs@[kk].dim()
                    == cs@[0].dim(),
            q == cs@[0].q(),
            cols@.len() == t_gsw + k,
            forall|kk: int|
                0 <= kk < t_gsw + k ==> (#[trigger] cols@[kk]).wf() && cols@[kk].q() == q
                    && cols@[kk].dim() == cs@[0].dim(),
            forall|kk: int|
                0 <= kk < t_gsw ==> ({
                    let comb = crate::gsw::spec_hybrid(
                        gsw_view(key.cols@),
                        cs@[kk].c0@,
                        cs@[kk].c1@,
                        z_conv,
                        t_conv as int,
                        cs@[0].q(),
                    );
                    (#[trigger] cols@[kk]).c0@ == comb.0 && cols@[kk].c1@ == comb.1
                }),
            forall|kk: int|
                t_gsw <= kk < t_gsw + k ==> (#[trigger] cols@[kk]).c0@ == cs@[kk - t_gsw].c0@
                    && cols@[kk].c1@ == cs@[kk - t_gsw].c1@,
        decreases t_gsw - k,
    {
        cols.push(cs[k].duplicate());
        k = k + 1;
    }
    Gsw { cols }
}

} // verus!
