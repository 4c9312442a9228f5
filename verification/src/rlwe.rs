//! RLWE ciphertexts: pairs `(c0, c1)` over `R_q` decrypting to `c1 - c0*s`.
//!
//! Encryption with explicit randomness is verified algebra; the seeded form
//! regenerates `c0` from a 32-byte seed through the protocol PRG, so server
//! and client derive bit-identical masks.
use vstd::prelude::*;
use vstd::arithmetic::div_mod::{
    lemma_add_mod_noop_right, lemma_mod_bound, lemma_mod_twice, lemma_small_mod,
    lemma_sub_mod_noop,
};
use crate::ring::{
    coeffs_ok, spec_mul_x_pow, spec_poly_add, spec_poly_mul, spec_poly_scale, spec_poly_sub, Poly,
};
use crate::rng::{
    chacha_stream, noise_poly_from_seed, spec_noise_poly, spec_uniform_poly, uniform_poly_from_seed,
};

verus! {

/// What decryption computes: `c1 - c0 * s` in `R_q`.
pub open spec fn spec_decrypt(c0: Seq<u64>, c1: Seq<u64>, s: Seq<u64>, q: u64) -> Seq<u64> {
    spec_poly_sub(c1, spec_poly_mul(c0, s, q), q)
}

/// What encryption computes for the message half: `c0 * s + e + mu`.
pub open spec fn spec_encrypt_c1(c0: Seq<u64>, s: Seq<u64>, e: Seq<u64>, mu: Seq<u64>, q: u64)
    -> Seq<u64> {
    spec_poly_add(spec_poly_add(spec_poly_mul(c0, s, q), e, q), mu, q)
}

/// An RLWE ciphertext.
#[derive(Clone, Debug)]
pub struct Rlwe {
    pub c0: Poly,
    pub c1: Poly,
}

impl Rlwe {
    /// Both halves valid, in the same ring.
    pub open spec fn wf(&self) -> bool {
        self.c0.wf() && self.c1.wf() && self.c0.same_ring(&self.c1)
    }

    /// Ring modulus.
    pub open spec fn q(&self) -> u64 {
        self.c0.q
    }

    /// Ring dimension.
    pub open spec fn dim(&self) -> nat {
        self.c0@.len()
    }

    /// Same modulus and dimension as another ciphertext.
    pub open spec fn same_ring(&self, other: &Rlwe) -> bool {
        self.c0.same_ring(&other.c0)
    }

    /// The zero ciphertext.
    pub fn zero(d: usize, q: u64) -> (r: Rlwe)
        requires
            2 <= q < crate::ring::Q_LIMIT,
            1 <= d <= crate::ring::D_LIMIT,
        ensures
            r.wf(),
            r.q() == q,
            r.dim() == d,
            forall|i: int| 0 <= i < d ==> r.c0@[i] == 0u64 && r.c1@[i] == 0u64,
    {
        Rlwe { c0: Poly::zero(d, q), c1: Poly::zero(d, q) }
    }

    /// Componentwise sum: adds the encrypted messages (and the noises).
    pub fn add(&self, other: &Rlwe) -> (r: Rlwe)
        requires
            self.wf(),
            other.wf(),
            self.same_ring(other),
        ensures
            r.wf(),
            r.q() == self.q(),
            r.c0@ == spec_poly_add(self.c0@, other.c0@, self.q()),
            r.c1@ == spec_poly_add(self.c1@, other.c1@, self.q()),
    {
        Rlwe { c0: self.c0.add(&other.c0), c1: self.c1.add(&other.c1) }
    }

    /// Componentwise difference: subtracts the encrypted messages.
    pub fn sub(&self, other: &Rlwe) -> (r: Rlwe)
        requires
            self.wf(),
            other.wf(),
            self.same_ring(other),
        ensures
            r.wf(),
            r.q() == self.q(),
            r.c0@ == spec_poly_sub(self.c0@, other.c0@, self.q()),
            r.c1@ == spec_poly_sub(self.c1@, other.c1@, self.q()),
    {
        Rlwe { c0: self.c0.sub(&other.c0), c1: self.c1.sub(&other.c1) }
    }

    /// Multiplies both halves by `X^k`: rotates the encrypted message.
    pub fn mul_x_pow(&self, k: usize) -> (r: Rlwe)
        requires
            self.wf(),
            k < 2 * self.dim(),
        ensures
            r.wf(),
            r.q() == self.q(),
            r.c0@ == spec_mul_x_pow(self.c0@, k as int, self.q()),
            r.c1@ == spec_mul_x_pow(self.c1@, k as int, self.q()),
    {
        Rlwe { c0: self.c0.mul_x_pow(k), c1: self.c1.mul_x_pow(k) }
    }

    /// An equal copy.
    pub fn duplicate(&self) -> (r: Rlwe)
        ensures
            r.c0.q == self.c0.q,
            r.c1.q == self.c1.q,
            r.c0@ == self.c0@,
            r.c1@ == self.c1@,
    {
        Rlwe { c0: self.c0.duplicate(), c1: self.c1.duplicate() }
    }

    /// Multiplies both halves by the scalar `c`: scales the encrypted message.
    pub fn scale(&self, c: u64) -> (r: Rlwe)
        requires
            self.wf(),
            c < self.q(),
        ensures
            r.wf(),
            r.q() == self.q(),
            r.c0@ == spec_poly_scale(self.c0@, c, self.q()),
            r.c1@ == spec_poly_scale(self.c1@, c, self.q()),
    {
        Rlwe { c0: self.c0.scale(c), c1: self.c1.scale(c) }
    }
}

/// Encrypts `mu` under secret `s` with the given mask and noise:
/// `(c0, c0*s + e + mu)`.
pub fn encrypt_rlwe_with(s: &Poly, mu: &Poly, c0: Poly, e: &Poly) -> (r: Rlwe)
    requires
        s.wf(),
        mu.wf(),
        c0.wf(),
        e.wf(),
        s.same_ring(mu),
        s.same_ring(&c0),
        s.same_ring(e),
    ensures
        r.wf(),
        r.q() == s.q,
        r.c0 == c0,
        r.c1@ == spec_encrypt_c1(c0@, s@, e@, mu@, s.q),
{
    let c1 = c0.mul(s).add(e).add(mu);
    Rlwe { c0, c1 }
}

/// Decrypts: `c1 - c0*s`, the message plus the encryption noise.
pub fn decrypt_rlwe(s: &Poly, c: &Rlwe) -> (r: Poly)
    requires
        s.wf(),
        c.wf(),
        s.same_ring(&c.c0),
    ensures
        r.wf(),
        r.q == s.q,
        r@ == spec_decrypt(c.c0@, c.c1@, s@, s.q),
{
    c.c1.sub(&c.c0.mul(s))
}

/// Round trip of the RLWE layer: decrypting a ciphertext built from mask
/// `c0` and noise `e` yields exactly `mu + e` in `R_q` — the mask cancels.
/// Recovering the message itself is then the rounding step, which succeeds
/// whenever `e` is small (see the scaling laws).
pub proof fn lemma_rlwe_round_trip(s: Seq<u64>, mu: Seq<u64>, c0: Seq<u64>, e: Seq<u64>, q: u64)
    requires
        coeffs_ok(s, q),
        coeffs_ok(mu, q),
        coeffs_ok(c0, q),
        coeffs_ok(e, q),
        mu.len() == s.len(),
        c0.len() == s.len(),
        e.len() == s.len(),
    ensures
        spec_decrypt(c0, spec_encrypt_c1(c0, s, e, mu, q), s, q) == spec_poly_add(e, mu, q),
{
    let qi = q as int;
    let x = spec_poly_mul(c0, s, q);
    let lhs = spec_decrypt(c0, spec_encrypt_c1(c0, s, e, mu, q), s, q);
    let rhs = spec_poly_add(e, mu, q);
    assert forall|i: int| 0 <= i < s.len() implies lhs[i] == rhs[i] by {
        let xi = x[i] as int;
        let ei = e[i] as int;
        let mi = mu[i] as int;
        lemma_mod_bound(xi + ei, qi);
        lemma_mod_bound((xi + ei) % qi + mi, qi);
        lemma_mod_bound(ei + mi, qi);
        // ((x + e) % q + m) % q == (x + e + m) % q
        lemma_add_mod_noop_right(mi, xi + ei, qi);
        lemma_small_mod(mu[i] as nat, q as nat);
        assert(((xi + ei) % qi + mi) % qi == (xi + ei + mi) % qi);
        // ((x + e + m) % q - x) % q == (e + m) % q
        lemma_sub_mod_noop(xi + ei + mi, xi, qi);
        lemma_small_mod(x[i] as nat, q as nat);
        lemma_mod_twice(xi + ei + mi, qi);
        assert(((xi + ei + mi) % qi - xi) % qi == (ei + mi) % qi);
    }
    assert(lhs =~= rhs);
}

/// The homomorphic identity of ciphertext subtraction: decrypting the
/// componentwise difference gives the difference of the decryptions, in
/// `R_q`.  (The messages subtract exactly; so do the noises.)
pub proof fn lemma_rlwe_sub_hom(
    a0: Seq<u64>,
    a1: Seq<u64>,
    b0: Seq<u64>,
    b1: Seq<u64>,
    s: Seq<u64>,
    q: u64,
)
    requires
        coeffs_ok(a0, q),
        coeffs_ok(a1, q),
        coeffs_ok(b0, q),
        coeffs_ok(b1, q),
        coeffs_ok(s, q),
        a1.len() == a0.len(),
        b0.len() == a0.len(),
        b1.len() == a0.len(),
        s.len() == a0.len(),
    ensures
        spec_decrypt(
            crate::ring::spec_poly_sub(a0, b0, q),
            crate::ring::spec_poly_sub(a1, b1, q),
            s,
            q,
        ) == crate::ring::spec_poly_sub(
            spec_decrypt(a0, a1, s, q),
            spec_decrypt(b0, b1, s, q),
            q,
        ),
{
    let qi = q as int;
    crate::ring::lemma_poly_mul_sub_left(a0, b0, s, q);
    let ma = spec_poly_mul(a0, s, q);
    let mb = spec_poly_mul(b0, s, q);
    let lhs = spec_decrypt(
        crate::ring::spec_poly_sub(a0, b0, q),
        crate::ring::spec_poly_sub(a1, b1, q),
        s,
        q,
    );
    let rhs = crate::ring::spec_poly_sub(
        spec_decrypt(a0, a1, s, q),
        spec_decrypt(b0, b1, s, q),
        q,
    );
    assert forall|i: int| 0 <= i < a0.len() implies lhs[i] == rhs[i] by {
        let x1 = a1[i] as int;
        let y1 = b1[i] as int;
        let xm = ma[i] as int;
        let ym = mb[i] as int;
        // lhs: ((a1 - b1) % q - (ma - mb) % q) % q
        lemma_mod_bound(x1 - y1, qi);
        lemma_mod_bound(xm - ym, qi);
        lemma_sub_mod_noop(x1 - y1, xm - ym, qi);
        vstd::arithmetic::div_mod::lemma_mod_twice(x1 - y1, qi);
        vstd::arithmetic::div_mod::lemma_mod_twice(xm - ym, qi);
        assert(((x1 - y1) % qi - (xm - ym) % qi) % qi == ((x1 - y1) - (xm - ym)) % qi);
        // rhs: ((a1 - ma) % q - (b1 - mb) % q) % q
        lemma_sub_mod_noop(x1 - xm, y1 - ym, qi);
        vstd::arithmetic::div_mod::lemma_mod_twice(x1 - xm, qi);
        vstd::arithmetic::div_mod::lemma_mod_twice(y1 - ym, qi);
        assert(((x1 - xm) % qi - (y1 - ym) % qi) % qi == ((x1 - xm) - (y1 - ym)) % qi);
    }
    assert(lhs =~= rhs);
}

/// A seeded RLWE ciphertext: the mask `c0` is regenerated from the seed
/// through the protocol PRG, so only `(seed, c1)` travels.
#[derive(Clone, Debug)]
pub struct SeededRlwe {
    pub seed: Vec<u8>,
    pub c1: Poly,
}

impl SeededRlwe {
    /// Valid seed length and message half.
    pub open spec fn wf(&self) -> bool {
        self.seed@.len() == 32 && self.c1.wf()
    }

    /// The mask this seed denotes.
    pub open spec fn spec_c0(&self) -> Seq<u64> {
        spec_uniform_poly(
            chacha_stream(self.seed@, 8 * self.c1@.len() as int),
            self.c1@.len() as int,
            self.c1.q,
        )
    }
}

/// Encrypts `mu` as a seeded ciphertext: the mask is the PRG expansion of
/// `seed`, the noise is centered-binomial of parameter `noise_k` derived
/// from `noise_seed`.
pub fn encrypt_rlwe_seeded(s: &Poly, mu: &Poly, seed: Vec<u8>, noise_seed: &Vec<u8>,
    noise_k: usize) -> (r: SeededRlwe)
    requires
        s.wf(),
        mu.wf(),
        s.same_ring(mu),
        seed@.len() == 32,
        noise_seed@.len() == 32,
        noise_k <= 0x20_0000,
        noise_k * s@.len() <= 0x7FFF_FFFF,
        2 * noise_k < s.q,
    ensures
        r.wf(),
        r.seed@ == seed@,
        r.c1.q == s.q,
        r.c1@.len() == s@.len(),
        r.c1@ == spec_encrypt_c1(
            r.spec_c0(),
            s@,
            spec_noise_poly(
                chacha_stream(noise_seed@, (noise_k * s@.len()) as int),
                s@.len() as int,
                s.q,
                noise_k as int,
            ),
            mu@,
            s.q,
        ),
{
    let d = s.coeffs.len();
    let c0 = uniform_poly_from_seed(&seed, d, s.q);
    let e = noise_poly_from_seed(noise_seed, d, s.q, noise_k);
    let ct = encrypt_rlwe_with(s, mu, c0, &e);
    SeededRlwe { seed, c1: ct.c1 }
}

/// Regenerates the mask from the seed.  The result's `c0` equals the mask
/// the encryptor used: both sides evaluate the same PRG stream.
pub fn rlwe_recover_from_seeded(c: &SeededRlwe) -> (r: Rlwe)
    requires
        c.wf(),
    ensures
        r.wf(),
        r.q() == c.c1.q,
        r.c0@ == c.spec_c0(),
        r.c1@ == c.c1@,
{
    let d = c.c1.coeffs.len();
    let c0 = uniform_poly_from_seed(&c.seed, d, c.c1.q);
    Rlwe { c0, c1: c.c1.duplicate() }
}

/// A vector-RLWE ciphertext: one mask `cr` and `n_vec` message rows,
/// decrypting row-wise to `cm[i] - s_vec[i] * cr`.
#[derive(Clone, Debug)]
pub struct VecRlwe {
    pub cr: Poly,
    pub cm: Vec<Poly>,
}

impl VecRlwe {
    /// Valid rows, all in the ring of `cr`.
    pub open spec fn wf(&self) -> bool {
        &&& self.cr.wf()
        &&& forall|i: int|
            0 <= i < self.cm@.len() ==> (#[trigger] self.cm@[i]).wf() && self.cr.same_ring(
                &self.cm@[i],
            )
    }
}

} // verus!
