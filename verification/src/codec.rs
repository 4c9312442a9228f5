//! Plaintext encoding: scaling between the plaintext and ciphertext moduli,
//! and the record byte format.
//!
//! A record of `d3 * log2(p) / 8` bytes becomes a ring element over `Z_p`
//! by reading the byte stream MSB-first in `log2(p)`-bit groups; scaling by
//! `q/p` (rounded) embeds a plaintext into `R_q`, and rounded division by
//! `q/p` recovers it under small noise.
use vstd::prelude::*;
use vstd::arithmetic::div_mod::{
    lemma_div_multiples_vanish_fancy, lemma_fundamental_div_mod, lemma_mod_bound,
    lemma_mod_multiples_vanish, lemma_multiply_divide_lt, lemma_small_mod,
};
use vstd::arithmetic::power2::{lemma2_to64, lemma_pow2_adds, lemma_pow2_pos, pow2};
use crate::arith::pow2_u64;
use crate::ring::{Poly, Q_LIMIT};

verus! {

/// The scaled embedding of a plaintext residue `m < p` into `Z_q`:
/// `round(m * q / p)`.
pub open spec fn spec_scale_up(m: u64, p: u64, q: u64) -> int {
    (m * q + p / 2) / (p as int)
}

/// The rounded decoding of a ciphertext residue back to `Z_p`:
/// `round(x * p / q) mod p`.
pub open spec fn spec_round_down(x: u64, p: u64, q: u64) -> int {
    ((x * p + q / 2) / (q as int)) % (p as int)
}

/// Embeds a plaintext element of `R_p` into `R_q` by coefficient scaling.
pub fn scale_up_poly(m: &Poly, q: u64) -> (r: Poly)
    requires
        m.wf(),
        m.q <= q < Q_LIMIT,
    ensures
        r.wf(),
        r.q == q,
        r@.len() == m@.len(),
        forall|i: int| 0 <= i < m@.len() ==> r@[i] == spec_scale_up(m@[i], m.q, q),
{
    let d = m.coeffs.len();
    let p = m.q;
    let mut v: Vec<u64> = Vec::new();
    let mut i: usize = 0;
    while i < d
        invariant
            i <= d,
            m.wf(),
            p == m.q,
            p <= q < Q_LIMIT,
            d == m@.len(),
            v@.len() == i,
            forall|j: int| 0 <= j < i ==> v@[j] == spec_scale_up(m@[j], p, q),
            forall|j: int| 0 <= j < i ==> v@[j] < q,
        decreases d - i,
    {
        let mi = m.coeffs[i];
        proof {
            vstd::arithmetic::mul::lemma_mul_upper_bound(mi as int, 0xFFFF_FFFF_FFFF_FFFF,
                q as int, 0xFFFF_FFFF_FFFF_FFFF);
        }
        let num: u128 = (mi as u128) * (q as u128) + ((p / 2) as u128);
        let t: u128 = num / (p as u128);
        proof {
            // m*q + p/2 < p*q, so the quotient is below q
            assert((mi as int) * (q as int) + (p as int) / 2 < (p as int) * (q as int))
                by (nonlinear_arith)
                requires
                    mi < p,
                    2 <= p <= q,
            ;
            lemma_multiply_divide_lt(mi * q + p / 2, p as int, q as int);
        }
        let c: u64 = t as u64;
        v.push(c);
        i = i + 1;
    }
    let r = Poly::from_coeffs(q, v);
    r
}

/// Rounds an element of `R_q` down to `R_p` coefficientwise.
pub fn round_down_poly(x: &Poly, p: u64) -> (r: Poly)
    requires
        x.wf(),
        2 <= p <= x.q,
    ensures
        r.wf(),
        r.q == p,
        r@.len() == x@.len(),
        forall|i: int| 0 <= i < x@.len() ==> r@[i] == spec_round_down(x@[i], p, x.q),
{
    let d = x.coeffs.len();
    let q = x.q;
    let mut v: Vec<u64> = Vec::new();
    let mut i: usize = 0;
    while i < d
        invariant
            i <= d,
            x.wf(),
            q == x.q,
            2 <= p <= q < Q_LIMIT,
            d == x@.len(),
            v@.len() == i,
            forall|j: int| 0 <= j < i ==> v@[j] == spec_round_down(x@[j], p, q),
            forall|j: int| 0 <= j < i ==> v@[j] < p,
        decreases d - i,
    {
        let xi = x.coeffs[i];
        proof {
            vstd::arithmetic::mul::lemma_mul_upper_bound(xi as int, 0xFFFF_FFFF_FFFF_FFFF,
                p as int, 0xFFFF_FFFF_FFFF_FFFF);
        }
        let num: u128 = (xi as u128) * (p as u128) + ((q / 2) as u128);
        let t: u128 = num / (q as u128);
        proof {
            lemma_mod_bound(t as int, p as int);
        }
        let c: u64 = (t % (p as u128)) as u64;
        v.push(c);
        i = i + 1;
    }
    let r = Poly::from_coeffs(p, v);
    r
}

/// The rounding law for one coefficient: a scaled plaintext survives any
/// noise `e` with `2 * p * (|e| + 1) <= q`.  `y` is the noisy residue
/// `scale_up(m) + e` brought back to `[0, q)`.
pub proof fn lemma_scale_round_trip(m: u64, e: int, y: u64, p: u64, q: u64, bound: int)
    requires
        2 <= p,
        2 <= q < Q_LIMIT,
        m < p,
        0 <= bound,
        -bound <= e <= bound,
        2 * p * (bound + 1) <= q,
        y as int == (spec_scale_up(m, p, q) + e) % (q as int),
    ensures
        spec_round_down(y, p, q) == m,
{
    let pi = p as int;
    let qi = q as int;
    let hp = pi / 2;
    let hq = qi / 2;
    let enc = spec_scale_up(m, p, q);
    assert(2 * pi <= qi && bound < qi) by (nonlinear_arith)
        requires
            2 * pi * (bound + 1) <= qi,
            bound >= 0,
            pi >= 2,
    ;
    // p * enc == m*q + hp - rho with 0 <= rho < p
    lemma_fundamental_div_mod(m * qi + hp, pi);
    lemma_mod_bound(m * qi + hp, pi);
    let rho = (m * qi + hp) % pi;
    assert(pi * enc == m * qi + hp - rho);
    // 0 <= enc < q
    assert(0 <= enc && enc < qi) by (nonlinear_arith)
        requires
            pi * enc == m * qi + hp - rho,
            0 <= rho < pi,
            0 <= hp < pi,
            0 <= m < pi,
            2 <= pi,
            2 * pi <= qi,
    ;
    // y == enc + e - w*q for some w in {-1, 0, 1}
    lemma_fundamental_div_mod(enc + e, qi);
    lemma_mod_bound(enc + e, qi);
    let w = (enc + e) / qi;
    assert(y == enc + e - qi * w);
    assert(-1 <= w <= 1) by (nonlinear_arith)
        requires
            qi * w == enc + e - y,
            0 <= y < qi,
            0 <= enc < qi,
            -qi <= e <= qi,
            2 <= qi,
    ;
    // The rounded numerator splits as (m - w*p)*q + (delta + e*p + hq)
    // with delta = hp - rho in (-p, p].
    let num = y * pi + hq;
    let delta = hp - rho;
    assert(y * pi == (m - w * pi) * qi + delta + e * pi) by (nonlinear_arith)
        requires
            y == enc + e - qi * w,
            pi * enc == m * qi + hp - rho,
            delta == hp - rho,
    ;
    // The remainder term lies in [0, q)
    assert(0 <= delta + e * pi + hq < qi) by (nonlinear_arith)
        requires
            -pi < delta <= pi / 2,
            -bound <= e <= bound,
            0 <= bound,
            2 <= pi,
            2 * pi * (bound + 1) <= qi,
            hq == qi / 2,
            qi >= 2,
    ;
    // So the quotient is exactly m - w*p
    vstd::arithmetic::mul::lemma_mul_is_commutative(m - w * pi, qi);
    assert(num == qi * (m - w * pi) + (delta + e * pi + hq));
    lemma_div_multiples_vanish_fancy(m - w * pi, delta + e * pi + hq, qi);
    assert(num == qi * (m - w * pi) + (delta + e * pi + hq) ==> num / qi == (qi * (m - w * pi) + (
    delta + e * pi + hq)) / qi);
    assert(num / qi == m - w * pi);
    // And mod p the w*p shift vanishes
    lemma_mod_multiples_vanish(-w, m as int, pi);
    lemma_small_mod(m as nat, p as nat);
    vstd::arithmetic::mul::lemma_mul_is_commutative(w, pi);
    assert(pi * (-w) == -(pi * w)) by (nonlinear_arith);
    assert((m - w * pi) % pi == m);
}

/// One coefficient switched between moduli: `round(x * q_to / q_from)`
/// reduced mod `q_to`.
pub open spec fn spec_mod_switch(x: u64, q_from: u64, q_to: u64) -> int {
    ((x * q_to + q_from / 2) / (q_from as int)) % (q_to as int)
}

/// Bit-group `g` (MSB first) of a byte, for `pb`-bit groups:
/// group 0 is the top `pb` bits.
pub open spec fn spec_group_of_byte(b: u8, pb: int, g: int) -> int {
    (b as int / pow2((8 - pb * (g + 1)) as nat) as int) % (pow2(pb as nat) as int)
}

/// Reassembles a byte from `n` leading groups stored at `c[base..]`:
/// `sum of c[base + g] * 2^(8 - pb*(g+1))` over `g < n`.
pub open spec fn spec_byte_acc(c: Seq<u64>, base: int, pb: int, n: int) -> int
    decreases n,
{
    if n <= 0 {
        0
    } else {
        spec_byte_acc(c, base, pb, n - 1) + c[base + n - 1] * pow2((8 - pb * n) as nat)
    }
}

/// Group sizes the record codec accepts: the group width must divide 8.
pub open spec fn group_width_ok(pb: int) -> bool {
    pb == 1 || pb == 2 || pb == 4 || pb == 8
}

/// Groups per byte for group width `pb`: `8 / pb`.
pub open spec fn spec_gpb(pb: int) -> int {
    if pb == 1 {
        8
    } else if pb == 2 {
        4
    } else if pb == 4 {
        2
    } else {
        1
    }
}

/// Groups per byte, computed.
pub fn groups_per_byte(pb: usize) -> (r: usize)
    requires
        group_width_ok(pb as int),
    ensures
        r == spec_gpb(pb as int),
        1 <= r <= 8,
        pb * r == 8,
{
    if pb == 1 {
        8
    } else if pb == 2 {
        4
    } else if pb == 4 {
        2
    } else {
        1
    }
}

/// A reassembled byte stays below 256 when every group is below `2^pb`.
pub proof fn lemma_byte_acc_bound(c: Seq<u64>, base: int, pb: int, n: int)
    requires
        group_width_ok(pb),
        0 <= n,
        pb * n <= 8,
        0 <= base,
        base + n <= c.len(),
        forall|g: int| 0 <= g < n ==> #[trigger] c[base + g] < pow2(pb as nat),
    ensures
        0 <= spec_byte_acc(c, base, pb, n) <= pow2(8) - pow2((8 - pb * n) as nat),
    decreases n,
{
    lemma2_to64();
    if n > 0 {
        assert(pb * (n - 1) == pb * n - pb) by (nonlinear_arith);
        lemma_byte_acc_bound(c, base, pb, n - 1);
        let sh = pow2((8 - pb * n) as nat) as int;
        let cv = c[base + n - 1] as int;
        lemma_pow2_pos((8 - pb * n) as nat);
        lemma_pow2_adds((8 - pb * n) as nat, pb as nat);
        assert(cv * sh <= (pow2(pb as nat) - 1) * sh) by (nonlinear_arith)
            requires
                cv <= pow2(pb as nat) - 1,
                sh >= 0,
        ;
        assert((pow2(pb as nat) - 1) * sh == pow2(pb as nat) * sh - sh) by (nonlinear_arith);
        assert(cv * sh >= 0) by (nonlinear_arith)
            requires
                cv >= 0,
                sh >= 0,
        ;
    }
}

/// The reassembly of the first `n` groups of byte `b` equals `b` with its
/// low `8 - pb*n` bits cleared.
proof fn lemma_byte_acc_of_groups(b: u8, c: Seq<u64>, base: int, pb: int, n: int)
    requires
        group_width_ok(pb),
        0 <= n,
        pb * n <= 8,
        0 <= base,
        base + n <= c.len(),
        forall|g: int| 0 <= g < n ==> #[trigger] c[base + g] == spec_group_of_byte(b, pb, g),
    ensures
        spec_byte_acc(c, base, pb, n) == (b as int / pow2((8 - pb * n) as nat) as int) * pow2(
            (8 - pb * n) as nat,
        ),
    decreases n,
{
    lemma2_to64();
    if n == 0 {
        assert(b as int / pow2(8) as int == 0) by {
            lemma_basic_div_small(b as int, pow2(8) as int);
        }
        assert((8 - pb * n) as nat == 8);
        assert(spec_byte_acc(c, base, pb, n) == 0);
        assert((b as int / pow2((8 - pb * n) as nat) as int) * pow2((8 - pb * n) as nat) == 0)
            by (nonlinear_arith)
            requires
                b as int / pow2((8 - pb * n) as nat) as int == 0,
        ;
    } else {
        assert(pb * (n - 1) == pb * n - pb) by (nonlinear_arith);
        lemma_byte_acc_of_groups(b, c, base, pb, n - 1);
        let shn = pow2((8 - pb * n) as nat) as int;
        let shp = pow2((8 - pb * (n - 1)) as nat) as int;
        let zp = pow2(pb as nat) as int;
        lemma_pow2_pos((8 - pb * n) as nat);
        lemma_pow2_pos(pb as nat);
        lemma_pow2_adds((8 - pb * n) as nat, pb as nat);
        assert(shp == shn * zp);
        let u = b as int / shn;
        // b / shp == (b / shn) / zp
        vstd::arithmetic::div_mod::lemma_div_denominator(b as int, shn, zp);
        // the group value is u % zp
        assert(c[base + n - 1] == u % zp);
        lemma_fundamental_div_mod(u, zp);
        // (u / zp) * (zp * shn) + (u % zp) * shn == u * shn
        assert((zp * (u / zp) + u % zp) * shn == (u / zp) * (zp * shn) + (u % zp) * shn)
            by (nonlinear_arith);
        assert(u * shn == (zp * (u / zp) + u % zp) * shn) by (nonlinear_arith)
            requires
                u == zp * (u / zp) + u % zp,
        ;
        assert((b as int / shp) * shp == (u / zp) * (zp * shn)) by (nonlinear_arith)
            requires
                b as int / shp == u / zp,
                shp == shn * zp,
        ;
        assert(spec_byte_acc(c, base, pb, n) == spec_byte_acc(c, base, pb, n - 1) + c[base + n
            - 1] * shn);
        assert(spec_byte_acc(c, base, pb, n) == (b as int / shp) * shp + (u % zp) * shn);
        assert(spec_byte_acc(c, base, pb, n) == u * shn);
        assert(u * shn == (b as int / pow2((8 - pb * n) as nat) as int) * pow2(
            (8 - pb * n) as nat,
        ));
    }
}

/// Division of a small nonnegative value is zero.
proof fn lemma_basic_div_small(x: int, d: int)
    requires
        0 <= x < d,
    ensures
        x / d == 0,
{
    vstd::arithmetic::div_mod::lemma_basic_div(x, d);
}

/// Round trip of the byte codec: the `8/pb` groups of a byte reassemble to
/// the byte itself.
pub proof fn lemma_byte_group_roundtrip(b: u8, c: Seq<u64>, base: int, pb: int)
    requires
        group_width_ok(pb),
        0 <= base,
        base + spec_gpb(pb) <= c.len(),
        forall|g: int|
            0 <= g < spec_gpb(pb) ==> #[trigger] c[base + g] == spec_group_of_byte(b, pb, g),
    ensures
        spec_byte_acc(c, base, pb, spec_gpb(pb)) == b,
{
    assert(pb * spec_gpb(pb) == 8);
    lemma_byte_acc_of_groups(b, c, base, pb, spec_gpb(pb));
    lemma2_to64();
    vstd::arithmetic::div_mod::lemma_div_basics(b as int);
    assert((8 - pb * spec_gpb(pb)) as nat == 0);
    assert(pow2(0) == 1);
    assert(spec_byte_acc(c, base, pb, spec_gpb(pb)) == (b as int / 1) * 1);
}

/// Encodes a record's bytes as a ring element over `Z_p`, `p = 2^pb`:
/// the byte stream is read MSB-first in `pb`-bit groups, one group per
/// coefficient.
pub fn encode_record(bytes: &Vec<u8>, pb: usize) -> (r: Poly)
    requires
        group_width_ok(pb as int),
        1 <= bytes@.len(),
        bytes@.len() * 8 <= crate::ring::D_LIMIT,
    ensures
        r.wf(),
        r.q == pow2(pb as nat),
        r@.len() == bytes@.len() * spec_gpb(pb as int),
        forall|i: int|
            0 <= i < r@.len() ==> r@[i] == spec_group_of_byte(
                bytes@[i / spec_gpb(pb as int)],
                pb as int,
                i % spec_gpb(pb as int),
            ),
{
    proof {
        lemma2_to64();
    }
    let gpb: usize = groups_per_byte(pb);
    let p: u64 = pow2_u64(pb as u64);
    let n = bytes.len();
    let mut v: Vec<u64> = Vec::new();
    let mut bi: usize = 0;
    while bi < n
        invariant
            bi <= n,
            group_width_ok(pb as int),
            gpb == spec_gpb(pb as int),
            pb * gpb == 8,
            1 <= p,
            p == pow2(pb as nat),
            n == bytes@.len(),
            n * 8 <= crate::ring::D_LIMIT,
            v@.len() == bi * gpb,
            forall|i: int|
                0 <= i < v@.len() ==> v@[i] == spec_group_of_byte(
                    bytes@[i / (gpb as int)],
                    pb as int,
                    i % (gpb as int),
                ) && v@[i] < p,
        decreases n - bi,
    {
        let b = bytes[bi];
        let mut g: usize = 0;
        while g < gpb
            invariant
                g <= gpb,
                bi < n,
                group_width_ok(pb as int),
                gpb == spec_gpb(pb as int),
            pb * gpb == 8,
                1 <= p,
                p == pow2(pb as nat),
                n == bytes@.len(),
                n * 8 <= crate::ring::D_LIMIT,
                b == bytes@[bi as int],
                v@.len() == bi * gpb + g,
                forall|i: int|
                    0 <= i < v@.len() ==> v@[i] == spec_group_of_byte(
                        bytes@[i / (gpb as int)],
                        pb as int,
                        i % (gpb as int),
                    ) && v@[i] < p,
            decreases gpb - g,
        {
            proof {
                assert(pb * (g + 1) <= 8) by (nonlinear_arith)
                    requires
                        g + 1 <= gpb,
                        pb * (gpb as int) == 8,
                        pb >= 1,
                ;
            }
            let sh: u64 = pow2_u64((8 - pb * (g + 1)) as u64);
            let group: u64 = ((b as u64) / sh) % p;
            proof {
                lemma2_to64();
                lemma_mod_bound((b as u64 / sh) as int, p as int);
                let idx = bi * gpb + g;
                assert(idx / (gpb as int) == bi && idx % (gpb as int) == g) by (nonlinear_arith)
                    requires
                        idx == bi * gpb + g,
                        0 <= g < gpb,
                        0 <= bi,
                        1 <= gpb <= 8,
                ;
                assert(group == spec_group_of_byte(bytes@[bi as int], pb as int, g as int));
            }
            v.push(group);
            g = g + 1;
        }
        bi = bi + 1;
        proof {
            assert(bi * gpb == (bi - 1) * gpb + gpb) by (nonlinear_arith);
        }
    }
    proof {
        assert(v@.len() == n * gpb);
        assert(n * gpb <= crate::ring::D_LIMIT && 1 <= n * gpb) by (nonlinear_arith)
            requires
                n * 8 <= crate::ring::D_LIMIT,
                1 <= gpb <= 8,
                1 <= n,
                v@.len() == n * gpb,
        ;
    }
    let r = Poly::from_coeffs(p, v);
    r
}

/// Decodes a ring element over `Z_p` back into record bytes: each run of
/// `8/pb` coefficients reassembles MSB-first into one byte.
pub fn decode_record(rec: &Poly, pb: usize) -> (r: Vec<u8>)
    requires
        group_width_ok(pb as int),
        rec.wf(),
        rec.q == pow2(pb as nat),
        rec@.len() % (spec_gpb(pb as int) as nat) == 0,
    ensures
        r@.len() * spec_gpb(pb as int) == rec@.len(),
        forall|bi: int|
            0 <= bi < r@.len() ==> r@[bi] == spec_byte_acc(
                rec@,
                bi * spec_gpb(pb as int),
                pb as int,
                spec_gpb(pb as int),
            ),
{
    proof {
        lemma2_to64();
    }
    let gpb: usize = groups_per_byte(pb);
    let n = rec.coeffs.len() / gpb;
    let mut out: Vec<u8> = Vec::new();
    let mut bi: usize = 0;
    proof {
        vstd::arithmetic::div_mod::lemma_fundamental_div_mod(rec@.len() as int, gpb as int);
    }
    while bi < n
        invariant
            bi <= n,
            group_width_ok(pb as int),
            gpb == spec_gpb(pb as int),
            pb * gpb == 8,
            rec.wf(),
            rec.q == pow2(pb as nat),
            n * gpb == rec@.len(),
            out@.len() == bi,
            forall|j: int|
                0 <= j < bi ==> out@[j] == spec_byte_acc(
                    rec@,
                    j * (gpb as int),
                    pb as int,
                    gpb as int,
                ),
        decreases n - bi,
    {
        let mut acc: u64 = 0;
        let mut g: usize = 0;
        proof {
            assert((bi + 1) * gpb <= n * gpb && 0 <= bi * gpb) by (nonlinear_arith)
                requires
                    bi < n,
                    1 <= gpb,
            ;
        }
        while g < gpb
            invariant
                g <= gpb,
                bi < n,
                group_width_ok(pb as int),
                gpb == spec_gpb(pb as int),
            pb * gpb == 8,
                rec.wf(),
                rec.q == pow2(pb as nat),
                n * gpb == rec@.len(),
                (bi + 1) * gpb <= n * gpb,
                0 <= bi * gpb,
                acc == spec_byte_acc(rec@, bi * (gpb as int), pb as int, g as int),
                0 <= acc <= 255,
            decreases gpb - g,
        {
            proof {
                lemma2_to64();
                assert(bi * gpb + g < n * gpb) by (nonlinear_arith)
                    requires
                        g < gpb,
                        (bi + 1) * gpb <= n * gpb,
                ;
                lemma_byte_acc_bound(rec@, bi * (gpb as int), pb as int, (g + 1) as int);
            }
            proof {
                assert(pb * (g + 1) <= 8) by (nonlinear_arith)
                    requires
                        g + 1 <= gpb,
                        pb * (gpb as int) == 8,
                        pb >= 1,
                ;
            }
            let sh: u64 = pow2_u64((8 - pb * (g + 1)) as u64);
            acc = acc + rec.coeffs[bi * gpb + g] * sh;
            g = g + 1;
        }
        proof {
            lemma_byte_acc_bound(rec@, bi * (gpb as int), pb as int, gpb as int);
        }
        out.push(acc as u8);
        bi = bi + 1;
    }
    out
}

} // verus!
