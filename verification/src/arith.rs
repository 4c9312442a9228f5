//! Modular arithmetic on scalars: the base layer under the polynomial rings.
//!
//! Every operation returns the canonical representative in `[0, q)`.
use vstd::prelude::*;
use vstd::arithmetic::div_mod::{
    lemma_mod_bound, lemma_mod_multiples_vanish, lemma_mul_mod_noop_left, lemma_small_mod,
};
use vstd::arithmetic::power2::{
    lemma2_to64, lemma2_to64_rest, lemma_pow2_adds, lemma_pow2_strictly_increases, pow2,
};

verus! {

/// Addition mod `q`, canonical result.
pub fn add_mod(a: u64, b: u64, q: u64) -> (r: u64)
    requires
        0 < q < 0x8000_0000_0000_0000,
        a < q,
        b < q,
    ensures
        r == (a + b) % (q as int),
        r < q,
{
    let s: u64 = a + b;
    if s >= q {
        proof {
            lemma_mod_multiples_vanish(1, s - q, q as int);
            lemma_small_mod((s - q) as nat, q as nat);
        }
        s - q
    } else {
        proof {
            lemma_small_mod(s as nat, q as nat);
        }
        s
    }
}

/// Subtraction mod `q`, canonical result.
pub fn sub_mod(a: u64, b: u64, q: u64) -> (r: u64)
    requires
        0 < q < 0x8000_0000_0000_0000,
        a < q,
        b < q,
    ensures
        r == (a - b) % (q as int),
        r < q,
{
    if a >= b {
        proof {
            lemma_small_mod((a - b) as nat, q as nat);
        }
        a - b
    } else {
        proof {
            lemma_mod_multiples_vanish(1, a - b, q as int);
            lemma_small_mod((a + q - b) as nat, q as nat);
        }
        a + q - b
    }
}

/// Negation mod `q`, canonical result.
pub fn neg_mod(a: u64, q: u64) -> (r: u64)
    requires
        0 < q < 0x8000_0000_0000_0000,
        a < q,
    ensures
        r == (0 - a) % (q as int),
        r < q,
{
    sub_mod(0, a, q)
}

/// Multiplication mod `q`, through a 128-bit product.
pub fn mul_mod(a: u64, b: u64, q: u64) -> (r: u64)
    requires
        0 < q,
        a < q,
        b < q,
    ensures
        r == (a * b) % (q as int),
        r < q,
{
    proof {
        vstd::arithmetic::mul::lemma_mul_upper_bound(
            a as int,
            0xFFFF_FFFF_FFFF_FFFF,
            b as int,
            0xFFFF_FFFF_FFFF_FFFF,
        );
    }
    let p: u128 = (a as u128) * (b as u128);
    let m: u128 = p % (q as u128);
    proof {
        lemma_mod_bound(p as int, q as int);
    }
    m as u64
}

/// Reduces an arbitrary machine word mod `q`.
pub fn reduce_mod(a: u64, q: u64) -> (r: u64)
    requires
        0 < q,
    ensures
        r == (a as int) % (q as int),
        r < q,
{
    proof {
        lemma_mod_bound(a as int, q as int);
    }
    a % q
}

/// `2^k` as a machine word.
pub fn pow2_u64(k: u64) -> (r: u64)
    requires
        k <= 62,
    ensures
        r == pow2(k as nat),
        r >= 1,
{
    let mut i: u64 = 0;
    let mut acc: u64 = 1;
    proof {
        lemma2_to64();
        lemma2_to64_rest();
    }
    while i < k
        invariant
            i <= k <= 62,
            acc == pow2(i as nat),
            1 <= acc,
            acc <= pow2(62),
        decreases k - i,
    {
        proof {
            lemma2_to64();
            lemma2_to64_rest();
            lemma_pow2_adds(i as nat, 1);
            if i + 1 < 62 {
                lemma_pow2_strictly_increases((i + 1) as nat, 62);
            }
        }
        acc = acc * 2;
        i = i + 1;
    }
    acc
}

/// The inverse of `2^k` mod an odd modulus `q`: the `k`-th power of
/// `(q+1)/2` reduced mod `q`.
pub fn inv_pow2_mod(k: u64, q: u64) -> (r: u64)
    requires
        2 < q < 0x8000_0000_0000_0000,
        q % 2 == 1,
    ensures
        (r * pow2(k as nat)) % (q as int) == 1,
        r == vstd::arithmetic::power::pow(((q + 1) / 2) as int, k as nat) % (q as int),
        r < q,
{
    let half: u64 = (q + 1) / 2;
    let mut i: u64 = 0;
    let mut acc: u64 = 1;
    proof {
        lemma2_to64();
        lemma_small_mod(1, q as nat);
        vstd::arithmetic::power::lemma_pow0(half as int);
    }
    while i < k
        invariant
            i <= k,
            2 < q < 0x8000_0000_0000_0000,
            q % 2 == 1,
            half == (q + 1) / 2,
            acc < q,
            (acc * pow2(i as nat)) % (q as int) == 1,
            acc == vstd::arithmetic::power::pow(half as int, i as nat) % (q as int),
        decreases k - i,
    {
        let next: u64 = mul_mod(acc, half, q);
        proof {
            vstd::arithmetic::power::lemma_pow_adds(half as int, i as nat, 1);
            vstd::arithmetic::power::lemma_pow1(half as int);
            vstd::arithmetic::div_mod::lemma_mul_mod_noop_left(
                vstd::arithmetic::power::pow(half as int, i as nat),
                half as int,
                q as int,
            );
            let qi = q as int;
            let p = pow2(i as nat) as int;
            lemma2_to64();
            lemma_pow2_adds(i as nat, 1);
            // 2 * half == q + 1 because q is odd
            assert(2 * (half as int) == qi + 1);
            lemma_mul_mod_noop_left(acc * half, 2 * p, qi);
            assert((next * (2 * p)) % qi == ((acc * half) * (2 * p)) % qi);
            assert((acc * half) * (2 * p) == (acc * p) * (2 * (half as int))) by (nonlinear_arith);
            assert((acc * p) * (qi + 1) == qi * (acc * p) + acc * p) by (nonlinear_arith);
            lemma_mod_multiples_vanish(acc * p, acc * p, qi);
            assert((next * pow2((i + 1) as nat)) % qi == (acc * p) % qi);
        }
        acc = next;
        i = i + 1;
    }
    acc
}

/// Floor of the base-2 logarithm.
pub fn floor_log2(x: u64) -> (r: u64)
    requires
        x >= 1,
    ensures
        pow2(r as nat) <= x < pow2((r + 1) as nat),
        r <= 63,
{
    let mut e: u64 = 0;
    let mut v: u64 = x;
    proof {
        lemma2_to64();
        vstd::arithmetic::div_mod::lemma_div_basics(x as int);
    }
    while v >= 2
        invariant
            1 <= v,
            e <= 63,
            x as int / pow2(e as nat) as int == v,
            pow2(e as nat) <= x,
        decreases v,
    {
        proof {
            let p = pow2(e as nat) as int;
            lemma_pow2_adds(e as nat, 1);
            lemma2_to64();
            lemma2_to64_rest();
            vstd::arithmetic::div_mod::lemma_div_denominator(x as int, p, 2);
            // pow2(e + 1) <= x, so e + 1 stays below 64
            vstd::arithmetic::div_mod::lemma_fundamental_div_mod(x as int, 2 * p);
            vstd::arithmetic::div_mod::lemma_mod_bound(x as int, 2 * p);
            assert((2 * p) * (x as int / (2 * p)) >= 2 * p) by (nonlinear_arith)
                requires
                    x as int / (2 * p) >= 1,
                    p >= 1,
            ;
            if e + 1 > 63 {
                lemma_pow2_strictly_increases(64, (e + 1) as nat);
                assert(false);
            }
        }
        v = v / 2;
        e = e + 1;
    }
    proof {
        let p = pow2(e as nat) as int;
        vstd::arithmetic::power2::lemma_pow2_pos(e as nat);
        vstd::arithmetic::div_mod::lemma_fundamental_div_mod(x as int, p);
        vstd::arithmetic::div_mod::lemma_mod_bound(x as int, p);
        lemma_pow2_adds(e as nat, 1);
        lemma2_to64();
    }
    e
}

/// Ceiling of the base-2 logarithm.
pub fn ceil_log2(x: u64) -> (r: u64)
    requires
        x >= 1,
    ensures
        pow2(r as nat) >= x,
        r == 0 || pow2((r - 1) as nat) < x,
        r <= 64,
{
    if x == 1 {
        proof {
            lemma2_to64();
        }
        0
    } else {
        let f = floor_log2(x - 1);
        f + 1
    }
}

/// Reports whether `x` is a power of two, with the exponent as witness.
pub fn check_pow2(x: u64) -> (r: bool)
    ensures
        r <==> exists|e: nat| x == pow2(e),
{
    if x == 0 {
        proof {
            assert forall|e: nat| x != pow2(e) by {
                vstd::arithmetic::power2::lemma_pow2_pos(e);
            }
        }
        false
    } else {
        let f = floor_log2(x);
        proof {
            lemma2_to64();
            lemma2_to64_rest();
        }
        let p = if f <= 62 {
            pow2_u64(f)
        } else {
            0x8000_0000_0000_0000
        };
        proof {
            assert(p == pow2(f as nat));
        }
        if p == x {
            true
        } else {
            proof {
                assert forall|e: nat| x != pow2(e) by {
                    if x == pow2(e) {
                        if e < f {
                            lemma_pow2_strictly_increases(e, f as nat);
                        }
                        if e > f + 1 {
                            lemma_pow2_strictly_increases((f + 1) as nat, e);
                        }
                    }
                }
            }
            false
        }
    }
}

/// The low `n` bits of `x`, reversed: bit `i` of the result is bit
/// `n-1-i` of `x`.
pub open spec fn spec_rev_bits(x: int, n: nat) -> int
    decreases n,
{
    if n == 0 {
        0
    } else {
        (x % 2) * pow2((n - 1) as nat) + spec_rev_bits(x / 2, (n - 1) as nat)
    }
}

proof fn lemma_rev_bits_step(x: int, n: nat)
    requires
        x >= 0,
    ensures
        spec_rev_bits(x, n + 1) == 2 * spec_rev_bits(x, n) + (x / pow2(n) as int) % 2,
    decreases n,
{
    if n == 0 {
        lemma2_to64();
        vstd::arithmetic::div_mod::lemma_div_basics(x);
        assert(spec_rev_bits(x / 2, 0) == 0);
        assert(spec_rev_bits(x, 0) == 0);
        assert(spec_rev_bits(x, 1) == (x % 2) * pow2(0) + spec_rev_bits(x / 2, 0));
    } else {
        lemma_rev_bits_step(x / 2, (n - 1) as nat);
        assert(spec_rev_bits(x, n + 1) == (x % 2) * pow2(n) + spec_rev_bits(x / 2, n));
        assert(spec_rev_bits(x, n) == (x % 2) * pow2((n - 1) as nat) + spec_rev_bits(
            x / 2,
            (n - 1) as nat,
        ));
        lemma_pow2_adds(1, (n - 1) as nat);
        lemma2_to64();
        vstd::arithmetic::power2::lemma_pow2_pos((n - 1) as nat);
        vstd::arithmetic::div_mod::lemma_div_pos_is_pos(x, 2);
        vstd::arithmetic::div_mod::lemma_div_denominator(x, 2, pow2((n - 1) as nat) as int);
        assert((x / 2) / pow2((n - 1) as nat) as int == x / pow2(n) as int);
        assert((x % 2) * pow2(n) == 2 * ((x % 2) * pow2((n - 1) as nat))) by (nonlinear_arith)
            requires
                pow2(n) == 2 * pow2((n - 1) as nat),
        ;
    }
}

/// Reverses the low `bits` bits of `x`.
pub fn reverse_bits(x: u64, bits: u64) -> (r: u64)
    requires
        bits <= 32,
        x < 0x1_0000_0000,
    ensures
        r == spec_rev_bits(x as int, bits as nat),
        r < pow2(bits as nat),
{
    let mut r: u64 = 0;
    let mut v: u64 = x;
    let mut i: u64 = 0;
    proof {
        lemma2_to64();
    }
    while i < bits
        invariant
            i <= bits <= 32,
            x < 0x1_0000_0000,
            v == x as int / pow2(i as nat) as int,
            r == spec_rev_bits(x as int, i as nat),
            r < pow2(i as nat),
            pow2(i as nat) <= 0x1_0000_0000,
        decreases bits - i,
    {
        proof {
            lemma_rev_bits_step(x as int, i as nat);
            lemma_pow2_adds(i as nat, 1);
            lemma2_to64();
            lemma2_to64_rest();
            vstd::arithmetic::div_mod::lemma_div_denominator(
                x as int,
                pow2(i as nat) as int,
                2,
            );
            if i + 1 <= 32 && pow2((i + 1) as nat) > 0x1_0000_0000 {
                lemma_pow2_strictly_increases(32, (i + 1) as nat);
            }
        }
        r = 2 * r + v % 2;
        v = v / 2;
        i = i + 1;
    }
    r
}

/// Rounded division: `(num + den/2) / den`.
pub fn div_round(num: u128, den: u128) -> (r: u128)
    requires
        0 < den,
        num + den / 2 <= u128::MAX,
    ensures
        r == (num + den / 2) / (den as int),
{
    (num + den / 2) / den
}

} // verus!
