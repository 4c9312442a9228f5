//! Polynomial rings `Z_q[X] / (X^d + 1)` in canonical coefficient form.
//!
//! Every element keeps its coefficients reduced to `[0, q)`.  Multiplication
//! is the negacyclic convolution: the product coefficient `i` is the sum of
//! `a[j] * b[i - j]` over `j <= i`, minus the sum of `a[j] * b[i + d - j]`
//! over `j > i` (terms that wrap past `X^d` pick up a sign).
use vstd::prelude::*;
use vstd::arithmetic::div_mod::{lemma_mod_bound, lemma_mod_multiples_vanish, lemma_sub_mod_noop};
use vstd::arithmetic::mul::lemma_mul_upper_bound;
use crate::arith::{add_mod, mul_mod, neg_mod, sub_mod};

verus! {

/// Largest modulus the ring layer accepts: products of two residues summed
/// over a whole ring dimension must fit in 128 bits.
pub const Q_LIMIT: u64 = 0x100_0000_0000_0000;

/// Largest ring dimension the ring layer accepts.
pub const D_LIMIT: usize = 65536;

/// Coefficient sequences that are valid for modulus `q`.
pub open spec fn coeffs_ok(s: Seq<u64>, q: u64) -> bool {
    &&& 2 <= q < Q_LIMIT
    &&& 1 <= s.len() <= D_LIMIT
    &&& forall|i: int| 0 <= i < s.len() ==> s[i] < q
}

/// Pointwise sum mod `q`.
pub open spec fn spec_poly_add(a: Seq<u64>, b: Seq<u64>, q: u64) -> Seq<u64> {
    Seq::new(a.len(), |i: int| (((a[i] + b[i]) % (q as int)) as u64))
}

/// Pointwise difference mod `q`.
pub open spec fn spec_poly_sub(a: Seq<u64>, b: Seq<u64>, q: u64) -> Seq<u64> {
    Seq::new(a.len(), |i: int| (((a[i] - b[i]) % (q as int)) as u64))
}

/// Pointwise negation mod `q`.
pub open spec fn spec_poly_neg(a: Seq<u64>, q: u64) -> Seq<u64> {
    Seq::new(a.len(), |i: int| (((0 - a[i]) % (q as int)) as u64))
}

/// Pointwise product with the scalar `c` mod `q`.
pub open spec fn spec_poly_scale(a: Seq<u64>, c: u64, q: u64) -> Seq<u64> {
    Seq::new(a.len(), |i: int| (((a[i] * c) % (q as int)) as u64))
}

/// Partial sum of the non-wrapping convolution terms for output index `i`:
/// `sum over j in [0, n) with j <= i of a[j] * b[i - j]`.
pub open spec fn conv_lo(a: Seq<u64>, b: Seq<u64>, i: int, n: int) -> int
    decreases n,
{
    if n <= 0 {
        0
    } else {
        conv_lo(a, b, i, n - 1) + if n - 1 <= i {
            a[n - 1] * b[i - (n - 1)]
        } else {
            0
        }
    }
}

/// Partial sum of the wrapping convolution terms for output index `i`:
/// `sum over j in [0, n) with j > i of a[j] * b[i + d - j]` where `d = b.len()`.
pub open spec fn conv_hi(a: Seq<u64>, b: Seq<u64>, i: int, n: int) -> int
    decreases n,
{
    if n <= 0 {
        0
    } else {
        conv_hi(a, b, i, n - 1) + if n - 1 > i {
            a[n - 1] * b[i + b.len() - (n - 1)]
        } else {
            0
        }
    }
}

/// Coefficient `i` of the negacyclic product, canonical in `[0, q)`.
pub open spec fn negacyclic_coeff(a: Seq<u64>, b: Seq<u64>, q: u64, i: int) -> int {
    (conv_lo(a, b, i, a.len() as int) - conv_hi(a, b, i, a.len() as int)) % (q as int)
}

/// The negacyclic product of two coefficient sequences.
pub open spec fn spec_poly_mul(a: Seq<u64>, b: Seq<u64>, q: u64) -> Seq<u64> {
    Seq::new(a.len(), |i: int| negacyclic_coeff(a, b, q, i) as u64)
}

/// Multiplication by the monomial `X^k` (k taken mod `2d`, `X^d == -1`):
/// output coefficient `i` comes from input coefficient `(i - k) mod d`,
/// negated when the monomial wrapped an odd number of times.
pub open spec fn spec_mul_x_pow(a: Seq<u64>, k: int, q: u64) -> Seq<u64> {
    Seq::new(
        a.len(),
        |i: int|
            {
                let t = (i - k) % (2 * a.len() as int);
                if t < a.len() {
                    a[t]
                } else {
                    (((0 - a[t - a.len()]) % (q as int)) as u64)
                }
            },
    )
}

/// The automorphism `X -> X^k` built up source index by source index:
/// coefficient `j` of the input lands at exponent `j*k mod 2d`, with a sign
/// flip when that exponent falls in `[d, 2d)`.
pub open spec fn spec_auto_rec(a: Seq<u64>, k: int, q: u64, n: int) -> Seq<u64>
    decreases n,
{
    if n <= 0 {
        Seq::new(a.len(), |i: int| 0u64)
    } else {
        let prev = spec_auto_rec(a, k, q, n - 1);
        let e = ((n - 1) * k) % (2 * a.len() as int);
        if e < a.len() {
            prev.update(e, a[n - 1])
        } else {
            prev.update(e - a.len(), (((0 - a[n - 1]) % (q as int)) as u64))
        }
    }
}

/// The automorphism `tau_k`: `f(X) -> f(X^k) mod (X^d + 1)`.
pub open spec fn spec_auto(a: Seq<u64>, k: int, q: u64) -> Seq<u64> {
    spec_auto_rec(a, k, q, a.len() as int)
}

/// Monomial rotations are invertible: multiplying by `X^k` and then by
/// `X^(2d-k)` returns the element (the two sign flips cancel).
pub proof fn lemma_mul_x_pow_inverse(a: Seq<u64>, k: int, q: u64)
    requires
        coeffs_ok(a, q),
        0 < k < 2 * a.len(),
    ensures
        spec_mul_x_pow(spec_mul_x_pow(a, k, q), 2 * a.len() - k, q) == a,
{
    let d = a.len() as int;
    let qi = q as int;
    let inner = spec_mul_x_pow(a, k, q);
    let outer = spec_mul_x_pow(inner, 2 * d - k, q);
    assert forall|i: int| 0 <= i < d implies outer[i] == a[i] by {
        // outer reads inner at (i + k) mod 2d
        vstd::arithmetic::div_mod::lemma_mod_multiples_vanish(1, i - (2 * d - k), 2 * d);
        let t1 = (i - (2 * d - k)) % (2 * d);
        if i + k < 2 * d {
            vstd::arithmetic::div_mod::lemma_small_mod((i + k) as nat, (2 * d) as nat);
            assert(t1 == i + k);
        } else {
            vstd::arithmetic::div_mod::lemma_mod_multiples_vanish(-1, i + k, 2 * d);
            vstd::arithmetic::div_mod::lemma_small_mod((i + k - 2 * d) as nat, (2 * d) as nat);
            assert(t1 == i + k - 2 * d);
        }
        if t1 < d {
            // no wrap on the way back: inner[t1] was read from i directly
            vstd::arithmetic::div_mod::lemma_small_mod(i as nat, (2 * d) as nat);
            vstd::arithmetic::div_mod::lemma_mod_multiples_vanish(1, t1 - k, 2 * d);
            assert((t1 - k) % (2 * d) == i);
        } else {
            // both hops wrapped: two negations cancel
            vstd::arithmetic::div_mod::lemma_small_mod((i + d) as nat, (2 * d) as nat);
            vstd::arithmetic::div_mod::lemma_mod_multiples_vanish(1, t1 - d - k, 2 * d);
            assert((t1 - d - k) % (2 * d) == i + d);
            assert(inner[t1 - d] == (((0 - a[i]) % qi) as u64));
            let v = a[i] as int;
            vstd::arithmetic::div_mod::lemma_mod_bound(0 - v, qi);
            if v == 0 {
                vstd::arithmetic::div_mod::lemma_small_mod(0, q as nat);
            } else {
                vstd::arithmetic::div_mod::lemma_mod_multiples_vanish(1, 0 - v, qi);
                vstd::arithmetic::div_mod::lemma_small_mod((qi - v) as nat, q as nat);
                vstd::arithmetic::div_mod::lemma_mod_multiples_vanish(1, 0 - (qi - v), qi);
                vstd::arithmetic::div_mod::lemma_small_mod(v as nat, q as nat);
            }
            assert(outer[i] == (((0 - (inner[t1 - d] as int)) % qi) as u64));
        }
    }
    assert(outer =~= a);
}

/// Pointwise modular addition is associative.
pub proof fn lemma_poly_add_assoc(a: Seq<u64>, b: Seq<u64>, c: Seq<u64>, q: u64)
    requires
        1 <= q,
        b.len() == a.len(),
        c.len() == a.len(),
    ensures
        spec_poly_add(spec_poly_add(a, b, q), c, q) == spec_poly_add(a, spec_poly_add(b, c, q), q),
{
    let qi = q as int;
    let lhs = spec_poly_add(spec_poly_add(a, b, q), c, q);
    let rhs = spec_poly_add(a, spec_poly_add(b, c, q), q);
    assert forall|i: int| 0 <= i < a.len() implies lhs[i] == rhs[i] by {
        let x = a[i] as int;
        let y = b[i] as int;
        let z = c[i] as int;
        vstd::arithmetic::div_mod::lemma_add_mod_noop(x + y, z, qi);
        vstd::arithmetic::div_mod::lemma_add_mod_noop((x + y) % qi, z, qi);
        vstd::arithmetic::div_mod::lemma_mod_twice(x + y, qi);
        assert(((x + y) % qi + z) % qi == (x + y + z) % qi);
        vstd::arithmetic::div_mod::lemma_add_mod_noop(x, y + z, qi);
        vstd::arithmetic::div_mod::lemma_add_mod_noop(x, (y + z) % qi, qi);
        vstd::arithmetic::div_mod::lemma_mod_twice(y + z, qi);
        assert((x + (y + z) % qi) % qi == (x + (y + z)) % qi);
    }
    assert(lhs =~= rhs);
}

/// Adding the zero element changes nothing.
pub proof fn lemma_poly_add_zero(a: Seq<u64>, q: u64)
    requires
        coeffs_ok(a, q),
    ensures
        spec_poly_add(a, Seq::new(a.len(), |i: int| 0u64), q) == a,
{
    let lhs = spec_poly_add(a, Seq::new(a.len(), |i: int| 0u64), q);
    assert forall|i: int| 0 <= i < a.len() implies lhs[i] == a[i] by {
        vstd::arithmetic::div_mod::lemma_small_mod(a[i] as nat, q as nat);
    }
    assert(lhs =~= a);
}

/// One reduced factor changes a product by a multiple of `q`.
proof fn lemma_reduced_term(aj: int, bj: int, sk: int, q: int)
    requires
        1 <= q,
    ensures
        (((aj - bj) % q) * sk - (aj * sk - bj * sk)) % q == 0,
{
    let m = (aj - bj) % q;
    vstd::arithmetic::div_mod::lemma_fundamental_div_mod(aj - bj, q);
    let w = (aj - bj) / q;
    assert(m * sk - (aj * sk - bj * sk) == q * ((-w) * sk)) by (nonlinear_arith)
        requires
            aj - bj == q * w + m,
    ;
    vstd::arithmetic::div_mod::lemma_mod_multiples_basic((-w) * sk, q);
    vstd::arithmetic::mul::lemma_mul_is_commutative(q, (-w) * sk);
}

/// The sum of two multiples of `q` is a multiple of `q`.
proof fn lemma_zero_mod_add(u: int, v: int, q: int)
    requires
        1 <= q,
        u % q == 0,
        v % q == 0,
    ensures
        (u + v) % q == 0,
{
    vstd::arithmetic::div_mod::lemma_add_mod_noop(u, v, q);
    vstd::arithmetic::div_mod::lemma_small_mod(0, q as nat);
}

/// The non-wrapping convolution is linear in its left argument, up to a
/// multiple of `q`, when the left argument is a pointwise difference.
proof fn lemma_conv_lo_sub(a: Seq<u64>, b: Seq<u64>, s: Seq<u64>, q: u64, i: int, n: int)
    requires
        coeffs_ok(a, q),
        coeffs_ok(b, q),
        b.len() == a.len(),
        0 <= n <= a.len(),
    ensures
        (conv_lo(spec_poly_sub(a, b, q), s, i, n) - (conv_lo(a, s, i, n) - conv_lo(
            b,
            s,
            i,
            n,
        ))) % (q as int) == 0,
    decreases n,
{
    let qi = q as int;
    let sb = spec_poly_sub(a, b, q);
    if n <= 0 {
        vstd::arithmetic::div_mod::lemma_small_mod(0, q as nat);
    } else {
        lemma_conv_lo_sub(a, b, s, q, i, n - 1);
        let j = n - 1;
        if j <= i {
            lemma_reduced_term(a[j] as int, b[j] as int, s[i - j] as int, qi);
            lemma_zero_mod_add(
                conv_lo(sb, s, i, j) - (conv_lo(a, s, i, j) - conv_lo(b, s, i, j)),
                sb[j] * s[i - j] - (a[j] * s[i - j] - b[j] * s[i - j]),
                qi,
            );
        }
    }
}

/// Likewise for the wrapping terms.
proof fn lemma_conv_hi_sub(a: Seq<u64>, b: Seq<u64>, s: Seq<u64>, q: u64, i: int, n: int)
    requires
        coeffs_ok(a, q),
        coeffs_ok(b, q),
        b.len() == a.len(),
        0 <= n <= a.len(),
    ensures
        (conv_hi(spec_poly_sub(a, b, q), s, i, n) - (conv_hi(a, s, i, n) - conv_hi(
            b,
            s,
            i,
            n,
        ))) % (q as int) == 0,
    decreases n,
{
    let qi = q as int;
    let sb = spec_poly_sub(a, b, q);
    if n <= 0 {
        vstd::arithmetic::div_mod::lemma_small_mod(0, q as nat);
    } else {
        lemma_conv_hi_sub(a, b, s, q, i, n - 1);
        let j = n - 1;
        if j > i {
            lemma_reduced_term(a[j] as int, b[j] as int, s[i + s.len() - j] as int, qi);
            lemma_zero_mod_add(
                conv_hi(sb, s, i, j) - (conv_hi(a, s, i, j) - conv_hi(b, s, i, j)),
                sb[j] * s[i + s.len() - j] - (a[j] * s[i + s.len() - j] - b[j] * s[i + s.len()
                    - j]),
                qi,
            );
        }
    }
}

/// Ring multiplication distributes over pointwise subtraction in its
/// left argument: `(a - b) * s == a*s - b*s` coefficientwise mod `q`.
pub proof fn lemma_poly_mul_sub_left(a: Seq<u64>, b: Seq<u64>, s: Seq<u64>, q: u64)
    requires
        coeffs_ok(a, q),
        coeffs_ok(b, q),
        coeffs_ok(s, q),
        b.len() == a.len(),
        s.len() == a.len(),
    ensures
        spec_poly_mul(spec_poly_sub(a, b, q), s, q) == spec_poly_sub(
            spec_poly_mul(a, s, q),
            spec_poly_mul(b, s, q),
            q,
        ),
{
    let qi = q as int;
    let sb = spec_poly_sub(a, b, q);
    let lhs = spec_poly_mul(sb, s, q);
    let rhs = spec_poly_sub(spec_poly_mul(a, s, q), spec_poly_mul(b, s, q), q);
    assert forall|i: int| 0 <= i < a.len() implies lhs[i] == rhs[i] by {
        let n = a.len() as int;
        lemma_conv_lo_sub(a, b, s, q, i, n);
        lemma_conv_hi_sub(a, b, s, q, i, n);
        let la = conv_lo(a, s, i, n);
        let ha = conv_hi(a, s, i, n);
        let lb = conv_lo(b, s, i, n);
        let hb = conv_hi(b, s, i, n);
        let ls = conv_lo(sb, s, i, n);
        let hs = conv_hi(sb, s, i, n);
        // ls - hs differs from (la - ha) - (lb - hb) by a multiple of q
        vstd::arithmetic::div_mod::lemma_sub_mod_noop(ls - (la - lb), hs - (ha - hb), qi);
        vstd::arithmetic::div_mod::lemma_small_mod(0, q as nat);
        assert(((ls - hs) - ((la - ha) - (lb - hb))) % qi == 0);
        // so the two canonical residues agree
        vstd::arithmetic::div_mod::lemma_fundamental_div_mod(
            (ls - hs) - ((la - ha) - (lb - hb)),
            qi,
        );
        let w = ((ls - hs) - ((la - ha) - (lb - hb))) / qi;
        assert(ls - hs == qi * w + ((la - ha) - (lb - hb)));
        vstd::arithmetic::div_mod::lemma_mod_multiples_vanish(w, (la - ha) - (lb - hb), qi);
        assert((ls - hs) % qi == ((la - ha) - (lb - hb)) % qi);
        // and the right-hand side reduces the two residues first
        vstd::arithmetic::div_mod::lemma_sub_mod_noop(la - ha, lb - hb, qi);
        vstd::arithmetic::div_mod::lemma_mod_bound((la - ha) % qi - (lb - hb) % qi, qi);
        vstd::arithmetic::div_mod::lemma_mod_bound(ls - hs, qi);
    }
    assert(lhs =~= rhs);
}

/// A ring element: `coeffs[i]` is the coefficient of `X^i`, reduced mod `q`.
#[derive(Clone, Debug)]
pub struct Poly {
    pub q: u64,
    pub coeffs: Vec<u64>,
}

impl View for Poly {
    type V = Seq<u64>;

    open spec fn view(&self) -> Seq<u64> {
        self.coeffs@
    }
}

impl Poly {
    /// Valid ring element for its own modulus.
    pub open spec fn wf(&self) -> bool {
        coeffs_ok(self@, self.q)
    }

    /// Dimension and modulus agree with another element.
    pub open spec fn same_ring(&self, other: &Poly) -> bool {
        self.q == other.q && self@.len() == other@.len()
    }

    /// The zero element of dimension `d` mod `q`.
    pub fn zero(d: usize, q: u64) -> (r: Poly)
        requires
            2 <= q < Q_LIMIT,
            1 <= d <= D_LIMIT,
        ensures
            r.wf(),
            r.q == q,
            r@.len() == d,
            forall|i: int| 0 <= i < d ==> r@[i] == 0u64,
    {
        let mut v: Vec<u64> = Vec::new();
        let mut i: usize = 0;
        while i < d
            invariant
                i <= d,
                v@.len() == i,
                forall|j: int| 0 <= j < i ==> v@[j] == 0u64,
            decreases d - i,
        {
            v.push(0);
            i = i + 1;
        }
        Poly { q, coeffs: v }
    }

    /// Wraps a coefficient vector that is already reduced.
    pub fn from_coeffs(q: u64, coeffs: Vec<u64>) -> (r: Poly)
        requires
            2 <= q < Q_LIMIT,
            1 <= coeffs@.len() <= D_LIMIT,
            forall|i: int| 0 <= i < coeffs@.len() ==> coeffs@[i] < q,
        ensures
            r.wf(),
            r.q == q,
            r@ == coeffs@,
    {
        Poly { q, coeffs }
    }

    /// An equal copy.
    pub fn duplicate(&self) -> (r: Poly)
        ensures
            r.q == self.q,
            r@ == self@,
    {
        let n = self.coeffs.len();
        let mut v: Vec<u64> = Vec::new();
        let mut i: usize = 0;
        while i < n
            invariant
                i <= n,
                n == self@.len(),
                v@.len() == i,
                forall|j: int| 0 <= j < i ==> v@[j] == self@[j],
            decreases n - i,
        {
            v.push(self.coeffs[i]);
            i = i + 1;
        }
        let r = Poly { q: self.q, coeffs: v };
        proof {
            assert(r@ =~= self@);
        }
        r
    }

    /// Number of coefficients.
    pub fn dim(&self) -> (d: usize)
        ensures
            d == self@.len(),
    {
        self.coeffs.len()
    }

    /// Sum in the ring.
    pub fn add(&self, other: &Poly) -> (r: Poly)
        requires
            self.wf(),
            other.wf(),
            self.same_ring(other),
        ensures
            r.wf(),
            r.q == self.q,
            r@ == spec_poly_add(self@, other@, self.q),
    {
        let d = self.coeffs.len();
        let mut v: Vec<u64> = Vec::new();
        let mut i: usize = 0;
        while i < d
            invariant
                i <= d,
                self.wf(),
                other.wf(),
                self.same_ring(other),
                d == self@.len(),
                v@.len() == i,
                forall|j: int|
                    0 <= j < i ==> v@[j] == (((self@[j] + other@[j]) % (self.q as int)) as u64),
            decreases d - i,
        {
            v.push(add_mod(self.coeffs[i], other.coeffs[i], self.q));
            i = i + 1;
        }
        let r = Poly { q: self.q, coeffs: v };
        proof {
            assert(r@ =~= spec_poly_add(self@, other@, self.q));
            assert forall|j: int| 0 <= j < r@.len() implies r@[j] < r.q by {
                lemma_mod_bound(self@[j] + other@[j], self.q as int);
            }
        }
        r
    }

    /// Difference in the ring.
    pub fn sub(&self, other: &Poly) -> (r: Poly)
        requires
            self.wf(),
            other.wf(),
            self.same_ring(other),
        ensures
            r.wf(),
            r.q == self.q,
            r@ == spec_poly_sub(self@, other@, self.q),
    {
        let d = self.coeffs.len();
        let mut v: Vec<u64> = Vec::new();
        let mut i: usize = 0;
        while i < d
            invariant
                i <= d,
                self.wf(),
                other.wf(),
                self.same_ring(other),
                d == self@.len(),
                v@.len() == i,
                forall|j: int|
                    0 <= j < i ==> v@[j] == (((self@[j] - other@[j]) % (self.q as int)) as u64),
            decreases d - i,
        {
            v.push(sub_mod(self.coeffs[i], other.coeffs[i], self.q));
            i = i + 1;
        }
        let r = Poly { q: self.q, coeffs: v };
        proof {
            assert(r@ =~= spec_poly_sub(self@, other@, self.q));
            assert forall|j: int| 0 <= j < r@.len() implies r@[j] < r.q by {
                lemma_mod_bound(self@[j] - other@[j], self.q as int);
            }
        }
        r
    }

    /// Negation in the ring.
    pub fn neg(&self) -> (r: Poly)
        requires
            self.wf(),
        ensures
            r.wf(),
            r.q == self.q,
            r@ == spec_poly_neg(self@, self.q),
    {
        let d = self.coeffs.len();
        let mut v: Vec<u64> = Vec::new();
        let mut i: usize = 0;
        while i < d
            invariant
                i <= d,
                self.wf(),
                d == self@.len(),
                v@.len() == i,
                forall|j: int| 0 <= j < i ==> v@[j] == (((0 - self@[j]) % (self.q as int)) as u64),
            decreases d - i,
        {
            v.push(neg_mod(self.coeffs[i], self.q));
            i = i + 1;
        }
        let r = Poly { q: self.q, coeffs: v };
        proof {
            assert(r@ =~= spec_poly_neg(self@, self.q));
            assert forall|j: int| 0 <= j < r@.len() implies r@[j] < r.q by {
                lemma_mod_bound(0 - self@[j], self.q as int);
            }
        }
        r
    }

    /// Product with a scalar residue.
    pub fn scale(&self, c: u64) -> (r: Poly)
        requires
            self.wf(),
            c < self.q,
        ensures
            r.wf(),
            r.q == self.q,
            r@ == spec_poly_scale(self@, c, self.q),
    {
        let d = self.coeffs.len();
        let mut v: Vec<u64> = Vec::new();
        let mut i: usize = 0;
        while i < d
            invariant
                i <= d,
                self.wf(),
                c < self.q,
                d == self@.len(),
                v@.len() == i,
                forall|j: int| 0 <= j < i ==> v@[j] == (((self@[j] * c) % (self.q as int)) as u64),
            decreases d - i,
        {
            v.push(mul_mod(self.coeffs[i], c, self.q));
            i = i + 1;
        }
        let r = Poly { q: self.q, coeffs: v };
        proof {
            assert(r@ =~= spec_poly_scale(self@, c, self.q));
            assert forall|j: int| 0 <= j < r@.len() implies r@[j] < r.q by {
                lemma_mod_bound(self@[j] * c, self.q as int);
            }
        }
        r
    }

    /// Negacyclic product: schoolbook convolution with exact 128-bit
    /// accumulation, reduced once per output coefficient.
    pub fn mul(&self, other: &Poly) -> (r: Poly)
        requires
            self.wf(),
            other.wf(),
            self.same_ring(other),
        ensures
            r.wf(),
            r.q == self.q,
            r@ == spec_poly_mul(self@, other@, self.q),
    {
        let d = self.coeffs.len();
        let q = self.q;
        let mut v: Vec<u64> = Vec::new();
        let mut i: usize = 0;
        while i < d
            invariant
                i <= d,
                self.wf(),
                other.wf(),
                self.same_ring(other),
                d == self@.len(),
                q == self.q,
                v@.len() == i,
                forall|t: int| 0 <= t < i ==> v@[t] == negacyclic_coeff(self@, other@, q, t) as u64,
                forall|t: int| 0 <= t < i ==> v@[t] < q,
            decreases d - i,
        {
            let mut pos: u128 = 0;
            let mut neg: u128 = 0;
            let mut j: usize = 0;
            proof {
                lemma_mul_upper_bound(q - 1, Q_LIMIT as int, q - 1, Q_LIMIT as int);
            }
            while j < d
                invariant
                    j <= d,
                    i < d,
                    self.wf(),
                    other.wf(),
                    self.same_ring(other),
                    d == self@.len(),
                    q == self.q,
                    pos == conv_lo(self@, other@, i as int, j as int),
                    neg == conv_hi(self@, other@, i as int, j as int),
                    pos <= j * ((q - 1) * (q - 1)),
                    neg <= j * ((q - 1) * (q - 1)),
                decreases d - j,
            {
                let src: usize = if j <= i {
                    i - j
                } else {
                    i + d - j
                };
                proof {
                    lemma_mul_upper_bound(self@[j as int] as int, q - 1, other@[src as int] as int,
                        q - 1);
                    lemma_mul_upper_bound(self@[j as int] as int, 0xFFFF_FFFF_FFFF_FFFF,
                        other@[src as int] as int, 0xFFFF_FFFF_FFFF_FFFF);
                }
                let term: u128 = (self.coeffs[j] as u128) * (other.coeffs[src] as u128);
                proof {
                    assert((j + 1) * ((q - 1) * (q - 1))
                        < 0x1_0000_0000_0000_0000_0000_0000_0000_0000int && j * ((q - 1) * (q - 1))
                        + ((q - 1) * (q - 1)) == (j + 1) * ((q - 1) * (q - 1))) by (nonlinear_arith)
                        requires
                            0 <= j < 65536,
                            2 <= q < 0x100_0000_0000_0000,
                    ;
                }
                if j <= i {
                    pos = pos + term;
                } else {
                    neg = neg + term;
                }
                j = j + 1;
            }
            let pr: u64 = (pos % (q as u128)) as u64;
            let nr: u64 = (neg % (q as u128)) as u64;
            proof {
                lemma_mod_bound(pos as int, q as int);
                lemma_mod_bound(neg as int, q as int);
                lemma_sub_mod_noop(pos as int, neg as int, q as int);
                lemma_mod_bound(pos - neg, q as int);
            }
            let c = sub_mod(pr, nr, q);
            proof {
                assert(c as int == (pos - neg) % (q as int));
            }
            v.push(c);
            i = i + 1;
        }
        let r = Poly { q, coeffs: v };
        proof {
            assert(r@ =~= spec_poly_mul(self@, other@, q));
        }
        r
    }

    /// Product with the monomial `X^k`, `0 <= k < 2d`: a rotation of the
    /// coefficients with sign flips where the monomial wraps past `X^d`.
    pub fn mul_x_pow(&self, k: usize) -> (r: Poly)
        requires
            self.wf(),
            k < 2 * self@.len(),
        ensures
            r.wf(),
            r.q == self.q,
            r@ == spec_mul_x_pow(self@, k as int, self.q),
    {
        let d = self.coeffs.len();
        let q = self.q;
        let mut v: Vec<u64> = Vec::new();
        let mut i: usize = 0;
        while i < d
            invariant
                i <= d,
                self.wf(),
                k < 2 * d,
                d == self@.len(),
                q == self.q,
                v@.len() == i,
                forall|t: int| 0 <= t < i ==> v@[t] == spec_mul_x_pow(self@, k as int, q)[t],
                forall|t: int| 0 <= t < i ==> v@[t] < q,
            decreases d - i,
        {
            let t: usize = (i + 2 * d - k) % (2 * d);
            proof {
                lemma_mod_multiples_vanish(1, i - k, 2 * d as int);
                lemma_mod_bound(i - k, 2 * d as int);
            }
            let c: u64 = if t < d {
                self.coeffs[t]
            } else {
                neg_mod(self.coeffs[t - d], q)
            };
            proof {
                lemma_mod_bound(0 - self@[t - d], q as int);
            }
            v.push(c);
            i = i + 1;
        }
        let r = Poly { q, coeffs: v };
        proof {
            assert(r@ =~= spec_mul_x_pow(self@, k as int, q));
        }
        r
    }

    /// The automorphism `tau_k`: `f(X) -> f(X^k) mod (X^d + 1)`, `k` odd.
    pub fn auto(&self, k: usize) -> (r: Poly)
        requires
            self.wf(),
            k % 2 == 1,
            k < 2 * self@.len(),
        ensures
            r.wf(),
            r.q == self.q,
            r@.len() == self@.len(),
            r@ == spec_auto(self@, k as int, self.q),
    {
        let d = self.coeffs.len();
        let q = self.q;
        let mut r = Poly::zero(d, q);
        proof {
            assert(r@ =~= spec_auto_rec(self@, k as int, q, 0));
        }
        let mut j: usize = 0;
        while j < d
            invariant
                j <= d,
                self.wf(),
                k % 2 == 1,
                k < 2 * d,
                d == self@.len(),
                q == self.q,
                r.q == q,
                r@.len() == d,
                forall|t: int| 0 <= t < d ==> r@[t] < q,
                r@ == spec_auto_rec(self@, k as int, q, j as int),
            decreases d - j,
        {
            proof {
                lemma_mul_upper_bound(j as int, D_LIMIT as int, k as int, 2 * D_LIMIT as int);
            }
            let e: usize = ((j as u64 * k as u64) % (2 * d as u64)) as usize;
            proof {
                lemma_mod_bound((j * k) as int, 2 * d as int);
                lemma_mod_bound(0 - self@[j as int], q as int);
            }
            if e < d {
                r.coeffs.set(e, self.coeffs[j]);
            } else {
                r.coeffs.set(e - d, neg_mod(self.coeffs[j], q));
            }
            j = j + 1;
        }
        r
    }
}

} // verus!
