//! GSW ciphertexts: `2 x 2t` ring matrices carrying a gadget-scaled message.
//!
//! The hybrid product `gsw * gadget_inverse(rlwe)` multiplies the RLWE
//! message by the GSW message; `select` branches between two RLWE
//! ciphertexts on an encrypted bit.
use vstd::prelude::*;
use crate::gadget::{gadget_decompose, spec_digit};
use crate::ring::{spec_poly_add, spec_poly_mul, spec_poly_sub, Poly};
use crate::rlwe::Rlwe;

verus! {

/// The views of a GSW matrix's columns: `(row 0, row 1)` per column.
pub open spec fn gsw_view(cols: Seq<Rlwe>) -> Seq<(Seq<u64>, Seq<u64>)> {
    Seq::new(cols.len(), |j: int| (cols[j].c0@, cols[j].c1@))
}

/// The base-`z` digit rows of a ring element: row `j` holds digit `j` of
/// every coefficient.
pub open spec fn spec_gadget_digits(a: Seq<u64>, z: u64, t: int) -> Seq<Seq<u64>> {
    Seq::new(t as nat, |j: int| Seq::new(a.len(), |i: int| spec_digit(a[i], z, j as nat) as u64))
}

/// The stacked digit rows of an RLWE pair: `t` digit rows of `c0`, then
/// `t` digit rows of `c1` — the gadget inverse of the 2-vector.
pub open spec fn spec_digits2(c0: Seq<u64>, c1: Seq<u64>, z: u64, t: int) -> Seq<Seq<u64>> {
    spec_gadget_digits(c0, z, t) + spec_gadget_digits(c1, z, t)
}

/// The first `n` terms of the matrix-vector product of GSW columns with
/// digit rows: `sum of digs[j] * cols[j]`, componentwise on the two rows.
pub open spec fn spec_col_comb(
    cols: Seq<(Seq<u64>, Seq<u64>)>,
    digs: Seq<Seq<u64>>,
    q: u64,
    d: nat,
    n: int,
) -> (Seq<u64>, Seq<u64>)
    decreases n,
{
    if n <= 0 {
        (Seq::new(d, |i: int| 0u64), Seq::new(d, |i: int| 0u64))
    } else {
        let prev = spec_col_comb(cols, digs, q, d, n - 1);
        (
            spec_poly_add(prev.0, spec_poly_mul(digs[n - 1], cols[n - 1].0, q), q),
            spec_poly_add(prev.1, spec_poly_mul(digs[n - 1], cols[n - 1].1, q), q),
        )
    }
}

/// The hybrid product: the GSW matrix applied to the gadget inverse of an
/// RLWE pair.
pub open spec fn spec_hybrid(
    cols: Seq<(Seq<u64>, Seq<u64>)>,
    c0: Seq<u64>,
    c1: Seq<u64>,
    z: u64,
    t: int,
    q: u64,
) -> (Seq<u64>, Seq<u64>) {
    spec_col_comb(cols, spec_digits2(c0, c1, z, t), q, c0.len(), 2 * t)
}

/// A GSW ciphertext: the columns of a `2 x m` ring matrix.
#[derive(Clone, Debug)]
pub struct Gsw {
    pub cols: Vec<Rlwe>,
}

impl Gsw {
    /// All columns valid and in one ring.
    pub open spec fn wf(&self) -> bool {
        &&& self.cols@.len() >= 1
        &&& forall|j: int| 0 <= j < self.cols@.len() ==> (#[trigger] self.cols@[j]).wf()
        &&& forall|j: int| 0 <= j < self.cols@.len() ==> self.cols@[0].same_ring(
            &(#[trigger] self.cols@[j]),
        )
    }

    /// Ring modulus.
    pub open spec fn q(&self) -> u64 {
        self.cols@[0].q()
    }

    /// Ring dimension.
    pub open spec fn dim(&self) -> nat {
        self.cols@[0].dim()
    }

    /// Number of columns.
    pub open spec fn m(&self) -> nat {
        self.cols@.len()
    }
}

/// Accumulates `n` more columns of `gsw` times digit polys `digs` onto `acc`.
pub(crate) fn col_comb_loop(gsw: &Gsw, digs: &Vec<Poly>, d: usize, q: u64) -> (r: Rlwe)
    requires
        gsw.wf(),
        gsw.q() == q,
        gsw.dim() == d,
        2 <= q < crate::ring::Q_LIMIT,
        1 <= d <= crate::ring::D_LIMIT,
        digs@.len() <= gsw.m(),
        forall|j: int|
            0 <= j < digs@.len() ==> (#[trigger] digs@[j]).wf() && digs@[j].q == q
                && digs@[j]@.len() == d,
    ensures
        r.wf(),
        r.q() == q,
        r.dim() == d,
        ({
            let comb = spec_col_comb(
                gsw_view(gsw.cols@),
                Seq::new(digs@.len(), |j: int| digs@[j]@),
                q,
                d as nat,
                digs@.len() as int,
            );
            r.c0@ == comb.0 && r.c1@ == comb.1
        }),
{
    let ghost dseq = Seq::new(digs@.len(), |j: int| digs@[j]@);
    let mut acc = Rlwe::zero(d, q);
    proof {
        let comb0 = spec_col_comb(gsw_view(gsw.cols@), dseq, q, d as nat, 0);
        assert(acc.c0@ =~= comb0.0);
        assert(acc.c1@ =~= comb0.1);
    }
    let n = digs.len();
    let mut j: usize = 0;
    while j < n
        invariant
            j <= n,
            gsw.wf(),
            gsw.q() == q,
            gsw.dim() == d,
            2 <= q < crate::ring::Q_LIMIT,
            1 <= d <= crate::ring::D_LIMIT,
            n == digs@.len(),
            n <= gsw.m(),
            dseq == Seq::new(digs@.len(), |jj: int| digs@[jj]@),
            forall|jj: int|
                0 <= jj < n ==> (#[trigger] digs@[jj]).wf() && digs@[jj].q == q
                    && digs@[jj]@.len() == d,
            acc.wf(),
            acc.q() == q,
            acc.dim() == d,
            acc.c0@ == spec_col_comb(gsw_view(gsw.cols@), dseq, q, d as nat, j as int).0,
            acc.c1@ == spec_col_comb(gsw_view(gsw.cols@), dseq, q, d as nat, j as int).1,
        decreases n - j,
    {
        let dj = &digs[j];
        let col = &gsw.cols[j];
        proof {
            assert(gsw.cols@[j as int].wf());
            assert(gsw.cols@[0].same_ring(&gsw.cols@[j as int]));
            assert(gsw.cols@[0].wf());
        }
        let t0 = dj.mul(&col.c0);
        let t1 = dj.mul(&col.c1);
        let new0 = acc.c0.add(&t0);
        let new1 = acc.c1.add(&t1);
        acc = Rlwe { c0: new0, c1: new1 };
        j = j + 1;
        proof {
            assert(gsw_view(gsw.cols@)[j - 1].0 == gsw.cols@[j - 1].c0@);
            assert(dseq[j - 1] == digs@[j - 1]@);
        }
    }
    acc
}

/// The hybrid product `gsw * gadget_inverse(c)`: an RLWE ciphertext whose
/// message is the product of the two encrypted messages.
pub fn hybrid_mul_hom(c: &Rlwe, gsw: &Gsw, z: u64, t: usize) -> (r: Rlwe)
    requires
        c.wf(),
        gsw.wf(),
        gsw.q() == c.q(),
        gsw.dim() == c.dim(),
        gsw.m() == 2 * t,
        2 <= z <= c.q(),
        1 <= t <= 64,
    ensures
        r.wf(),
        r.q() == c.q(),
        r.dim() == c.dim(),
        ({
            let comb = spec_hybrid(gsw_view(gsw.cols@), c.c0@, c.c1@, z, t as int, c.q());
            r.c0@ == comb.0 && r.c1@ == comb.1
        }),
{
    let d = c.c0.dim();
    let q = c.c0.q;
    let d0 = gadget_decompose(&c.c0, z, t);
    let d1 = gadget_decompose(&c.c1, z, t);
    let mut digs: Vec<Poly> = d0;
    let mut i: usize = 0;
    let ghost target = spec_digits2(c.c0@, c.c1@, z, t as int);
    while i < t
        invariant
            i <= t,
            c.wf(),
            d == c.dim(),
            q == c.q(),
            d1@.len() == t,
            forall|j: int|
                0 <= j < t ==> (#[trigger] d1@[j]).wf() && d1@[j].q == q && d1@[j]@.len() == d,
            forall|j: int, ii: int|
                0 <= j < t && 0 <= ii < d ==> (#[trigger] d1@[j]@[ii]) == spec_digit(
                    c.c1@[ii],
                    z,
                    j as nat,
                ),
            digs@.len() == t + i,
            forall|j: int|
                0 <= j < t + i ==> (#[trigger] digs@[j]).wf() && digs@[j].q == q && digs@[j]@.len()
                    == d,
            forall|j: int, ii: int|
                0 <= j < t && 0 <= ii < d ==> (#[trigger] digs@[j]@[ii]) == spec_digit(
                    c.c0@[ii],
                    z,
                    j as nat,
                ),
            forall|j: int, ii: int|
                t <= j < t + i && 0 <= ii < d ==> (#[trigger] digs@[j]@[ii]) == spec_digit(
                    c.c1@[ii],
                    z,
                    (j - t) as nat,
                ),
        decreases t - i,
    {
        digs.push(d1[i].duplicate());
        i = i + 1;
    }
    proof {
        assert forall|j: int| 0 <= j < 2 * t implies digs@[j]@ =~= target[j] by {
            if j < t {
                assert(target[j] =~= Seq::new(
                    c.c0@.len(),
                    |ii: int| spec_digit(c.c0@[ii], z, j as nat) as u64,
                ));
            } else {
                assert(target[j] =~= Seq::new(
                    c.c1@.len(),
                    |ii: int| spec_digit(c.c1@[ii], z, (j - t) as nat) as u64,
                ));
            }
        }
        assert(Seq::new(digs@.len(), |j: int| digs@[j]@) =~= target);
    }
    col_comb_loop(gsw, &digs, d, q)
}

/// The selection formula: `off + gsw * gadget_inverse(on - off)`,
/// componentwise on the two rows.
pub open spec fn spec_select(
    off: (Seq<u64>, Seq<u64>),
    on: (Seq<u64>, Seq<u64>),
    cols: Seq<(Seq<u64>, Seq<u64>)>,
    z: u64,
    t: int,
    q: u64,
) -> (Seq<u64>, Seq<u64>) {
    let comb = spec_hybrid(
        cols,
        spec_poly_sub(on.0, off.0, q),
        spec_poly_sub(on.1, off.1, q),
        z,
        t,
        q,
    );
    (spec_poly_add(off.0, comb.0, q), spec_poly_add(off.1, comb.1, q))
}

/// Homomorphic selection: `c_off + hybrid(b, c_on - c_off)`.  When `b`
/// encrypts 0 the result decrypts as `c_off`; when `b` encrypts 1, as
/// `c_on`.
pub fn select_hom(c_off: &Rlwe, c_on: &Rlwe, b: &Gsw, z: u64, t: usize) -> (r: Rlwe)
    requires
        c_off.wf(),
        c_on.wf(),
        c_off.same_ring(c_on),
        b.wf(),
        b.q() == c_off.q(),
        b.dim() == c_off.dim(),
        b.m() == 2 * t,
        2 <= z <= c_off.q(),
        1 <= t <= 64,
    ensures
        r.wf(),
        r.q() == c_off.q(),
        r.dim() == c_off.dim(),
        ({
            let sel = spec_select(
                (c_off.c0@, c_off.c1@),
                (c_on.c0@, c_on.c1@),
                gsw_view(b.cols@),
                z,
                t as int,
                c_off.q(),
            );
            r.c0@ == sel.0 && r.c1@ == sel.1
        }),
{
    let diff = c_on.sub(c_off);
    let prod = hybrid_mul_hom(&diff, b, z, t);
    c_off.add(&prod)
}

} // verus!
