//! Parameter sets: the user-facing knobs, their expansion into derived
//! constants (gadget bases, record sizes), and strict validation.
#![allow(non_snake_case)]
use vstd::prelude::*;
use vstd::arithmetic::power::pow;
use vstd::arithmetic::power2::pow2;
use crate::arith::floor_log2;
use crate::gadget::base_from_len;
use crate::ring::{D_LIMIT, Q_LIMIT};

verus! {

/// Things that can be rejected at the library's boundary.
#[derive(Clone, Copy, Debug, PartialEq, Eq, Structural)]
pub enum RespireError {
    /// Parameter validation failed: dimensions or moduli inconsistent.
    Params,
    /// A record buffer's length is not `bytes_per_record`, or the record
    /// count is not the database size.
    RecordShape,
}

/// The user-chosen parameters of an instance.
#[derive(Clone, Copy, Debug)]
pub struct RespireParams {
    pub Q1A: u64,
    pub Q1B: u64,
    pub D1: usize,
    pub T_GSW: usize,
    pub T_PROJ_SHORT: usize,
    pub T_PROJ_LONG: usize,
    pub T_RLWE_TO_GSW: usize,
    pub T_VECTORIZE: usize,
    pub BATCH_SIZE: usize,
    pub N_VEC: usize,
    pub ERROR_WIDTH_MILLIONTHS: u64,
    pub ERROR_WIDTH_VEC_MILLIONTHS: u64,
    pub ERROR_WIDTH_COMPRESS_MILLIONTHS: u64,
    pub SECRET_BOUND: u64,
    pub SECRET_WIDTH_VEC_MILLIONTHS: u64,
    pub SECRET_WIDTH_COMPRESS_MILLIONTHS: u64,
    pub P: u64,
    pub D3: usize,
    pub NU1: usize,
    pub NU2: usize,
    pub Q3: u64,
    pub Q2: u64,
    pub D2: usize,
}

/// The parameters with every derived constant filled in.
#[derive(Clone, Copy, Debug)]
pub struct RespireParamsExpanded {
    pub Q1: u64,
    pub Q1A: u64,
    pub Q1B: u64,
    pub D1: usize,
    pub Z_GSW: u64,
    pub T_GSW: usize,
    pub M_GSW: usize,
    pub Z_PROJ_SHORT: u64,
    pub T_PROJ_SHORT: usize,
    pub Z_PROJ_LONG: u64,
    pub T_PROJ_LONG: usize,
    pub Z_RLWE_TO_GSW: u64,
    pub T_RLWE_TO_GSW: usize,
    pub M_RLWE_TO_GSW: usize,
    pub Z_VECTORIZE: u64,
    pub T_VECTORIZE: usize,
    pub BATCH_SIZE: usize,
    pub N_VEC: usize,
    pub ERROR_WIDTH_MILLIONTHS: u64,
    pub ERROR_WIDTH_VEC_MILLIONTHS: u64,
    pub ERROR_WIDTH_COMPRESS_MILLIONTHS: u64,
    pub SECRET_BOUND: u64,
    pub SECRET_WIDTH_VEC_MILLIONTHS: u64,
    pub SECRET_WIDTH_COMPRESS_MILLIONTHS: u64,
    pub P: u64,
    pub D3: usize,
    pub NU1: usize,
    pub NU2: usize,
    pub Q3: u64,
    pub Q2: u64,
    pub D2: usize,
    pub T_COMPRESS: usize,
    pub Z_COMPRESS: u64,
    pub BYTES_PER_RECORD: usize,
}

impl RespireParams {
    /// Derives the expanded constants: the main modulus `Q1 = Q1A*Q1B`,
    /// the gadget base for each decomposition length (the smallest base
    /// whose power covers the modulus), the binary compression gadget
    /// length, and the record byte size `D3 * log2(P) / 8`.
    pub fn expand(&self) -> (r: RespireParamsExpanded)
        requires
            2 <= self.Q1A,
            2 <= self.Q1B,
            self.Q1A * self.Q1B < Q_LIMIT,
            1 <= self.T_GSW <= 64,
            1 <= self.T_PROJ_SHORT <= 64,
            1 <= self.T_PROJ_LONG <= 64,
            1 <= self.T_RLWE_TO_GSW <= 64,
            1 <= self.T_VECTORIZE <= 64,
            2 <= self.Q2 < Q_LIMIT,
            2 <= self.P,
            self.D3 <= D_LIMIT,
        ensures
            r.Q1 == self.Q1A * self.Q1B,
            r.Q1A == self.Q1A,
            r.Q1B == self.Q1B,
            r.D1 == self.D1,
            r.T_GSW == self.T_GSW,
            r.M_GSW == 2 * self.T_GSW,
            r.T_PROJ_SHORT == self.T_PROJ_SHORT,
            r.T_PROJ_LONG == self.T_PROJ_LONG,
            r.T_RLWE_TO_GSW == self.T_RLWE_TO_GSW,
            r.M_RLWE_TO_GSW == 2 * self.T_RLWE_TO_GSW,
            r.T_VECTORIZE == self.T_VECTORIZE,
            r.BATCH_SIZE == self.BATCH_SIZE,
            r.N_VEC == self.N_VEC,
            r.ERROR_WIDTH_MILLIONTHS == self.ERROR_WIDTH_MILLIONTHS,
            r.ERROR_WIDTH_VEC_MILLIONTHS == self.ERROR_WIDTH_VEC_MILLIONTHS,
            r.ERROR_WIDTH_COMPRESS_MILLIONTHS == self.ERROR_WIDTH_COMPRESS_MILLIONTHS,
            r.SECRET_BOUND == self.SECRET_BOUND,
            r.SECRET_WIDTH_VEC_MILLIONTHS == self.SECRET_WIDTH_VEC_MILLIONTHS,
            r.SECRET_WIDTH_COMPRESS_MILLIONTHS == self.SECRET_WIDTH_COMPRESS_MILLIONTHS,
            r.P == self.P,
            r.D3 == self.D3,
            r.NU1 == self.NU1,
            r.NU2 == self.NU2,
            r.Q3 == self.Q3,
            r.Q2 == self.Q2,
            r.D2 == self.D2,
            2 <= r.Z_GSW <= r.Q1 && pow(r.Z_GSW as int, r.T_GSW as nat) >= r.Q1 && (r.Z_GSW == 2
                || pow(r.Z_GSW - 1, r.T_GSW as nat) < r.Q1),
            2 <= r.Z_PROJ_SHORT <= r.Q1 && pow(r.Z_PROJ_SHORT as int, r.T_PROJ_SHORT as nat)
                >= r.Q1 && (r.Z_PROJ_SHORT == 2 || pow(r.Z_PROJ_SHORT - 1, r.T_PROJ_SHORT as nat)
                < r.Q1),
            2 <= r.Z_PROJ_LONG <= r.Q1 && pow(r.Z_PROJ_LONG as int, r.T_PROJ_LONG as nat) >= r.Q1
                && (r.Z_PROJ_LONG == 2 || pow(r.Z_PROJ_LONG - 1, r.T_PROJ_LONG as nat) < r.Q1),
            2 <= r.Z_RLWE_TO_GSW <= r.Q1 && pow(r.Z_RLWE_TO_GSW as int, r.T_RLWE_TO_GSW as nat)
                >= r.Q1 && (r.Z_RLWE_TO_GSW == 2 || pow(r.Z_RLWE_TO_GSW - 1,
                r.T_RLWE_TO_GSW as nat) < r.Q1),
            2 <= r.Z_VECTORIZE <= r.Q1 && pow(r.Z_VECTORIZE as int, r.T_VECTORIZE as nat) >= r.Q1
                && (r.Z_VECTORIZE == 2 || pow(r.Z_VECTORIZE - 1, r.T_VECTORIZE as nat) < r.Q1),
            r.Z_COMPRESS == 2,
            1 <= r.T_COMPRESS <= 64,
            pow2((r.T_COMPRESS - 1) as nat) <= r.Q2 < pow2(r.T_COMPRESS as nat),
            ({
                exists|pb: nat|
                    #[trigger] pow2(pb) <= r.P < pow2(pb + 1) && r.BYTES_PER_RECORD == (r.D3 * pb)
                        / 8
            }),
    {
        proof {
            assert(self.Q1A * self.Q1B >= 4) by (nonlinear_arith)
                requires
                    self.Q1A >= 2,
                    self.Q1B >= 2,
            ;
        }
        let q1: u64 = self.Q1A * self.Q1B;
        let z_gsw = base_from_len(self.T_GSW, q1);
        let z_proj_short = base_from_len(self.T_PROJ_SHORT, q1);
        let z_proj_long = base_from_len(self.T_PROJ_LONG, q1);
        let z_rlwe_to_gsw = base_from_len(self.T_RLWE_TO_GSW, q1);
        let z_vectorize = base_from_len(self.T_VECTORIZE, q1);
        let t_compress = floor_log2(self.Q2) as usize + 1;
        let p_bits = floor_log2(self.P) as usize;
        proof {
            assert(self.D3 * p_bits <= 65536 * 63) by (nonlinear_arith)
                requires
                    self.D3 <= 65536,
                    p_bits <= 63,
            ;
        }
        RespireParamsExpanded {
            Q1: q1,
            Q1A: self.Q1A,
            Q1B: self.Q1B,
            D1: self.D1,
            Z_GSW: z_gsw,
            T_GSW: self.T_GSW,
            M_GSW: 2 * self.T_GSW,
            Z_PROJ_SHORT: z_proj_short,
            T_PROJ_SHORT: self.T_PROJ_SHORT,
            Z_PROJ_LONG: z_proj_long,
            T_PROJ_LONG: self.T_PROJ_LONG,
            Z_RLWE_TO_GSW: z_rlwe_to_gsw,
            T_RLWE_TO_GSW: self.T_RLWE_TO_GSW,
            M_RLWE_TO_GSW: 2 * self.T_RLWE_TO_GSW,
            Z_VECTORIZE: z_vectorize,
            T_VECTORIZE: self.T_VECTORIZE,
            BATCH_SIZE: self.BATCH_SIZE,
            N_VEC: self.N_VEC,
            ERROR_WIDTH_MILLIONTHS: self.ERROR_WIDTH_MILLIONTHS,
            ERROR_WIDTH_VEC_MILLIONTHS: self.ERROR_WIDTH_VEC_MILLIONTHS,
            ERROR_WIDTH_COMPRESS_MILLIONTHS: self.ERROR_WIDTH_COMPRESS_MILLIONTHS,
            SECRET_BOUND: self.SECRET_BOUND,
            SECRET_WIDTH_VEC_MILLIONTHS: self.SECRET_WIDTH_VEC_MILLIONTHS,
            SECRET_WIDTH_COMPRESS_MILLIONTHS: self.SECRET_WIDTH_COMPRESS_MILLIONTHS,
            P: self.P,
            D3: self.D3,
            NU1: self.NU1,
            NU2: self.NU2,
            Q3: self.Q3,
            Q2: self.Q2,
            D2: self.D2,
            T_COMPRESS: t_compress,
            Z_COMPRESS: 2,
            BYTES_PER_RECORD: (self.D3 * p_bits) / 8,
        }
    }
}

/// A reduced set of knobs for the 32-byte-record instances; the other
/// constants are fixed by `to_params`.
#[derive(Clone, Copy, Debug)]
pub struct FactoryParams {
    pub BATCH_SIZE: usize,
    pub N_VEC: usize,
    pub P: u64,
    pub D3: usize,
    pub NU1: usize,
    pub NU2: usize,
    pub Q3: u64,
    pub Q2: u64,
    pub D2: usize,
    pub WIDTH_COMPRESS_MILLIONTHS: u64,
    pub T_PROJ_SHORT: usize,
    pub T_PROJ_LONG: usize,
}

impl FactoryParams {
    /// The single-record preset for 32-byte records:
    /// `P = 4, D3 = 128` gives `128 * 2 / 8 = 32` bytes.
    pub fn single_record_32(nu1: usize, nu2: usize) -> (r: FactoryParams)
        ensures
            r.BATCH_SIZE == 1,
            r.N_VEC == 1,
            r.P == 4,
            r.D3 == 128,
            r.NU1 == nu1,
            r.NU2 == nu2,
            r.Q3 == 256,
            r.Q2 == 16760833,
            r.D2 == 512,
            r.WIDTH_COMPRESS_MILLIONTHS == 253_600_000,
            r.T_PROJ_SHORT == 4,
            r.T_PROJ_LONG == 20,
    {
        FactoryParams {
            BATCH_SIZE: 1,
            N_VEC: 1,
            P: 4,
            D3: 128,
            NU1: nu1,
            NU2: nu2,
            Q3: 16 * 16,
            Q2: 16760833,
            D2: 512,
            WIDTH_COMPRESS_MILLIONTHS: 253_600_000,
            T_PROJ_SHORT: 4,
            T_PROJ_LONG: 20,
        }
    }

    /// The batched preset for 32-byte records.
    pub fn batch_32(batch_size: usize, n_vec: usize, nu1: usize, nu2: usize) -> (r: FactoryParams)
        ensures
            r.BATCH_SIZE == batch_size,
            r.N_VEC == n_vec,
            r.P == 4,
            r.D3 == 128,
            r.NU1 == nu1,
            r.NU2 == nu2,
            r.Q3 == 128,
            r.Q2 == 249857,
            r.D2 == 2048,
            r.WIDTH_COMPRESS_MILLIONTHS == 2_001_000,
            r.T_PROJ_SHORT == 4,
            r.T_PROJ_LONG == 20,
    {
        FactoryParams {
            BATCH_SIZE: batch_size,
            N_VEC: n_vec,
            P: 4,
            D3: 128,
            NU1: nu1,
            NU2: nu2,
            Q3: 8 * 16,
            Q2: 249857,
            D2: 2048,
            WIDTH_COMPRESS_MILLIONTHS: 2_001_000,
            T_PROJ_SHORT: 4,
            T_PROJ_LONG: 20,
        }
    }

    /// Fills in the fixed base constants: the two 28-bit working primes
    /// (both `1 mod 2*2048`), the working ring dimension 2048, and the
    /// remaining gadget lengths and noise widths.
    pub fn to_params(&self) -> (r: RespireParams)
        ensures
            r.Q1A == 268369921,
            r.Q1B == 249561089,
            r.D1 == 2048,
            r.T_GSW == 8,
            r.T_PROJ_SHORT == self.T_PROJ_SHORT,
            r.T_PROJ_LONG == self.T_PROJ_LONG,
            r.T_RLWE_TO_GSW == 8,
            r.T_VECTORIZE == 8,
            r.BATCH_SIZE == self.BATCH_SIZE,
            r.N_VEC == self.N_VEC,
            r.ERROR_WIDTH_MILLIONTHS == 6_400_000,
            r.ERROR_WIDTH_VEC_MILLIONTHS == 6_400_000,
            r.ERROR_WIDTH_COMPRESS_MILLIONTHS == self.WIDTH_COMPRESS_MILLIONTHS,
            r.SECRET_BOUND == 2,
            r.SECRET_WIDTH_VEC_MILLIONTHS == 6_400_000,
            r.SECRET_WIDTH_COMPRESS_MILLIONTHS == self.WIDTH_COMPRESS_MILLIONTHS,
            r.P == self.P,
            r.D3 == self.D3,
            r.NU1 == self.NU1,
            r.NU2 == self.NU2,
            r.Q3 == self.Q3,
            r.Q2 == self.Q2,
            r.D2 == self.D2,
    {
        RespireParams {
            Q1A: 268369921,
            Q1B: 249561089,
            D1: 2048,
            T_GSW: 8,
            T_PROJ_SHORT: self.T_PROJ_SHORT,
            T_PROJ_LONG: self.T_PROJ_LONG,
            T_RLWE_TO_GSW: 8,
            T_VECTORIZE: 8,
            BATCH_SIZE: self.BATCH_SIZE,
            N_VEC: self.N_VEC,
            ERROR_WIDTH_MILLIONTHS: 6_400_000,
            ERROR_WIDTH_VEC_MILLIONTHS: 6_400_000,
            ERROR_WIDTH_COMPRESS_MILLIONTHS: self.WIDTH_COMPRESS_MILLIONTHS,
            SECRET_BOUND: 2,
            SECRET_WIDTH_VEC_MILLIONTHS: 6_400_000,
            SECRET_WIDTH_COMPRESS_MILLIONTHS: self.WIDTH_COMPRESS_MILLIONTHS,
            P: self.P,
            D3: self.D3,
            NU1: self.NU1,
            NU2: self.NU2,
            Q3: self.Q3,
            Q2: self.Q2,
            D2: self.D2,
        }
    }
}

/// A record's byte buffer.
#[derive(Clone, Debug)]
pub struct RecordBytesImpl {
    pub it: Vec<u8>,
}

impl RecordBytesImpl {
    /// Wraps a byte buffer when it has the expected record length.
    pub fn from_bytes(bytes: &Vec<u8>, len: usize) -> (r: Option<RecordBytesImpl>)
        ensures
            r is Some <==> bytes@.len() == len,
            r is Some ==> r.get_Some_0().it@ == bytes@,
    {
        if bytes.len() == len {
            let mut v: Vec<u8> = Vec::new();
            let mut i: usize = 0;
            while i < bytes.len()
                invariant
                    i <= bytes@.len(),
                    v@.len() == i,
                    forall|k: int| 0 <= k < i ==> v@[k] == bytes@[k],
                decreases bytes@.len() - i,
            {
                v.push(bytes[i]);
                i = i + 1;
            }
            proof {
                assert(v@ =~= bytes@);
            }
            Some(RecordBytesImpl { it: v })
        } else {
            None
        }
    }

    /// The bytes.
    pub fn as_bytes(&self) -> (r: &Vec<u8>)
        ensures
            r@ == self.it@,
    {
        &self.it
    }
}

impl RecordBytesImpl {
    /// The all-zero record of `len` bytes.
    pub fn zero_record(len: usize) -> (r: RecordBytesImpl)
        ensures
            r.it@ == Seq::new(len as nat, |i: int| 0u8),
    {
        let mut v: Vec<u8> = Vec::new();
        let mut i: usize = 0;
        while i < len
            invariant
                i <= len,
                v@.len() == i,
                forall|k: int| 0 <= k < i ==> v@[k] == 0u8,
            decreases len - i,
        {
            v.push(0);
            i = i + 1;
        }
        proof {
            assert(v@ =~= Seq::new(len as nat, |i: int| 0u8));
        }
        RecordBytesImpl { it: v }
    }
}

/// The centered-binomial parameter matching a subgaussian width given in
/// millionths: `k = round(2 * sigma^2)`, so the sampler's variance `k/2`
/// equals `sigma^2`.
pub fn cbd_param_from_width(width_millionths: u64) -> (k: u64)
    requires
        width_millionths < 0x1_0000_0000,
    ensures
        k == (2 * (width_millionths * width_millionths) + 500_000_000_000)
            / 1_000_000_000_000,
        k <= 0x4000_0000,
{
    let w = width_millionths as u128;
    proof {
        vstd::arithmetic::mul::lemma_mul_upper_bound(w as int, 0xFFFF_FFFF, w as int, 0xFFFF_FFFF);
    }
    let ww: u128 = w * w;
    let num: u128 = 2 * ww + 500_000_000_000;
    let k = num / 1_000_000_000_000;
    proof {
        vstd::arithmetic::div_mod::lemma_div_is_ordered(
            num as int,
            0x8_0000_0000_0000_0000,
            1_000_000_000_000,
        );
    }
    k as u64
}

} // verus!
