//! The protocol instance: validated parameters with their derived counts,
//! and the client/server pipeline built on them.
use vstd::prelude::*;
use vstd::arithmetic::power::pow;
use vstd::arithmetic::power2::pow2;
use crate::arith::{ceil_log2, check_pow2, floor_log2, pow2_u64};
use crate::codec::group_width_ok;
use crate::gadget::pow_at_least;
use crate::params::{cbd_param_from_width, RespireError, RespireParamsExpanded};
use crate::ring::{coeffs_ok, Poly, D_LIMIT, Q_LIMIT};

verus! {

/// The centered-binomial parameter a subgaussian width (in millionths)
/// maps to: `round(2 * sigma^2)`.
pub open spec fn spec_cbd_k(w: u64) -> int {
    (2 * (w * w) + 500_000_000_000) / 1_000_000_000_000
}

/// Everything validation promises of an expanded parameter set.  The
/// conjuncts mirror the checks of `RespireImpl::new` one for one.
pub open spec fn params_ok(p: RespireParamsExpanded) -> bool {
    // moduli
    &&& 2 <= p.Q1A
    &&& 2 <= p.Q1B
    &&& p.Q1 == p.Q1A * p.Q1B
    &&& 4 <= p.Q1 < Q_LIMIT
    &&& p.Q1 % 2 == 1
    &&& (p.Q1A as int) % (2 * p.D1 as int) == 1
    &&& (p.Q1B as int) % (2 * p.D1 as int) == 1
    &&& 2 <= p.Q3 <= p.Q2 <= p.Q1
    &&& p.Q2 < Q_LIMIT
    &&& p.Q3 <= 0x1_0000
    &&& p.Q2 <= 0x1_0000_0000
    // ring dimensions: powers of two, nested
    &&& (exists|e: nat| p.D1 == pow2(e))
    &&& (exists|e: nat| p.D2 == pow2(e))
    &&& (exists|e: nat| p.D3 == pow2(e))
    &&& 1 <= p.D3 <= p.D2 <= p.D1 <= D_LIMIT
    &&& p.D1 <= 0xFFFF
    // plaintext modulus: a power of two of codec-supported width
    &&& (exists|pb: nat|
        #[trigger] pow2(pb) == p.P && group_width_ok(pb as int) && p.BYTES_PER_RECORD * 8 == p.D3
            * pb && p.BYTES_PER_RECORD >= 1)
    &&& p.BYTES_PER_RECORD * 8 <= D_LIMIT
    &&& 4 * p.P <= p.Q3
    // gadget lengths and bases
    &&& 1 <= p.T_GSW <= 64
    &&& 1 <= p.T_PROJ_SHORT <= 64
    &&& 1 <= p.T_PROJ_LONG <= 64
    &&& 1 <= p.T_RLWE_TO_GSW <= 64
    &&& 1 <= p.T_VECTORIZE <= 64
    &&& 1 <= p.T_COMPRESS <= 64
    &&& p.M_GSW == 2 * p.T_GSW
    &&& p.M_RLWE_TO_GSW == 2 * p.T_RLWE_TO_GSW
    &&& 2 <= p.Z_GSW <= p.Q1 && pow(p.Z_GSW as int, p.T_GSW as nat) >= p.Q1
    &&& 2 <= p.Z_PROJ_SHORT <= p.Q1 && pow(p.Z_PROJ_SHORT as int, p.T_PROJ_SHORT as nat) >= p.Q1
    &&& 2 <= p.Z_PROJ_LONG <= p.Q1 && pow(p.Z_PROJ_LONG as int, p.T_PROJ_LONG as nat) >= p.Q1
    &&& 2 <= p.Z_RLWE_TO_GSW <= p.Q1 && pow(p.Z_RLWE_TO_GSW as int, p.T_RLWE_TO_GSW as nat)
        >= p.Q1
    &&& 2 <= p.Z_VECTORIZE <= p.Q1 && pow(p.Z_VECTORIZE as int, p.T_VECTORIZE as nat) >= p.Q1
    &&& p.Z_COMPRESS == 2 && pow(2, p.T_COMPRESS as nat) >= p.Q2
    // database shape
    &&& p.NU1 <= 16
    &&& p.NU2 <= 16
    &&& pow2(p.NU1 as nat) <= p.D1
    &&& 1 <= p.N_VEC <= 1024
    &&& 1 <= p.BATCH_SIZE <= 0xFFFF
    &&& pow2(p.NU1 as nat) * pow2(p.NU2 as nat) <= 0x4000_0000
    &&& pow2(p.NU1 as nat) * pow2(p.NU2 as nat) * (p.D1 as int / p.D3 as int) <= 0x4000_0000
    &&& 1 <= (p.NU2 + vstd::arithmetic::logarithm::log(2, p.D1 as int / p.D3 as int)) * p.T_GSW
        <= p.D1
    // secrets and noise
    &&& 1 <= p.SECRET_BOUND && 2 * p.SECRET_BOUND < p.Q1
    &&& p.ERROR_WIDTH_MILLIONTHS < 0x1_0000_0000
    &&& p.ERROR_WIDTH_VEC_MILLIONTHS < 0x1_0000_0000
    &&& p.ERROR_WIDTH_COMPRESS_MILLIONTHS < 0x1_0000_0000
    &&& p.SECRET_WIDTH_COMPRESS_MILLIONTHS < 0x1_0000_0000
    &&& p.SECRET_WIDTH_VEC_MILLIONTHS < 0x1_0000_0000
    &&& spec_cbd_k(p.SECRET_WIDTH_VEC_MILLIONTHS) <= 0x20_0000 && spec_cbd_k(
        p.SECRET_WIDTH_VEC_MILLIONTHS,
    ) * p.D1 <= 0x7FFF_FFFF && 2 * spec_cbd_k(p.SECRET_WIDTH_VEC_MILLIONTHS) < p.Q1
    &&& spec_cbd_k(p.ERROR_WIDTH_MILLIONTHS) <= 0x20_0000 && spec_cbd_k(p.ERROR_WIDTH_MILLIONTHS)
        * p.D1 <= 0x7FFF_FFFF && 2 * spec_cbd_k(p.ERROR_WIDTH_MILLIONTHS) < p.Q1
    &&& spec_cbd_k(p.ERROR_WIDTH_VEC_MILLIONTHS) <= 0x20_0000 && spec_cbd_k(
        p.ERROR_WIDTH_VEC_MILLIONTHS,
    ) * p.D1 <= 0x7FFF_FFFF && 2 * spec_cbd_k(p.ERROR_WIDTH_VEC_MILLIONTHS) < p.Q1
    &&& spec_cbd_k(p.ERROR_WIDTH_COMPRESS_MILLIONTHS) <= 0x20_0000 && spec_cbd_k(
        p.ERROR_WIDTH_COMPRESS_MILLIONTHS,
    ) * p.D1 <= 0x7FFF_FFFF && 2 * spec_cbd_k(p.ERROR_WIDTH_COMPRESS_MILLIONTHS) < p.Q2
    &&& spec_cbd_k(p.SECRET_WIDTH_COMPRESS_MILLIONTHS) <= 0x20_0000 && spec_cbd_k(
        p.SECRET_WIDTH_COMPRESS_MILLIONTHS,
    ) * p.D1 <= 0x7FFF_FFFF && 2 * spec_cbd_k(p.SECRET_WIDTH_COMPRESS_MILLIONTHS) < p.Q2
}

/// The derived counts of an instance, all fixed by the parameters.
pub struct RespireImpl {
    pub params: RespireParamsExpanded,
    /// `2^NU1`: the first database dimension (also the RLWE count).
    pub dim1: usize,
    /// `2^NU2`: the second database dimension.
    pub dim2: usize,
    /// `D1 / D3`: records per working ring element.
    pub pack_db: usize,
    /// `D2 / D3`: records per response ring element.
    pub pack_resp: usize,
    /// `log2(D1 / D3)`: rotate-select iterations.
    pub nu3: usize,
    /// `2^(NU1+NU2) * pack_db`: the database size in records.
    pub num_records: usize,
    /// `(NU2 + nu3) * T_GSW`: expanded GSW ciphertext count.
    pub gsw_count: usize,
    /// `log2(P)`: plaintext bits per ring coefficient.
    pub pb: usize,
    /// Centered-binomial parameter for the main error width.
    pub k_err: usize,
    /// Centered-binomial parameter for the vector error width.
    pub k_vec: usize,
    /// Centered-binomial parameter for the compression error width.
    pub k_comp: usize,
    /// Centered-binomial parameter for the small compression secret.
    pub k_sec_comp: usize,
    /// Centered-binomial parameter for the vector secret.
    pub k_sec_vec: usize,
    /// `log2(D1)`.
    pub ld1: usize,
}

impl RespireImpl {
    /// Validated instance: the parameters pass `params_ok` and every
    /// derived count equals its formula and fits the machine.
    pub open spec fn wf(&self) -> bool {
        &&& params_ok(self.params)
        &&& self.dim1 == pow2(self.params.NU1 as nat)
        &&& self.dim2 == pow2(self.params.NU2 as nat)
        &&& 1 <= self.dim1
        &&& 1 <= self.dim2
        &&& 1 <= self.pack_db
        &&& 1 <= self.pack_resp
        &&& self.pack_db * self.params.D3 == self.params.D1
        &&& self.pack_resp * self.params.D3 == self.params.D2
        &&& self.pack_db == pow2(self.nu3 as nat)
        &&& self.nu3 <= 16
        &&& self.num_records == self.dim1 * self.dim2 * self.pack_db
        &&& self.num_records >= 1
        &&& self.dim1 * self.dim2 <= 0x4000_0000
        &&& self.num_records <= 0x4000_0000
        &&& self.gsw_count == (self.params.NU2 + self.nu3) * self.params.T_GSW
        &&& 1 <= self.gsw_count
        &&& self.gsw_count <= self.params.D1
        &&& pow2(self.pb as nat) == self.params.P && group_width_ok(self.pb as int)
        &&& self.params.BYTES_PER_RECORD * 8 == self.params.D3 * self.pb
        &&& self.k_err <= 0x20_0000 && self.k_err * self.params.D1 <= 0x7FFF_FFFF && 2
            * self.k_err < self.params.Q1
        &&& self.k_vec <= 0x20_0000 && self.k_vec * self.params.D1 <= 0x7FFF_FFFF && 2 * self.k_vec
            < self.params.Q1
        &&& self.k_comp <= 0x20_0000 && self.k_comp * self.params.D1 <= 0x7FFF_FFFF && 2
            * self.k_comp < self.params.Q2
        &&& self.k_sec_comp <= 0x20_0000 && self.k_sec_comp * self.params.D1 <= 0x7FFF_FFFF && 2
            * self.k_sec_comp < self.params.Q2
        &&& self.k_sec_vec <= 0x20_0000 && self.k_sec_vec * self.params.D1 <= 0x7FFF_FFFF && 2
            * self.k_sec_vec < self.params.Q1
        &&& self.params.D1 == pow2(self.ld1 as nat)
        &&& self.ld1 <= 16
        &&& self.params.NU1 <= self.ld1
    }

    /// Validates an expanded parameter set and fixes the derived counts.
    /// Returns the parameter error exactly when some check fails.
    #[verifier::rlimit(100)]
    pub fn new(params: RespireParamsExpanded) -> (r: Result<RespireImpl, RespireError>)
        ensures
            r is Ok ==> r.get_Ok_0().wf() && r.get_Ok_0().params == params,
            r is Err ==> !params_ok(params) && r.get_Err_0() == RespireError::Params,
    {
        let p = &params;
        // moduli
        if !(2 <= p.Q1A && 2 <= p.Q1B) {
            return Err(RespireError::Params);
        }
        if !(p.D1 >= 1 && p.D1 <= 0xFFFF && p.D1 <= D_LIMIT) {
            return Err(RespireError::Params);
        }
        proof {
            vstd::arithmetic::mul::lemma_mul_upper_bound(p.Q1A as int, 0xFFFF_FFFF_FFFF_FFFF,
                p.Q1B as int, 0xFFFF_FFFF_FFFF_FFFF);
        }
        let q1_wide: u128 = (p.Q1A as u128) * (p.Q1B as u128);
        if !(q1_wide == p.Q1 as u128 && 4 <= p.Q1 && p.Q1 < Q_LIMIT && p.Q1 % 2 == 1) {
            return Err(RespireError::Params);
        }
        if !(p.Q1A % (2 * p.D1 as u64) == 1 && p.Q1B % (2 * p.D1 as u64) == 1) {
            return Err(RespireError::Params);
        }
        if !(2 <= p.Q3 && p.Q3 <= p.Q2 && p.Q2 <= p.Q1 && p.Q2 < Q_LIMIT && p.Q3 <= 0x1_0000
            && p.Q2 <= 0x1_0000_0000) {
            return Err(RespireError::Params);
        }
        // dimensions
        if !(check_pow2(p.D1 as u64) && check_pow2(p.D2 as u64) && check_pow2(p.D3 as u64)) {
            return Err(RespireError::Params);
        }
        if !(1 <= p.D3 && p.D3 <= p.D2 && p.D2 <= p.D1) {
            return Err(RespireError::Params);
        }
        // plaintext modulus
        if !(p.P >= 1) {
            proof {
                assert forall|pb2: nat| pow2(pb2) != p.P by {
                    vstd::arithmetic::power2::lemma_pow2_pos(pb2);
                }
            }
            return Err(RespireError::Params);
        }
        let pb64 = floor_log2(p.P);
        proof {
            assert forall|pb2: nat| pow2(pb2) == p.P implies pb2 == pb64 by {
                if pb2 < pb64 {
                    vstd::arithmetic::power2::lemma_pow2_strictly_increases(pb2, pb64 as nat);
                }
                if pb2 > pb64 + 1 {
                    vstd::arithmetic::power2::lemma_pow2_strictly_increases((pb64 + 1) as nat, pb2);
                }
            }
        }
        if !(pb64 == 1 || pb64 == 2 || pb64 == 4 || pb64 == 8) {
            return Err(RespireError::Params);
        }
        let pbv = pow2_u64(pb64);
        let pb = pb64 as usize;
        if !(pbv == p.P) {
            return Err(RespireError::Params);
        }
        proof {
            vstd::arithmetic::mul::lemma_mul_upper_bound(p.D3 as int, 0xFFFF, pb as int, 63);
        }
        if !((p.BYTES_PER_RECORD as u128) * 8 == (p.D3 as u128) * (pb as u128)
            && p.BYTES_PER_RECORD >= 1 && (p.BYTES_PER_RECORD as u128) * 8 <= D_LIMIT as u128) {
            return Err(RespireError::Params);
        }
        if !(4 * (p.P as u128) <= p.Q3 as u128) {
            return Err(RespireError::Params);
        }
        // gadgets
        if !(1 <= p.T_GSW && p.T_GSW <= 64 && 1 <= p.T_PROJ_SHORT && p.T_PROJ_SHORT <= 64 && 1
            <= p.T_PROJ_LONG && p.T_PROJ_LONG <= 64 && 1 <= p.T_RLWE_TO_GSW && p.T_RLWE_TO_GSW
            <= 64 && 1 <= p.T_VECTORIZE && p.T_VECTORIZE <= 64 && 1 <= p.T_COMPRESS
            && p.T_COMPRESS <= 64) {
            return Err(RespireError::Params);
        }
        if !(p.M_GSW == 2 * p.T_GSW && p.M_RLWE_TO_GSW == 2 * p.T_RLWE_TO_GSW) {
            return Err(RespireError::Params);
        }
        if !(2 <= p.Z_GSW && p.Z_GSW <= p.Q1 && pow_at_least(p.Z_GSW, p.T_GSW, p.Q1)) {
            return Err(RespireError::Params);
        }
        if !(2 <= p.Z_PROJ_SHORT && p.Z_PROJ_SHORT <= p.Q1 && pow_at_least(
            p.Z_PROJ_SHORT,
            p.T_PROJ_SHORT,
            p.Q1,
        )) {
            return Err(RespireError::Params);
        }
        if !(2 <= p.Z_PROJ_LONG && p.Z_PROJ_LONG <= p.Q1 && pow_at_least(
            p.Z_PROJ_LONG,
            p.T_PROJ_LONG,
            p.Q1,
        )) {
            return Err(RespireError::Params);
        }
        if !(2 <= p.Z_RLWE_TO_GSW && p.Z_RLWE_TO_GSW <= p.Q1 && pow_at_least(
            p.Z_RLWE_TO_GSW,
            p.T_RLWE_TO_GSW,
            p.Q1,
        )) {
            return Err(RespireError::Params);
        }
        if !(2 <= p.Z_VECTORIZE && p.Z_VECTORIZE <= p.Q1 && pow_at_least(
            p.Z_VECTORIZE,
            p.T_VECTORIZE,
            p.Q1,
        )) {
            return Err(RespireError::Params);
        }
        if !(p.Z_COMPRESS == 2 && pow_at_least(2, p.T_COMPRESS, p.Q2)) {
            return Err(RespireError::Params);
        }
        // database shape
        if !(p.NU1 <= 16 && p.NU2 <= 16) {
            return Err(RespireError::Params);
        }
        proof {
            vstd::arithmetic::power2::lemma2_to64();
            if p.NU1 < 16 {
                vstd::arithmetic::power2::lemma_pow2_strictly_increases(p.NU1 as nat, 16);
            }
            if p.NU2 < 16 {
                vstd::arithmetic::power2::lemma_pow2_strictly_increases(p.NU2 as nat, 16);
            }
        }
        let dim1 = pow2_u64(p.NU1 as u64) as usize;
        let dim2 = pow2_u64(p.NU2 as u64) as usize;
        if !(dim1 <= p.D1) {
            return Err(RespireError::Params);
        }
        if !(1 <= p.N_VEC && p.N_VEC <= 1024 && 1 <= p.BATCH_SIZE && p.BATCH_SIZE <= 0xFFFF) {
            return Err(RespireError::Params);
        }
        // secrets and noise
        if !(1 <= p.SECRET_BOUND && 2 * (p.SECRET_BOUND as u128) < p.Q1 as u128) {
            return Err(RespireError::Params);
        }
        if !(p.ERROR_WIDTH_MILLIONTHS < 0x1_0000_0000 && p.ERROR_WIDTH_VEC_MILLIONTHS
            < 0x1_0000_0000 && p.ERROR_WIDTH_COMPRESS_MILLIONTHS < 0x1_0000_0000
            && p.SECRET_WIDTH_COMPRESS_MILLIONTHS < 0x1_0000_0000
            && p.SECRET_WIDTH_VEC_MILLIONTHS < 0x1_0000_0000) {
            return Err(RespireError::Params);
        }
        proof {
            assert(pow2(pb as nat) == p.P && group_width_ok(pb as int) && p.BYTES_PER_RECORD * 8
                == p.D3 * (pb as nat) && p.BYTES_PER_RECORD >= 1);
        }
        // derived counts
        let pack_db = p.D1 / p.D3;
        let pack_resp = p.D2 / p.D3;
        proof {
            lemma_pow2_ratio(p.D1 as nat, p.D3 as nat);
            lemma_pow2_ratio(p.D2 as nat, p.D3 as nat);
            if pack_db == 0 {
                assert(pack_db * p.D3 == 0) by (nonlinear_arith)
                    requires
                        pack_db == 0,
                ;
                assert(false);
            }
            if pack_resp == 0 {
                assert(pack_resp * p.D3 == 0) by (nonlinear_arith)
                    requires
                        pack_resp == 0,
                ;
                assert(false);
            }
        }
        let nu3 = ceil_log2(pack_db as u64) as usize;
        proof {
            let e = choose|e: nat| pack_db == pow2(e);
            if nu3 < e {
                vstd::arithmetic::power2::lemma_pow2_strictly_increases(nu3 as nat, e);
            }
            if nu3 > e {
                vstd::arithmetic::power2::lemma_pow2_strictly_increases(e, nu3 as nat);
                assert(pow2((nu3 - 1) as nat) < pack_db);
                if e < nu3 - 1 {
                    vstd::arithmetic::power2::lemma_pow2_strictly_increases(e, (nu3 - 1) as nat);
                }
            }
            assert(pow2(nu3 as nat) == pack_db);
            if nu3 > 16 {
                vstd::arithmetic::power2::lemma_pow2_strictly_increases(17, nu3 as nat);
                vstd::arithmetic::power2::lemma2_to64();
                assert(false);
            }
            vstd::arithmetic::mul::lemma_mul_upper_bound(dim1 as int, 0x1_0000, dim2 as int,
                0x1_0000);
            vstd::arithmetic::mul::lemma_mul_upper_bound(dim1 * dim2, 0x1_0000_0000,
                pack_db as int, 0x1_0000);
            vstd::arithmetic::mul::lemma_mul_upper_bound((p.NU2 + nu3) as int, 32,
                p.T_GSW as int, 64);
        }
        proof {
            vstd::arithmetic::power2::lemma_pow2(nu3 as nat);
            vstd::arithmetic::logarithm::lemma_log_pow(2, nu3 as nat);
            assert(vstd::arithmetic::logarithm::log(2, p.D1 as int / p.D3 as int) == nu3);
        }
        proof {
            assert((dim1 as int) * (dim2 as int) >= 1 && (dim1 as int) * (dim2 as int) * (
            pack_db as int) >= 1) by (nonlinear_arith)
                requires
                    dim1 >= 1,
                    dim2 >= 1,
                    pack_db >= 1,
            ;
        }
        let np_wide: u64 = (dim1 as u64) * (dim2 as u64) * (pack_db as u64);
        let gsw_count = (p.NU2 + nu3) * p.T_GSW;
        if !(np_wide >= 1 && np_wide <= 0x4000_0000 && (dim1 as u64) * (dim2 as u64)
            <= 0x4000_0000) {
            return Err(RespireError::Params);
        }
        if !(1 <= gsw_count && gsw_count <= p.D1) {
            return Err(RespireError::Params);
        }
        let k_err = cbd_param_from_width(p.ERROR_WIDTH_MILLIONTHS) as usize;
        let k_vec = cbd_param_from_width(p.ERROR_WIDTH_VEC_MILLIONTHS) as usize;
        let k_comp = cbd_param_from_width(p.ERROR_WIDTH_COMPRESS_MILLIONTHS) as usize;
        let k_sec_comp = cbd_param_from_width(p.SECRET_WIDTH_COMPRESS_MILLIONTHS) as usize;
        let k_sec_vec = cbd_param_from_width(p.SECRET_WIDTH_VEC_MILLIONTHS) as usize;
        proof {
            vstd::arithmetic::mul::lemma_mul_upper_bound(k_sec_vec as int, 0x4000_0000,
                p.D1 as int, 0x1_0000);
            vstd::arithmetic::mul::lemma_mul_upper_bound(k_err as int, 0x4000_0000, p.D1 as int,
                0x1_0000);
            vstd::arithmetic::mul::lemma_mul_upper_bound(k_vec as int, 0x4000_0000, p.D1 as int,
                0x1_0000);
            vstd::arithmetic::mul::lemma_mul_upper_bound(k_comp as int, 0x4000_0000, p.D1 as int,
                0x1_0000);
            vstd::arithmetic::mul::lemma_mul_upper_bound(k_sec_comp as int, 0x4000_0000,
                p.D1 as int, 0x1_0000);
        }
        if !(k_err <= 0x20_0000 && (k_err as u64) * (p.D1 as u64) <= 0x7FFF_FFFF && (2 * k_err as u64) < p.Q1) {
            return Err(RespireError::Params);
        }
        if !(k_vec <= 0x20_0000 && (k_vec as u64) * (p.D1 as u64) <= 0x7FFF_FFFF && (2 * k_vec as u64) < p.Q1) {
            return Err(RespireError::Params);
        }
        if !(k_comp <= 0x20_0000 && (k_comp as u64) * (p.D1 as u64) <= 0x7FFF_FFFF && (2 * k_comp as u64) < p.Q2) {
            return Err(RespireError::Params);
        }
        if !(k_sec_comp <= 0x20_0000 && (k_sec_comp as u64) * (p.D1 as u64) <= 0x7FFF_FFFF && (2
            * k_sec_comp as u64) < p.Q2) {
            return Err(RespireError::Params);
        }
        if !(k_sec_vec <= 0x20_0000 && (k_sec_vec as u64) * (p.D1 as u64) <= 0x7FFF_FFFF && (2
            * k_sec_vec as u64) < p.Q1) {
            return Err(RespireError::Params);
        }
        let ld1 = floor_log2(p.D1 as u64) as usize;
        proof {
            let e = choose|e: nat| p.D1 == pow2(e);
            if e > ld1 + 1 {
                vstd::arithmetic::power2::lemma_pow2_strictly_increases((ld1 + 1) as nat, e);
            }
            if (ld1 as nat) > e {
                vstd::arithmetic::power2::lemma_pow2_strictly_increases(e, ld1 as nat);
            }
            assert(p.D1 == pow2(ld1 as nat));
            if ld1 > 16 {
                vstd::arithmetic::power2::lemma_pow2_strictly_increases(17, ld1 as nat);
                vstd::arithmetic::power2::lemma2_to64();
                assert(false);
            }
            if p.NU1 > ld1 {
                vstd::arithmetic::power2::lemma_pow2_strictly_increases(ld1 as nat, p.NU1 as nat);
                assert(false);
            }
        }
        proof {
            assert(params_ok(params));
        }
        Ok(
            RespireImpl {
                params,
                dim1,
                dim2,
                pack_db,
                pack_resp,
                nu3,
                num_records: np_wide as usize,
                gsw_count,
                pb,
                k_err,
                k_vec,
                k_comp,
                k_sec_comp,
                k_sec_vec,
                ld1,
            },
        )
    }
}

/// The client's secrets: the scalar encoding secret over `R_Q1`, the
/// vector secret (one ring element per coordinate), and the small
/// compression secret over `R_{Q2,D2}`.
pub struct RespireQueryKey {
    pub s_enc: Poly,
    pub s_vec: Vec<Poly>,
    pub s_small: Vec<Poly>,
}

impl RespireQueryKey {
    /// Shapes and moduli match the instance.
    pub open spec fn wf_for(&self, ri: &RespireImpl) -> bool {
        &&& self.s_enc.wf() && self.s_enc.q == ri.params.Q1 && self.s_enc@.len() == ri.params.D1
        &&& self.s_vec@.len() == ri.params.N_VEC
        &&& forall|i: int|
            0 <= i < self.s_vec@.len() ==> (#[trigger] self.s_vec@[i]).wf() && self.s_vec@[i].q
                == ri.params.Q1 && self.s_vec@[i]@.len() == ri.params.D1
        &&& self.s_small@.len() == ri.params.N_VEC
        &&& forall|i: int|
            0 <= i < self.s_small@.len() ==> (#[trigger] self.s_small@[i]).wf()
                && self.s_small@[i].q == ri.params.Q2 && self.s_small@[i]@.len() == ri.params.D2
    }
}

/// The modulus-compression key over `R_{Q2,D1}`: the shared mask row and
/// one key-switch row per vector coordinate.
pub struct CompressKey {
    pub a_t: Vec<Poly>,
    pub b: Vec<Vec<Poly>>,
}

impl CompressKey {
    /// Shapes and moduli match the instance.
    pub open spec fn wf_for(&self, ri: &RespireImpl) -> bool {
        &&& self.a_t@.len() == ri.params.T_COMPRESS
        &&& forall|j: int|
            0 <= j < self.a_t@.len() ==> (#[trigger] self.a_t@[j]).wf() && self.a_t@[j].q
                == ri.params.Q2 && self.a_t@[j]@.len() == ri.params.D1
        &&& self.b@.len() == ri.params.N_VEC
        &&& forall|i: int|
            0 <= i < self.b@.len() ==> (#[trigger] self.b@[i])@.len() == ri.params.T_COMPRESS
        &&& forall|i: int, j: int|
            0 <= i < self.b@.len() && 0 <= j < self.b@[i]@.len() ==> (
            #[trigger] self.b@[i]@[j]).wf() && self.b@[i]@[j].q == ri.params.Q2
                && self.b@[i]@[j]@.len() == ri.params.D1
    }
}

/// One scalar-to-vector key-switch entry (for one target coordinate):
/// the mask row and the `N_VEC` body rows, over `R_{Q1,D1}`.
pub struct VectorizeKey {
    pub a_t: Vec<Poly>,
    pub b: Vec<Vec<Poly>>,
}

impl VectorizeKey {
    /// Shapes and moduli match the instance.
    pub open spec fn wf_for(&self, ri: &RespireImpl) -> bool {
        &&& self.a_t@.len() == ri.params.T_VECTORIZE
        &&& forall|j: int|
            0 <= j < self.a_t@.len() ==> (#[trigger] self.a_t@[j]).wf() && self.a_t@[j].q
                == ri.params.Q1 && self.a_t@[j]@.len() == ri.params.D1
        &&& self.b@.len() == ri.params.N_VEC
        &&& forall|i: int|
            0 <= i < self.b@.len() ==> (#[trigger] self.b@[i])@.len() == ri.params.T_VECTORIZE
        &&& forall|i: int, j: int|
            0 <= i < self.b@.len() && 0 <= j < self.b@[i]@.len() ==> (
            #[trigger] self.b@[i]@[j]).wf() && self.b@[i]@[j].q == ri.params.Q1
                && self.b@[i]@[j]@.len() == ri.params.D1
    }
}

/// The server's public material: automorphism keys for the two expansion
/// paths, the RLWE-to-GSW key, the compression key, and the
/// scalar-to-vector keys.
pub struct RespirePublicParams {
    pub auto_keys_short: Vec<crate::keys::AutoKey>,
    pub auto_keys_long: Vec<crate::keys::AutoKey>,
    pub conv_key: crate::keys::RlweToGswKey,
    pub compress_key: CompressKey,
    pub vec_keys: Vec<VectorizeKey>,
}

impl RespirePublicParams {
    /// Shapes and moduli match the instance; automorphism key `i` carries
    /// the power `D1 / 2^i + 1`.
    pub open spec fn wf_for(&self, ri: &RespireImpl) -> bool {
        &&& self.auto_keys_short@.len() == vstd::arithmetic::logarithm::log(
            2,
            ri.params.D1 as int,
        )
        &&& forall|i: int|
            0 <= i < self.auto_keys_short@.len() ==> (#[trigger] self.auto_keys_short@[i]).wf_for(
                ri.params.D1 as nat,
                ri.params.Q1,
                ri.params.T_PROJ_SHORT as nat,
            )
        &&& self.auto_keys_long@.len() == self.auto_keys_short@.len()
        &&& forall|i: int|
            0 <= i < self.auto_keys_long@.len() ==> (#[trigger] self.auto_keys_long@[i]).wf_for(
                ri.params.D1 as nat,
                ri.params.Q1,
                ri.params.T_PROJ_LONG as nat,
            )
        &&& self.conv_key.wf_for(
            ri.params.D1 as nat,
            ri.params.Q1,
            ri.params.T_RLWE_TO_GSW as nat,
        )
        &&& self.compress_key.wf_for(ri)
        &&& self.vec_keys@.len() == ri.params.N_VEC
        &&& forall|i: int|
            0 <= i < self.vec_keys@.len() ==> (#[trigger] self.vec_keys@[i]).wf_for(ri)
    }
}

/// A coefficient sequence with each centered representative reduced mod
/// `q2`: values above `q1/2` are treated as negative.
pub open spec fn spec_centered_seq(p: Seq<u64>, q1: u64, q2: u64) -> Seq<u64> {
    Seq::new(
        p.len(),
        |i: int|
            if p[i] <= q1 / 2 {
                ((p[i] as int % (q2 as int)) as u64)
            } else {
                (((0 - ((q1 - p[i]) % (q2 as int))) % (q2 as int)) as u64)
            },
    )
}

/// Reduces each coefficient's centered representative mod `q2`: values
/// above `q/2` are treated as negative.
pub fn reduce_centered(p: &Poly, q2: u64) -> (r: Poly)
    requires
        p.wf(),
        2 <= q2 < Q_LIMIT,
    ensures
        r.wf(),
        r.q == q2,
        r@.len() == p@.len(),
        r@ == spec_centered_seq(p@, p.q, q2),
{
    let d = p.coeffs.len();
    let q = p.q;
    let mut v: Vec<u64> = Vec::new();
    let mut i: usize = 0;
    while i < d
        invariant
            i <= d,
            p.wf(),
            q == p.q,
            2 <= q2 < Q_LIMIT,
            d == p@.len(),
            v@.len() == i,
            forall|j: int| 0 <= j < i ==> v@[j] < q2,
            forall|j: int| 0 <= j < i ==> v@[j] == spec_centered_seq(p@, q, q2)[j],
        decreases d - i,
    {
        let c = p.coeffs[i];
        let r = if c <= q / 2 {
            crate::arith::reduce_mod(c, q2)
        } else {
            let m = crate::arith::reduce_mod(q - c, q2);
            crate::arith::neg_mod(m, q2)
        };
        v.push(r);
        i = i + 1;
    }
    let r = Poly::from_coeffs(q2, v);
    proof {
        assert(r@ =~= spec_centered_seq(p@, q, q2));
    }
    r
}

/// The views of a vector of ring elements.
pub open spec fn poly_views(v: Seq<Poly>) -> Seq<Seq<u64>> {
    Seq::new(v.len(), |i: int| v[i]@)
}

/// The embedding of a short coefficient sequence into dimension `big` by
/// `X -> X^(big/len)`: source values at the stride positions, zero
/// elsewhere.
pub open spec fn spec_embed_seq(p: Seq<u64>, big: int) -> Seq<u64> {
    Seq::new(
        big as nat,
        |x: int|
            if x % (big / p.len() as int) == 0 {
                p[x / (big / p.len() as int)]
            } else {
                0u64
            },
    )
}

/// Embeds a `d_small`-dimension ring element into dimension `d_big` by
/// the inclusion `X -> X^(d_big/d_small)`.
pub fn embed_stride(p: &Poly, d_big: usize) -> (r: Poly)
    requires
        p.wf(),
        p@.len() <= d_big <= D_LIMIT,
        exists|e: nat| p@.len() == pow2(e),
        exists|e: nat| d_big == pow2(e),
    ensures
        r.wf(),
        r.q == p.q,
        r@.len() == d_big,
        forall|i: int|
            0 <= i < p@.len() ==> r@[i * (d_big as int / p@.len() as int)] == p@[i],
        forall|i: int|
            0 <= i < d_big && i % (d_big as int / p@.len() as int) != 0 ==> (#[trigger] r@[i])
                == 0u64,
        r@ == spec_embed_seq(p@, d_big as int),
{
    let d = p.coeffs.len();
    proof {
        lemma_pow2_ratio(d_big as nat, d as nat);
    }
    let stride = d_big / d;
    let mut r = Poly::zero(d_big, p.q);
    let mut i: usize = 0;
    proof {
        if stride == 0 {
            assert(stride * d == 0) by (nonlinear_arith)
                requires
                    stride == 0,
            ;
            assert(false);
        }
    }
    while i < d
        invariant
            i <= d,
            p.wf(),
            d == p@.len(),
            1 <= stride,
            stride * d == d_big,
            r.q == p.q,
            r@.len() == d_big,
            forall|j: int| 0 <= j < d_big ==> r@[j] < p.q,
            forall|j: int| 0 <= j < i ==> r@[j * (stride as int)] == p@[j],
            forall|j: int|
                0 <= j < d_big && j % (stride as int) != 0 ==> (#[trigger] r@[j]) == 0u64,
        decreases d - i,
    {
        proof {
            assert((i + 1) * stride <= d * stride && i * stride >= 0 && (i as int) * (
            stride as int) < (i + 1) * (stride as int)) by (nonlinear_arith)
                requires
                    i < d,
                    1 <= stride,
            ;
            vstd::arithmetic::mul::lemma_mul_is_commutative(d as int, stride as int);
            assert forall|j: int| 0 <= j < i implies #[trigger] (j * (stride as int)) != (
            i as int) * (stride as int) by {
                assert(j * (stride as int) < (i as int) * (stride as int)) by (nonlinear_arith)
                    requires
                        j < i,
                        stride >= 1,
                ;
            }
        }
        let ghost prev = r@;
        r.coeffs.set(i * stride, p.coeffs[i]);
        proof {
            assert(r@ == prev.update((i * stride) as int, p@[i as int]));
            assert(((i * stride) as int) % (stride as int) == 0) by (nonlinear_arith)
                requires
                    stride >= 1,
                    0 <= i,
            ;
            assert forall|j: int| 0 <= j < i + 1 implies r@[j * (stride as int)] == p@[j] by {
                if j < i {
                    assert(0 <= j * (stride as int) && j * (stride as int) < (i as int) * (
                    stride as int)) by (nonlinear_arith)
                        requires
                            0 <= j < i,
                            stride >= 1,
                    ;
                }
            }
        }
        i = i + 1;
    }
    proof {
        assert(coeffs_ok(r@, r.q));
        assert forall|x: int| 0 <= x < d_big implies r@[x] == spec_embed_seq(p@, d_big as int)[x]
            by {
            if x % (stride as int) == 0 {
                let sidx = x / (stride as int);
                vstd::arithmetic::div_mod::lemma_fundamental_div_mod(x, stride as int);
                assert(x == (stride as int) * sidx);
                assert(0 <= sidx < d) by (nonlinear_arith)
                    requires
                        x == (stride as int) * sidx,
                        0 <= x < d_big,
                        stride >= 1,
                        (stride as int) * (d as int) == d_big,
                ;
                assert(sidx * (stride as int) == (stride as int) * sidx) by (nonlinear_arith);
            }
        }
        assert(r@ =~= spec_embed_seq(p@, d_big as int));
    }
    r
}

/// Keeps every `(d_big/d_small)`-th coefficient: the left inverse of
/// `embed_stride` on the kept positions.
pub fn project_stride(p: &Poly, d_small: usize) -> (r: Poly)
    requires
        p.wf(),
        1 <= d_small <= p@.len(),
        exists|e: nat| p@.len() == pow2(e),
        exists|e: nat| d_small == pow2(e),
    ensures
        r.wf(),
        r.q == p.q,
        r@.len() == d_small,
        forall|i: int|
            0 <= i < d_small ==> r@[i] == p@[i * (p@.len() as int / d_small as int)],
{
    let d = p.coeffs.len();
    proof {
        lemma_pow2_ratio(d as nat, d_small as nat);
    }
    let stride = d / d_small;
    proof {
        if stride == 0 {
            assert(stride * d_small == 0) by (nonlinear_arith)
                requires
                    stride == 0,
            ;
            assert(false);
        }
    }
    let mut v: Vec<u64> = Vec::new();
    let mut i: usize = 0;
    while i < d_small
        invariant
            i <= d_small,
            p.wf(),
            d == p@.len(),
            1 <= stride,
            stride * d_small == d,
            v@.len() == i,
            forall|j: int| 0 <= j < i ==> v@[j] == p@[j * (stride as int)] && v@[j] < p.q,
        decreases d_small - i,
    {
        proof {
            assert((i as int) * (stride as int) < (d_small as int) * (stride as int) && 0 <= (
            i as int) * (stride as int)) by (nonlinear_arith)
                requires
                    i < d_small,
                    1 <= stride,
            ;
            vstd::arithmetic::mul::lemma_mul_is_commutative(d_small as int, stride as int);
        }
        v.push(p.coeffs[i * stride]);
        i = i + 1;
    }
    Poly::from_coeffs(p.q, v)
}

/// A vector of uniform ring elements, element `i` derived from sub-seed
/// `i` of `master`.
pub fn uniform_polys(master: &Vec<u8>, count: usize, d: usize, q: u64) -> (r: Vec<Poly>)
    requires
        master@.len() == 32,
        count < 0x10_0000,
        2 <= q < Q_LIMIT,
        1 <= d <= D_LIMIT,
    ensures
        r@.len() == count,
        forall|i: int|
            0 <= i < count ==> (#[trigger] r@[i]).wf() && r@[i].q == q && r@[i]@.len() == d,
        forall|i: int|
            0 <= i < count ==> (#[trigger] r@[i]@) == crate::keys::spec_seeded_uniform(
                master@,
                i,
                d as int,
                q,
            ),
{
    let mut r: Vec<Poly> = Vec::new();
    let mut i: usize = 0;
    while i < count
        invariant
            i <= count < 0x10_0000,
            master@.len() == 32,
            2 <= q < Q_LIMIT,
            1 <= d <= D_LIMIT,
            r@.len() == i,
            forall|k: int|
                0 <= k < i ==> (#[trigger] r@[k]).wf() && r@[k].q == q && r@[k]@.len() == d,
            forall|k: int|
                0 <= k < i ==> (#[trigger] r@[k]@) == crate::keys::spec_seeded_uniform(
                    master@,
                    k,
                    d as int,
                    q,
                ),
        decreases count - i,
    {
        let sd = crate::keys::derive_seed(master, i);
        r.push(crate::rng::uniform_poly_from_seed(&sd, d, q));
        i = i + 1;
    }
    r
}

/// A vector of centered-binomial noise elements, element `i` derived from
/// sub-seed `i` of `master`; every coefficient is within `k` of zero.
pub fn noise_polys(master: &Vec<u8>, count: usize, d: usize, q: u64, k: usize) -> (r: Vec<Poly>)
    requires
        master@.len() == 32,
        count < 0x10_0000,
        2 <= q < Q_LIMIT,
        1 <= d <= D_LIMIT,
        k <= 0x20_0000,
        k * d <= 0x7FFF_FFFF,
        2 * k < q,
    ensures
        r@.len() == count,
        forall|i: int|
            0 <= i < count ==> (#[trigger] r@[i]).wf() && r@[i].q == q && r@[i]@.len() == d,
        forall|i: int|
            0 <= i < count ==> (#[trigger] r@[i]@) == crate::keys::spec_seeded_noise(
                master@,
                i,
                d as int,
                q,
                k as int,
            ),
        forall|i: int, c: int|
            0 <= i < count && 0 <= c < d ==> (#[trigger] r@[i]@[c]) <= k || r@[i]@[c] >= q - k,
{
    let mut r: Vec<Poly> = Vec::new();
    let mut i: usize = 0;
    while i < count
        invariant
            i <= count < 0x10_0000,
            master@.len() == 32,
            2 <= q < Q_LIMIT,
            1 <= d <= D_LIMIT,
            k <= 0x20_0000,
            k * d <= 0x7FFF_FFFF,
            2 * k < q,
            r@.len() == i,
            forall|kk: int|
                0 <= kk < i ==> (#[trigger] r@[kk]).wf() && r@[kk].q == q && r@[kk]@.len() == d,
            forall|kk: int|
                0 <= kk < i ==> (#[trigger] r@[kk]@) == crate::keys::spec_seeded_noise(
                    master@,
                    kk,
                    d as int,
                    q,
                    k as int,
                ),
            forall|kk: int, c: int|
                0 <= kk < i && 0 <= c < d ==> (#[trigger] r@[kk]@[c]) <= k || r@[kk]@[c] >= q - k,
        decreases count - i,
    {
        let sd = crate::keys::derive_seed(master, i);
        r.push(crate::rng::noise_poly_from_seed(&sd, d, q, k));
        i = i + 1;
    }
    r
}

impl RespireImpl {
    /// Everything `setup` derives from a master seed: the three secrets
    /// from sub-seeds 0-2, the short and long automorphism keys from
    /// chunks of sub-seeds 3 and 4 (key `i` with power `D1/2^i + 1`), the
    /// conversion key from sub-seed 5, the compression key from sub-seed
    /// 6 and the vectorization keys from chunks of sub-seed 7.
    #[verifier::opaque]
    pub open spec fn setup_matches(
        &self,
        seed: Seq<u8>,
        qk: RespireQueryKey,
        pp: RespirePublicParams,
    ) -> bool {
        let p = self.params;
        let d1 = p.D1 as int;
        &&& qk.s_enc@ == crate::rng::spec_bounded_poly(
            crate::rng::chacha_stream(crate::keys::derive_seed_spec(seed, 0), 8 * d1),
            d1,
            p.Q1,
            p.SECRET_BOUND,
        )
        &&& forall|i: int|
            0 <= i < p.N_VEC ==> (#[trigger] qk.s_vec@[i]@) == crate::keys::spec_seeded_noise(
                crate::keys::derive_seed_spec(seed, 1),
                i,
                d1,
                p.Q1,
                self.k_sec_vec as int,
            )
        &&& forall|i: int|
            0 <= i < p.N_VEC ==> (#[trigger] qk.s_small@[i]@) == crate::keys::spec_seeded_noise(
                crate::keys::derive_seed_spec(seed, 2),
                i,
                p.D2 as int,
                p.Q2,
                self.k_sec_comp as int,
            )
        &&& forall|i: int|
            0 <= i < self.ld1 ==> crate::keys::auto_key_matches(
                #[trigger] pp.auto_keys_short@[i],
                qk.s_enc@,
                p.Z_PROJ_SHORT,
                p.T_PROJ_SHORT as int,
                p.Q1,
                d1,
                pow2((self.ld1 - i) as nat) as int + 1,
                self.k_err as int,
                crate::keys::derive_seed_spec(crate::keys::derive_seed_spec(seed, 3), i),
            )
        &&& forall|i: int|
            0 <= i < self.ld1 ==> crate::keys::auto_key_matches(
                #[trigger] pp.auto_keys_long@[i],
                qk.s_enc@,
                p.Z_PROJ_LONG,
                p.T_PROJ_LONG as int,
                p.Q1,
                d1,
                pow2((self.ld1 - i) as nat) as int + 1,
                self.k_err as int,
                crate::keys::derive_seed_spec(crate::keys::derive_seed_spec(seed, 4), i),
            )
        &&& crate::keys::conv_key_matches(
            pp.conv_key,
            qk.s_enc@,
            p.Z_RLWE_TO_GSW,
            p.T_RLWE_TO_GSW as int,
            p.Q1,
            d1,
            self.k_err as int,
            crate::keys::derive_seed_spec(seed, 5),
        )
        &&& self.compress_key_matches(
            pp.compress_key,
            poly_views(qk.s_vec@),
            poly_views(qk.s_small@),
            crate::keys::derive_seed_spec(seed, 6),
        )
        &&& forall|i: int|
            0 <= i < p.N_VEC ==> self.vec_key_matches(
                #[trigger] pp.vec_keys@[i],
                i,
                qk.s_enc@,
                poly_views(qk.s_vec@),
                crate::keys::derive_seed_spec(crate::keys::derive_seed_spec(seed, 7), i),
            )
    }

    /// Generates the client's secrets and the server's public material
    /// deterministically from a 32-byte master seed.
    pub fn setup(&self, seed: &Vec<u8>) -> (r: (RespireQueryKey, RespirePublicParams))
        requires
            self.wf(),
            seed@.len() == 32,
        ensures
            r.0.wf_for(self),
            r.1.wf_for(self),
            self.setup_matches(seed@, r.0, r.1),
    {
        let p = &self.params;
        let d1 = p.D1;
        let q1 = p.Q1;
        // Secrets.
        let s_enc = crate::rng::bounded_poly_from_seed(
            &crate::keys::derive_seed(seed, 0),
            d1,
            q1,
            p.SECRET_BOUND,
        );
        let s_vec = noise_polys(&crate::keys::derive_seed(seed, 1), p.N_VEC, d1, q1,
            self.k_sec_vec);
        proof {
            assert(self.k_sec_comp * p.D2 <= self.k_sec_comp * p.D1) by (nonlinear_arith)
                requires
                    p.D2 <= p.D1,
                    self.k_sec_comp >= 0,
            ;
        }
        let s_small = noise_polys(&crate::keys::derive_seed(seed, 2), p.N_VEC, p.D2, p.Q2,
            self.k_sec_comp);
        // Automorphism keys for both expansion paths: key i has power
        // D1 / 2^i + 1.
        let mut auto_keys_short: Vec<crate::keys::AutoKey> = Vec::new();
        let mut auto_keys_long: Vec<crate::keys::AutoKey> = Vec::new();
        let sm_short = crate::keys::derive_seed(seed, 3);
        let sm_long = crate::keys::derive_seed(seed, 4);
        let mut i: usize = 0;
        while i < self.ld1
            invariant
                i <= self.ld1,
                self.wf(),
                p == self.params,
                d1 == p.D1,
                q1 == p.Q1,
                s_enc.wf(),
                s_enc.q == q1,
                s_enc@.len() == d1,
                sm_short@.len() == 32,
                sm_long@.len() == 32,
                sm_short@ == crate::keys::derive_seed_spec(seed@, 3),
                sm_long@ == crate::keys::derive_seed_spec(seed@, 4),
                auto_keys_short@.len() == i,
                auto_keys_long@.len() == i,
                forall|k: int|
                    0 <= k < i ==> (#[trigger] auto_keys_short@[k]).wf_for(
                        d1 as nat,
                        q1,
                        p.T_PROJ_SHORT as nat,
                    ),
                forall|k: int|
                    0 <= k < i ==> (#[trigger] auto_keys_long@[k]).wf_for(
                        d1 as nat,
                        q1,
                        p.T_PROJ_LONG as nat,
                    ),
                forall|k: int|
                    0 <= k < i ==> crate::keys::auto_key_matches(
                        #[trigger] auto_keys_short@[k],
                        s_enc@,
                        p.Z_PROJ_SHORT,
                        p.T_PROJ_SHORT as int,
                        q1,
                        d1 as int,
                        pow2((self.ld1 - k) as nat) as int + 1,
                        self.k_err as int,
                        crate::keys::derive_seed_spec(crate::keys::derive_seed_spec(seed@, 3), k),
                    ),
                forall|k: int|
                    0 <= k < i ==> crate::keys::auto_key_matches(
                        #[trigger] auto_keys_long@[k],
                        s_enc@,
                        p.Z_PROJ_LONG,
                        p.T_PROJ_LONG as int,
                        q1,
                        d1 as int,
                        pow2((self.ld1 - k) as nat) as int + 1,
                        self.k_err as int,
                        crate::keys::derive_seed_spec(crate::keys::derive_seed_spec(seed@, 4), k),
                    ),
            decreases self.ld1 - i,
        {
            let tau = self.tau_power(i);
            auto_keys_short.push(
                crate::keys::auto_setup(
                    tau,
                    &s_enc,
                    p.Z_PROJ_SHORT,
                    p.T_PROJ_SHORT,
                    self.k_err,
                    &crate::keys::derive_seed(&sm_short, i),
                ),
            );
            auto_keys_long.push(
                crate::keys::auto_setup(
                    tau,
                    &s_enc,
                    p.Z_PROJ_LONG,
                    p.T_PROJ_LONG,
                    self.k_err,
                    &crate::keys::derive_seed(&sm_long, i),
                ),
            );
            i = i + 1;
        }
        // RLWE-to-GSW conversion key.
        let conv_key = crate::keys::rlwe_to_gsw_setup(
            &s_enc,
            p.Z_RLWE_TO_GSW,
            p.T_RLWE_TO_GSW,
            self.k_err,
            &crate::keys::derive_seed(seed, 5),
        );
        // Compression key over R_{Q2,D1}: switches from the vector secret
        // (centered mod Q2) to the embedded small secret.
        let compress_key = self.compress_setup(&s_vec, &s_small, &crate::keys::derive_seed(
            seed,
            6,
        ));
        // Scalar-to-vector keys.
        let vec_keys = self.vectorize_setup(&s_enc, &s_vec, &crate::keys::derive_seed(seed, 7));
        let qk = RespireQueryKey { s_enc, s_vec, s_small };
        let pp = RespirePublicParams {
            auto_keys_short,
            auto_keys_long,
            conv_key,
            compress_key,
            vec_keys,
        };
        proof {
            vstd::arithmetic::power2::lemma_pow2(self.ld1 as nat);
            vstd::arithmetic::logarithm::lemma_log_pow(2, self.ld1 as nat);
            reveal(RespireImpl::setup_matches);
            assert(self.setup_matches(seed@, qk, pp));
        }
        (qk, pp)
    }

    /// The compression key built from `seed`: the mask row from sub-seeds
    /// of chunk 0, noises from chunk 1; row `i`, column `j` is
    /// `s_to[i]*a_j + e_ij - 2^j*s_from[i]` with `s_from[i]` the vector
    /// secret reduced centered mod `Q2` and `s_to[i]` the small secret
    /// embedded into dimension `D1`.
    pub open spec fn compress_key_matches(
        &self,
        ck: CompressKey,
        s_vecv: Seq<Seq<u64>>,
        s_smallv: Seq<Seq<u64>>,
        seed: Seq<u8>,
    ) -> bool {
        let q2 = self.params.Q2;
        let d1 = self.params.D1 as int;
        let t = self.params.T_COMPRESS as int;
        &&& ck.a_t@.len() == t
        &&& forall|j: int|
            0 <= j < t ==> (#[trigger] ck.a_t@[j]@) == crate::keys::spec_seeded_uniform(
                crate::keys::derive_seed_spec(seed, 0),
                j,
                d1,
                q2,
            )
        &&& ck.b@.len() == self.params.N_VEC
        &&& forall|i: int, j: int|
            0 <= i < self.params.N_VEC && 0 <= j < t ==> ({
                let a = crate::keys::spec_seeded_uniform(
                    crate::keys::derive_seed_spec(seed, 0),
                    j,
                    d1,
                    q2,
                );
                let e = crate::keys::spec_seeded_noise(
                    crate::keys::derive_seed_spec(seed, 1),
                    i * t + j,
                    d1,
                    q2,
                    self.k_comp as int,
                );
                let s_to = spec_embed_seq(s_smallv[i], d1);
                let s_from = spec_centered_seq(s_vecv[i], self.params.Q1, q2);
                (#[trigger] ck.b@[i]@[j]@) == crate::ring::spec_poly_sub(
                    crate::ring::spec_poly_add(
                        crate::ring::spec_poly_mul(s_to, a, q2),
                        e,
                        q2,
                    ),
                    crate::ring::spec_poly_scale(
                        s_from,
                        (pow(2, j as nat) % (q2 as int)) as u64,
                        q2,
                    ),
                    q2,
                )
            })
    }

    /// Builds the modulus-compression key over `R_{Q2,D1}`: row `i`,
    /// column `j` is `s_to[i]*a_j + e_ij - 2^j * s_from[i]`, where
    /// `s_from` is the vector secret reduced centered mod `Q2` and `s_to`
    /// the small secret embedded into dimension `D1`.
    pub fn compress_setup(&self, s_vec: &Vec<Poly>, s_small: &Vec<Poly>, seed: &Vec<u8>) -> (r:
        CompressKey)
        requires
            self.wf(),
            seed@.len() == 32,
            s_vec@.len() == self.params.N_VEC,
            forall|i: int|
                0 <= i < s_vec@.len() ==> (#[trigger] s_vec@[i]).wf() && s_vec@[i].q
                    == self.params.Q1 && s_vec@[i]@.len() == self.params.D1,
            s_small@.len() == self.params.N_VEC,
            forall|i: int|
                0 <= i < s_small@.len() ==> (#[trigger] s_small@[i]).wf() && s_small@[i].q
                    == self.params.Q2 && s_small@[i]@.len() == self.params.D2,
        ensures
            r.wf_for(self),
            self.compress_key_matches(r, poly_views(s_vec@), poly_views(s_small@), seed@),
    {
        let p = &self.params;
        let d1 = p.D1;
        let q2 = p.Q2;
        let t = p.T_COMPRESS;
        let zpows = crate::keys::powers_mod(2, t, q2);
        let a_t = uniform_polys(&crate::keys::derive_seed(seed, 0), t, d1, q2);
        let e_master = crate::keys::derive_seed(seed, 1);
        let mut b: Vec<Vec<Poly>> = Vec::new();
        let mut i: usize = 0;
        while i < p.N_VEC
            invariant
                i <= p.N_VEC,
                self.wf(),
                p == self.params,
                d1 == p.D1,
                q2 == p.Q2,
                t == p.T_COMPRESS,
                e_master@.len() == 32,
                e_master@ == crate::keys::derive_seed_spec(seed@, 1),
                zpows@.len() == t,
                forall|j: int| 0 <= j < t ==> zpows@[j] < q2,
                forall|j: int| 0 <= j < t ==> zpows@[j] == pow(2, j as nat) % (q2 as int),
                a_t@.len() == t,
                forall|j: int|
                    0 <= j < t ==> (#[trigger] a_t@[j]).wf() && a_t@[j].q == q2 && a_t@[j]@.len()
                        == d1,
                forall|j: int|
                    0 <= j < t ==> (#[trigger] a_t@[j]@) == crate::keys::spec_seeded_uniform(
                        crate::keys::derive_seed_spec(seed@, 0),
                        j,
                        d1 as int,
                        q2,
                    ),
                s_vec@.len() == p.N_VEC,
                forall|k: int|
                    0 <= k < s_vec@.len() ==> (#[trigger] s_vec@[k]).wf() && s_vec@[k].q == p.Q1
                        && s_vec@[k]@.len() == d1,
                s_small@.len() == p.N_VEC,
                forall|k: int|
                    0 <= k < s_small@.len() ==> (#[trigger] s_small@[k]).wf() && s_small@[k].q
                        == q2 && s_small@[k]@.len() == p.D2,
                b@.len() == i,
                forall|k: int| 0 <= k < i ==> (#[trigger] b@[k])@.len() == t,
                forall|k: int, j: int|
                    0 <= k < i && 0 <= j < t ==> (#[trigger] b@[k]@[j]).wf() && b@[k]@[j].q == q2
                        && b@[k]@[j]@.len() == d1,
                forall|k: int, j: int|
                    0 <= k < i && 0 <= j < t ==> (#[trigger] b@[k]@[j]@)
                        == crate::ring::spec_poly_sub(
                        crate::ring::spec_poly_add(
                            crate::ring::spec_poly_mul(
                                spec_embed_seq(s_small@[k]@, d1 as int),
                                crate::keys::spec_seeded_uniform(
                                    crate::keys::derive_seed_spec(seed@, 0),
                                    j,
                                    d1 as int,
                                    q2,
                                ),
                                q2,
                            ),
                            crate::keys::spec_seeded_noise(
                                crate::keys::derive_seed_spec(seed@, 1),
                                k * t + j,
                                d1 as int,
                                q2,
                                self.k_comp as int,
                            ),
                            q2,
                        ),
                        crate::ring::spec_poly_scale(
                            spec_centered_seq(s_vec@[k]@, p.Q1, q2),
                            (pow(2, j as nat) % (q2 as int)) as u64,
                            q2,
                        ),
                        q2,
                    ),
            decreases p.N_VEC - i,
        {
            let s_from = reduce_centered(&s_vec[i], q2);
            let s_to = embed_stride(&s_small[i], d1);
            let mut row: Vec<Poly> = Vec::new();
            let mut j: usize = 0;
            while j < t
                invariant
                    j <= t <= 64,
                    i < p.N_VEC <= 1024,
                    self.wf(),
                    p == self.params,
                    d1 == p.D1,
                    q2 == p.Q2,
                    t == p.T_COMPRESS,
                    e_master@.len() == 32,
                    zpows@.len() == t,
                    forall|k: int| 0 <= k < t ==> zpows@[k] < q2,
                    a_t@.len() == t,
                    forall|k: int|
                        0 <= k < t ==> (#[trigger] a_t@[k]).wf() && a_t@[k].q == q2
                            && a_t@[k]@.len() == d1,
                    s_from.wf(),
                    s_from.q == q2,
                    s_from@.len() == d1,
                    s_from@ == spec_centered_seq(s_vec@[i as int]@, p.Q1, q2),
                    s_to.wf(),
                    s_to.q == q2,
                    s_to@.len() == d1,
                    s_to@ == spec_embed_seq(s_small@[i as int]@, d1 as int),
                    e_master@.len() == 32,
                    e_master@ == crate::keys::derive_seed_spec(seed@, 1),
                    forall|k: int| 0 <= k < t ==> zpows@[k] == pow(2, k as nat) % (q2 as int),
                    forall|k: int|
                        0 <= k < t ==> (#[trigger] a_t@[k]@) == crate::keys::spec_seeded_uniform(
                            crate::keys::derive_seed_spec(seed@, 0),
                            k,
                            d1 as int,
                            q2,
                        ),
                    row@.len() == j,
                    forall|k: int|
                        0 <= k < j ==> (#[trigger] row@[k]).wf() && row@[k].q == q2
                            && row@[k]@.len() == d1,
                    forall|k: int|
                        0 <= k < j ==> (#[trigger] row@[k]@) == crate::ring::spec_poly_sub(
                            crate::ring::spec_poly_add(
                                crate::ring::spec_poly_mul(
                                    spec_embed_seq(s_small@[i as int]@, d1 as int),
                                    crate::keys::spec_seeded_uniform(
                                        crate::keys::derive_seed_spec(seed@, 0),
                                        k,
                                        d1 as int,
                                        q2,
                                    ),
                                    q2,
                                ),
                                crate::keys::spec_seeded_noise(
                                    crate::keys::derive_seed_spec(seed@, 1),
                                    i as int * t + k,
                                    d1 as int,
                                    q2,
                                    self.k_comp as int,
                                ),
                                q2,
                            ),
                            crate::ring::spec_poly_scale(
                                spec_centered_seq(s_vec@[i as int]@, p.Q1, q2),
                                (pow(2, k as nat) % (q2 as int)) as u64,
                                q2,
                            ),
                            q2,
                        ),
                decreases t - j,
            {
                proof {
                    assert(i * t + j < 0x10_0000) by (nonlinear_arith)
                        requires
                            i < 1024,
                            j < t <= 64,
                    ;
                    assert(self.k_comp * d1 <= 0x7FFF_FFFF);
                }
                let e = crate::rng::noise_poly_from_seed(
                    &crate::keys::derive_seed(&e_master, i * t + j),
                    d1,
                    q2,
                    self.k_comp,
                );
                proof {
                    assert(e@ == crate::keys::spec_seeded_noise(
                        crate::keys::derive_seed_spec(seed@, 1),
                        i as int * t + j,
                        d1 as int,
                        q2,
                        self.k_comp as int,
                    ));
                }
                let col = s_to.mul(&a_t[j]).add(&e).sub(&s_from.scale(zpows[j]));
                row.push(col);
                j = j + 1;
            }
            b.push(row);
            i = i + 1;
        }
        let r = CompressKey { a_t, b };
        proof {
            assert(self.compress_key_matches(r, poly_views(s_vec@), poly_views(s_small@), seed@));
        }
        r
    }

    /// Entry `i` of the scalar-to-vector key built from its entry seed:
    /// mask row from sub-seeds of chunk 0, noises from chunk 1; row `r`,
    /// column `j` is `s_vec[r]*a_j + e_rj`, minus `z^j*s_enc` on the
    /// target row `r == i`.
    pub open spec fn vec_key_matches(
        &self,
        vk: VectorizeKey,
        idx: int,
        s_encv: Seq<u64>,
        s_vecv: Seq<Seq<u64>>,
        entry_seed: Seq<u8>,
    ) -> bool {
        let q1 = self.params.Q1;
        let d1 = self.params.D1 as int;
        let t = self.params.T_VECTORIZE as int;
        let z = self.params.Z_VECTORIZE;
        &&& vk.a_t@.len() == t
        &&& forall|j: int|
            0 <= j < t ==> (#[trigger] vk.a_t@[j]@) == crate::keys::spec_seeded_uniform(
                crate::keys::derive_seed_spec(entry_seed, 0),
                j,
                d1,
                q1,
            )
        &&& vk.b@.len() == self.params.N_VEC
        &&& forall|rr: int, j: int|
            0 <= rr < self.params.N_VEC && 0 <= j < t ==> ({
                let a = crate::keys::spec_seeded_uniform(
                    crate::keys::derive_seed_spec(entry_seed, 0),
                    j,
                    d1,
                    q1,
                );
                let e = crate::keys::spec_seeded_noise(
                    crate::keys::derive_seed_spec(entry_seed, 1),
                    rr * t + j,
                    d1,
                    q1,
                    self.k_vec as int,
                );
                let base = crate::ring::spec_poly_add(
                    crate::ring::spec_poly_mul(s_vecv[rr], a, q1),
                    e,
                    q1,
                );
                (#[trigger] vk.b@[rr]@[j]@) == if rr == idx {
                    crate::ring::spec_poly_sub(
                        base,
                        crate::ring::spec_poly_scale(
                            s_encv,
                            (pow(z as int, j as nat) % (q1 as int)) as u64,
                            q1,
                        ),
                        q1,
                    )
                } else {
                    base
                }
            })
    }

    /// Builds the scalar-to-vector keys: entry `i` switches a scalar
    /// ciphertext into coordinate `i` of a vector ciphertext.  Row `r`,
    /// column `j` of entry `i` is `s_vec[r]*a_j + e_rj`, minus
    /// `z^j * s_enc` on the target row `r == i`.
    pub fn vectorize_setup(&self, s_enc: &Poly, s_vec: &Vec<Poly>, seed: &Vec<u8>) -> (r: Vec<
        VectorizeKey,
    >)
        requires
            self.wf(),
            seed@.len() == 32,
            s_enc.wf(),
            s_enc.q == self.params.Q1,
            s_enc@.len() == self.params.D1,
            s_vec@.len() == self.params.N_VEC,
            forall|i: int|
                0 <= i < s_vec@.len() ==> (#[trigger] s_vec@[i]).wf() && s_vec@[i].q
                    == self.params.Q1 && s_vec@[i]@.len() == self.params.D1,
        ensures
            r@.len() == self.params.N_VEC,
            forall|i: int| 0 <= i < r@.len() ==> (#[trigger] r@[i]).wf_for(self),
            forall|i: int|
                0 <= i < r@.len() ==> self.vec_key_matches(
                    #[trigger] r@[i],
                    i,
                    s_enc@,
                    poly_views(s_vec@),
                    crate::keys::derive_seed_spec(seed@, i),
                ),
    {
        let p = &self.params;
        let d1 = p.D1;
        let q1 = p.Q1;
        let t = p.T_VECTORIZE;
        let zpows = crate::keys::powers_mod(p.Z_VECTORIZE, t, q1);
        let mut out: Vec<VectorizeKey> = Vec::new();
        let mut i: usize = 0;
        while i < p.N_VEC
            invariant
                i <= p.N_VEC,
                self.wf(),
                p == self.params,
                d1 == p.D1,
                q1 == p.Q1,
                t == p.T_VECTORIZE,
                seed@.len() == 32,
                zpows@.len() == t,
                forall|k: int| 0 <= k < t ==> zpows@[k] < q1,
                forall|k: int|
                    0 <= k < t ==> zpows@[k] == pow(p.Z_VECTORIZE as int, k as nat) % (q1 as int),
                s_enc.wf(),
                s_enc.q == q1,
                s_enc@.len() == d1,
                s_vec@.len() == p.N_VEC,
                forall|k: int|
                    0 <= k < s_vec@.len() ==> (#[trigger] s_vec@[k]).wf() && s_vec@[k].q == q1
                        && s_vec@[k]@.len() == d1,
                out@.len() == i,
                forall|k: int| 0 <= k < i ==> (#[trigger] out@[k]).wf_for(self),
                forall|k: int|
                    0 <= k < i ==> self.vec_key_matches(
                        #[trigger] out@[k],
                        k,
                        s_enc@,
                        poly_views(s_vec@),
                        crate::keys::derive_seed_spec(seed@, k),
                    ),
            decreases p.N_VEC - i,
        {
            let entry_seed = crate::keys::derive_seed(seed, i);
            let a_t = uniform_polys(&crate::keys::derive_seed(&entry_seed, 0), t, d1, q1);
            let e_master = crate::keys::derive_seed(&entry_seed, 1);
            let mut b: Vec<Vec<Poly>> = Vec::new();
            let mut rr: usize = 0;
            while rr < p.N_VEC
                invariant
                    rr <= p.N_VEC,
                    i < p.N_VEC,
                    self.wf(),
                    p == self.params,
                    d1 == p.D1,
                    q1 == p.Q1,
                    t == p.T_VECTORIZE,
                    e_master@.len() == 32,
                    zpows@.len() == t,
                    forall|k: int| 0 <= k < t ==> zpows@[k] < q1,
                    a_t@.len() == t,
                    forall|k: int|
                        0 <= k < t ==> (#[trigger] a_t@[k]).wf() && a_t@[k].q == q1
                            && a_t@[k]@.len() == d1,
                    forall|k: int|
                        0 <= k < t ==> (#[trigger] a_t@[k]@) == crate::keys::spec_seeded_uniform(
                            crate::keys::derive_seed_spec(entry_seed@, 0),
                            k,
                            d1 as int,
                            q1,
                        ),
                    entry_seed@ == crate::keys::derive_seed_spec(seed@, i as int),
                    e_master@.len() == 32,
                    e_master@ == crate::keys::derive_seed_spec(entry_seed@, 1),
                    forall|k: int|
                        0 <= k < t ==> zpows@[k] == pow(p.Z_VECTORIZE as int, k as nat) % (
                        q1 as int),
                    s_enc.wf(),
                    s_enc.q == q1,
                    s_enc@.len() == d1,
                    s_vec@.len() == p.N_VEC,
                    forall|k: int|
                        0 <= k < s_vec@.len() ==> (#[trigger] s_vec@[k]).wf() && s_vec@[k].q == q1
                            && s_vec@[k]@.len() == d1,
                    b@.len() == rr,
                    forall|k: int| 0 <= k < rr ==> (#[trigger] b@[k])@.len() == t,
                    forall|k: int, j: int|
                        0 <= k < rr && 0 <= j < t ==> (#[trigger] b@[k]@[j]).wf() && b@[k]@[j].q
                            == q1 && b@[k]@[j]@.len() == d1,
                    forall|k: int, j: int|
                        0 <= k < rr && 0 <= j < t ==> ({
                            let a = crate::keys::spec_seeded_uniform(
                                crate::keys::derive_seed_spec(entry_seed@, 0),
                                j,
                                d1 as int,
                                q1,
                            );
                            let e = crate::keys::spec_seeded_noise(
                                crate::keys::derive_seed_spec(entry_seed@, 1),
                                k * t + j,
                                d1 as int,
                                q1,
                                self.k_vec as int,
                            );
                            let base = crate::ring::spec_poly_add(
                                crate::ring::spec_poly_mul(s_vec@[k]@, a, q1),
                                e,
                                q1,
                            );
                            (#[trigger] b@[k]@[j]@) == if k == i as int {
                                crate::ring::spec_poly_sub(
                                    base,
                                    crate::ring::spec_poly_scale(
                                        s_enc@,
                                        (pow(p.Z_VECTORIZE as int, j as nat) % (
                                        q1 as int)) as u64,
                                        q1,
                                    ),
                                    q1,
                                )
                            } else {
                                base
                            }
                        }),
                decreases p.N_VEC - rr,
            {
                let mut row: Vec<Poly> = Vec::new();
                let mut j: usize = 0;
                while j < t
                    invariant
                        j <= t <= 64,
                        rr < p.N_VEC <= 1024,
                        self.wf(),
                        p == self.params,
                        d1 == p.D1,
                        q1 == p.Q1,
                        t == p.T_VECTORIZE,
                        i < p.N_VEC,
                        e_master@.len() == 32,
                        zpows@.len() == t,
                        forall|k: int| 0 <= k < t ==> zpows@[k] < q1,
                        a_t@.len() == t,
                        forall|k: int|
                            0 <= k < t ==> (#[trigger] a_t@[k]).wf() && a_t@[k].q == q1
                                && a_t@[k]@.len() == d1,
                        s_enc.wf(),
                        s_enc.q == q1,
                        s_enc@.len() == d1,
                        s_vec@.len() == p.N_VEC,
                        forall|k: int|
                            0 <= k < s_vec@.len() ==> (#[trigger] s_vec@[k]).wf() && s_vec@[k].q
                                == q1 && s_vec@[k]@.len() == d1,
                        entry_seed@ == crate::keys::derive_seed_spec(seed@, i as int),
                        e_master@.len() == 32,
                        e_master@ == crate::keys::derive_seed_spec(entry_seed@, 1),
                        forall|k: int|
                            0 <= k < t ==> (#[trigger] a_t@[k]@)
                                == crate::keys::spec_seeded_uniform(
                                crate::keys::derive_seed_spec(entry_seed@, 0),
                                k,
                                d1 as int,
                                q1,
                            ),
                        forall|k: int|
                            0 <= k < t ==> zpows@[k] == pow(p.Z_VECTORIZE as int, k as nat) % (
                            q1 as int),
                        row@.len() == j,
                        forall|k: int|
                            0 <= k < j ==> (#[trigger] row@[k]).wf() && row@[k].q == q1
                                && row@[k]@.len() == d1,
                        forall|k: int|
                            0 <= k < j ==> ({
                                let a = crate::keys::spec_seeded_uniform(
                                    crate::keys::derive_seed_spec(entry_seed@, 0),
                                    k,
                                    d1 as int,
                                    q1,
                                );
                                let e = crate::keys::spec_seeded_noise(
                                    crate::keys::derive_seed_spec(entry_seed@, 1),
                                    rr as int * t + k,
                                    d1 as int,
                                    q1,
                                    self.k_vec as int,
                                );
                                let base = crate::ring::spec_poly_add(
                                    crate::ring::spec_poly_mul(s_vec@[rr as int]@, a, q1),
                                    e,
                                    q1,
                                );
                                (#[trigger] row@[k]@) == if rr as int == i as int {
                                    crate::ring::spec_poly_sub(
                                        base,
                                        crate::ring::spec_poly_scale(
                                            s_enc@,
                                            (pow(p.Z_VECTORIZE as int, k as nat) % (
                                            q1 as int)) as u64,
                                            q1,
                                        ),
                                        q1,
                                    )
                                } else {
                                    base
                                }
                            }),
                    decreases t - j,
                {
                    proof {
                        assert(rr * t + j < 0x10_0000) by (nonlinear_arith)
                            requires
                                rr < 1024,
                                j < t <= 64,
                        ;
                        assert(self.k_vec * d1 <= 0x7FFF_FFFF);
                    }
                    let e = crate::rng::noise_poly_from_seed(
                        &crate::keys::derive_seed(&e_master, rr * t + j),
                        d1,
                        q1,
                        self.k_vec,
                    );
                    proof {
                        assert(e@ == crate::keys::spec_seeded_noise(
                            crate::keys::derive_seed_spec(entry_seed@, 1),
                            rr as int * t + j,
                            d1 as int,
                            q1,
                            self.k_vec as int,
                        ));
                    }
                    let base = s_vec[rr].mul(&a_t[j]).add(&e);
                    let col = if rr == i {
                        base.sub(&s_enc.scale(zpows[j]))
                    } else {
                        base
                    };
                    row.push(col);
                    j = j + 1;
                }
                b.push(row);
                rr = rr + 1;
            }
            let vk = VectorizeKey { a_t, b };
            proof {
                assert(self.vec_key_matches(
                    vk,
                    i as int,
                    s_enc@,
                    poly_views(s_vec@),
                    crate::keys::derive_seed_spec(seed@, i as int),
                ));
            }
            out.push(vk);
            i = i + 1;
        }
        out
    }

    /// Generates secrets and public material from fresh operating-system
    /// entropy: whatever seed the system handed out, the result is the
    /// deterministic setup of that seed.
    pub fn setup_random(&self) -> (r: (RespireQueryKey, RespirePublicParams))
        requires
            self.wf(),
        ensures
            r.0.wf_for(self),
            r.1.wf_for(self),
            exists|sd: Seq<u8>| sd.len() == 32 && #[trigger] self.setup_matches(sd, r.0, r.1),
    {
        let seed = crate::rng::entropy_seed();
        let r = self.setup(&seed);
        proof {
            assert(seed@.len() == 32 && self.setup_matches(seed@, r.0, r.1));
        }
        r
    }

    /// The automorphism power of expansion iteration `i`: `D1 / 2^i + 1`,
    /// which is odd and below `2 * D1`.
    pub fn tau_power(&self, i: usize) -> (tau: usize)
        requires
            self.wf(),
            i < self.ld1,
        ensures
            tau % 2 == 1,
            1 < tau <= self.params.D1 + 1,
            tau < 2 * self.params.D1,
            tau == pow2((self.ld1 - i) as nat) + 1,
    {
        proof {
            vstd::arithmetic::power2::lemma_pow2_subtracts(i as nat, self.ld1 as nat);
            vstd::arithmetic::power2::lemma_pow2_pos(i as nat);
            vstd::arithmetic::power2::lemma_pow2_pos((self.ld1 - i) as nat);
            vstd::arithmetic::power2::lemma_pow2_strictly_increases(i as nat, self.ld1 as nat);
            lemma_pow2_ratio(self.params.D1 as nat, pow2(i as nat));
            vstd::arithmetic::power2::lemma_pow2_strictly_increases(0, (self.ld1 - i) as nat);
            // D1 / 2^i == 2^(ld1 - i) is even since ld1 - i >= 1
            vstd::arithmetic::power2::lemma_pow2_adds(1, (self.ld1 - i - 1) as nat);
            vstd::arithmetic::power2::lemma2_to64();
        }
        let twoi = pow2_u64(i as u64) as usize;
        let half = self.params.D1 / twoi;
        proof {
            let e = (self.ld1 - i) as nat;
            assert(half == pow2(e));
            assert(pow2(e) == 2 * pow2((e - 1) as nat));
            assert(half % 2 == 0);
            if half > self.params.D1 {
                vstd::arithmetic::power2::lemma_pow2_strictly_increases(self.ld1 as nat, e);
            }
        }
        half + 1
    }
}

/// Values placed at bit-reversed coefficient positions, one by one:
/// value `j` lands at coefficient `rev(j)` of a zero element.
pub open spec fn spec_scatter_rev(vals: Seq<u64>, d: nat, ld: nat, n: int) -> Seq<u64>
    decreases n,
{
    if n <= 0 {
        Seq::new(d, |i: int| 0u64)
    } else {
        spec_scatter_rev(vals, d, ld, n - 1).update(
            crate::arith::spec_rev_bits(n - 1, ld),
            vals[n - 1],
        )
    }
}

/// The encoded database: `dim1 * dim2` ring elements over `R_{Q1,D1}`,
/// stored with the first dimension innermost (`elems[j2 * dim1 + i1]`),
/// so the first-dimension inner product streams over `i1` at fixed `j2`.
/// Each element packs `pack_db` records interleaved by coefficient.
pub struct Database {
    pub elems: Vec<Poly>,
}

impl Database {
    /// Shape matches the instance.
    pub open spec fn wf_for(&self, ri: &RespireImpl) -> bool {
        &&& self.elems@.len() == ri.dim1 * ri.dim2
        &&& forall|i: int|
            0 <= i < self.elems@.len() ==> (#[trigger] self.elems@[i]).wf() && self.elems@[i].q
                == ri.params.Q1 && self.elems@[i]@.len() == ri.params.D1
    }
}

/// A single query: two seeded RLWE ciphertexts with their message halves
/// compressed to the coefficients the server actually uses (the
/// bit-reversed slots of the first `dim1` resp. `gsw_count` indices).
pub struct QueryOne {
    pub seed_rlwe: Vec<u8>,
    pub c1_rlwe: Vec<u64>,
    pub seed_gsw: Vec<u8>,
    pub c1_gsw: Vec<u64>,
}

impl QueryOne {
    /// Shape matches the instance.
    pub open spec fn wf_for(&self, ri: &RespireImpl) -> bool {
        &&& self.seed_rlwe@.len() == 32
        &&& self.seed_gsw@.len() == 32
        &&& self.c1_rlwe@.len() == ri.dim1
        &&& forall|i: int| 0 <= i < self.c1_rlwe@.len() ==> self.c1_rlwe@[i] < ri.params.Q1
        &&& self.c1_gsw@.len() == ri.gsw_count
        &&& forall|i: int| 0 <= i < self.c1_gsw@.len() ==> self.c1_gsw@[i] < ri.params.Q1
    }
}

/// A compressed answer: the mask half over `R_{Q2,D2}` and up to `N_VEC`
/// message rows over `R_{Q3,D2}`.
pub struct AnswerOneCompressed {
    pub cr: Poly,
    pub cm: Vec<Poly>,
}

impl AnswerOneCompressed {
    /// Shape matches the instance.
    pub open spec fn wf_for(&self, ri: &RespireImpl) -> bool {
        &&& self.cr.wf() && self.cr.q == ri.params.Q2 && self.cr@.len() == ri.params.D2
        &&& self.cm@.len() <= ri.params.N_VEC
        &&& forall|i: int|
            0 <= i < self.cm@.len() ==> (#[trigger] self.cm@[i]).wf() && self.cm@[i].q
                == ri.params.Q3 && self.cm@[i]@.len() == ri.params.D2
    }
}

/// The first `n` ciphertexts, copied.
pub fn take_prefix(v: &Vec<crate::rlwe::Rlwe>, n: usize) -> (r: Vec<crate::rlwe::Rlwe>)
    requires
        n <= v@.len(),
        forall|i: int| 0 <= i < v@.len() ==> (#[trigger] v@[i]).wf(),
    ensures
        r@.len() == n,
        forall|i: int|
            0 <= i < n ==> (#[trigger] r@[i]).wf() && r@[i].q() == v@[i].q() && r@[i].dim()
                == v@[i].dim() && r@[i].c0@ == v@[i].c0@ && r@[i].c1@ == v@[i].c1@,
{
    let mut r: Vec<crate::rlwe::Rlwe> = Vec::new();
    let mut i: usize = 0;
    while i < n
        invariant
            i <= n <= v@.len(),
            forall|k: int| 0 <= k < v@.len() ==> (#[trigger] v@[k]).wf(),
            r@.len() == i,
            forall|k: int|
                0 <= k < i ==> (#[trigger] r@[k]).wf() && r@[k].q() == v@[k].q() && r@[k].dim()
                    == v@[k].dim() && r@[k].c0@ == v@[k].c0@ && r@[k].c1@ == v@[k].c1@,
        decreases n - i,
    {
        r.push(v[i].duplicate());
        i = i + 1;
    }
    r
}

impl RespireImpl {
    /// Encodes the whole database.  Records are packed `pack_db` to a
    /// ring element (record `r` of a chunk at coefficients
    /// `r, r + pack_db, ...`), chunks are stored transposed so the
    /// first-dimension scan is contiguous.  Rejects exactly the inputs
    /// whose shape is wrong: record count or a record's byte length.
    pub fn encode_db(&self, records: &Vec<Vec<u8>>) -> (r: Result<Database, RespireError>)
        requires
            self.wf(),
        ensures
            r is Ok ==> r.get_Ok_0().wf_for(self),
            r is Err <==> !(records@.len() == self.num_records && (forall|i: int|
                0 <= i < records@.len() ==> (#[trigger] records@[i])@.len()
                    == self.params.BYTES_PER_RECORD)),
            r is Err ==> r.get_Err_0() == RespireError::RecordShape,
            r is Ok ==> (forall|i1: int, j2: int, ci: int, rr: int|
                0 <= i1 < self.dim1 && 0 <= j2 < self.dim2 && 0 <= ci < self.params.D3 && 0 <= rr
                    < self.pack_db ==> (#[trigger] r.get_Ok_0().elems@[j2 * self.dim1
                    + i1]@[self.pack_db * ci + rr]) == crate::codec::spec_group_of_byte(
                    records@[(i1 * self.dim2 + j2) * self.pack_db + rr]@[ci
                        / crate::codec::spec_gpb(self.pb as int)],
                    self.pb as int,
                    ci % crate::codec::spec_gpb(self.pb as int),
                )),
    {
        let p = &self.params;
        if records.len() != self.num_records {
            return Err(RespireError::RecordShape);
        }
        let mut chk: usize = 0;
        while chk < records.len()
            invariant
                chk <= records@.len(),
                self.wf(),
                p == self.params,
                forall|i: int|
                    0 <= i < chk ==> (#[trigger] records@[i])@.len() == p.BYTES_PER_RECORD,
            decreases records@.len() - chk,
        {
            if records[chk].len() != p.BYTES_PER_RECORD {
                return Err(RespireError::RecordShape);
            }
            chk = chk + 1;
        }
        let d1 = p.D1;
        let q1 = p.Q1;
        let nchunks = self.dim1 * self.dim2;
        let mut elems: Vec<Poly> = Vec::new();
        let mut j2: usize = 0;
        proof {
            lemma_db_index_bounds(self.dim1 as int, self.dim2 as int, self.pack_db as int);
        }
        while j2 < self.dim2
            invariant
                j2 <= self.dim2,
                self.wf(),
                p == self.params,
                d1 == p.D1,
                q1 == p.Q1,
                records@.len() == self.num_records,
                forall|i: int|
                    0 <= i < records@.len() ==> (#[trigger] records@[i])@.len()
                        == p.BYTES_PER_RECORD,
                elems@.len() == j2 * self.dim1,
                forall|i: int|
                    0 <= i < elems@.len() ==> (#[trigger] elems@[i]).wf() && elems@[i].q == q1
                        && elems@[i]@.len() == d1,
                forall|j2p: int, i1p: int|
                    0 <= j2p < j2 && 0 <= i1p < self.dim1 ==> 0 <= #[trigger] (j2p * self.dim1
                        + i1p) < elems@.len(),
                forall|j2p: int, i1p: int, ci: int, rr: int|
                    0 <= j2p < j2 && 0 <= i1p < self.dim1 && 0 <= ci < p.D3 && 0 <= rr
                        < self.pack_db ==> (#[trigger] elems@[j2p * self.dim1 + i1p]@[self.pack_db
                        * ci + rr]) == crate::codec::spec_group_of_byte(
                        records@[(i1p * self.dim2 + j2p) * self.pack_db + rr]@[ci
                            / crate::codec::spec_gpb(self.pb as int)],
                        self.pb as int,
                        ci % crate::codec::spec_gpb(self.pb as int),
                    ),
            decreases self.dim2 - j2,
        {
            let mut i1: usize = 0;
            while i1 < self.dim1
                invariant
                    i1 <= self.dim1,
                    j2 < self.dim2,
                    self.wf(),
                    p == self.params,
                    d1 == p.D1,
                    q1 == p.Q1,
                    records@.len() == self.num_records,
                    forall|i: int|
                        0 <= i < records@.len() ==> (#[trigger] records@[i])@.len()
                            == p.BYTES_PER_RECORD,
                    elems@.len() == j2 * self.dim1 + i1,
                    forall|i: int|
                        0 <= i < elems@.len() ==> (#[trigger] elems@[i]).wf() && elems@[i].q == q1
                            && elems@[i]@.len() == d1,
                    forall|j2p: int, i1p: int|
                        0 <= j2p < j2 && 0 <= i1p < self.dim1 ==> 0 <= #[trigger] (j2p
                            * self.dim1 + i1p) < j2 * self.dim1,
                    forall|j2p: int, i1p: int, ci: int, rr: int|
                        0 <= j2p < j2 && 0 <= i1p < self.dim1 && 0 <= ci < p.D3 && 0 <= rr
                            < self.pack_db ==> (#[trigger] elems@[j2p * self.dim1
                            + i1p]@[self.pack_db * ci + rr]) == crate::codec::spec_group_of_byte(
                            records@[(i1p * self.dim2 + j2p) * self.pack_db + rr]@[ci
                                / crate::codec::spec_gpb(self.pb as int)],
                            self.pb as int,
                            ci % crate::codec::spec_gpb(self.pb as int),
                        ),
                    forall|i1p: int, ci: int, rr: int|
                        0 <= i1p < i1 && 0 <= ci < p.D3 && 0 <= rr < self.pack_db ==> (
                        #[trigger] elems@[j2 * self.dim1 + i1p]@[self.pack_db * ci + rr])
                            == crate::codec::spec_group_of_byte(
                            records@[(i1p * self.dim2 + j2 as int) * self.pack_db + rr]@[ci
                                / crate::codec::spec_gpb(self.pb as int)],
                            self.pb as int,
                            ci % crate::codec::spec_gpb(self.pb as int),
                        ),
                decreases self.dim1 - i1,
            {
                let chunk = self.encode_chunk(records, i1, j2);
                elems.push(chunk);
                i1 = i1 + 1;
            }
            j2 = j2 + 1;
            proof {
                assert(j2 * self.dim1 == (j2 - 1) * self.dim1 + self.dim1) by (nonlinear_arith);
                assert forall|j2p: int, i1p: int|
                    0 <= j2p < j2 && 0 <= i1p < self.dim1 implies 0 <= #[trigger] (j2p * self.dim1
                    + i1p) < j2 * self.dim1 by {
                    assert(j2p * self.dim1 + i1p < j2 * self.dim1 && j2p * self.dim1 >= 0)
                        by (nonlinear_arith)
                        requires
                            0 <= j2p < j2,
                            0 <= i1p < self.dim1,
                    ;
                }
            }
        }
        proof {
            assert(elems@.len() == self.dim2 * self.dim1);
            vstd::arithmetic::mul::lemma_mul_is_commutative(self.dim2 as int, self.dim1 as int);
        }
        Ok(Database { elems })
    }

    /// Encodes one packed chunk: records `c*pack_db .. (c+1)*pack_db`
    /// (with `c = i1*dim2 + j2`) interleaved into a `D1`-dimension
    /// element, values still below `P` but represented mod `Q1`.
    /// Coefficient `pack_db*ci + rr` carries coefficient `ci` of record
    /// `c*pack_db + rr`.
    #[verifier::rlimit(60)]
    fn encode_chunk(&self, records: &Vec<Vec<u8>>, i1: usize, j2: usize) -> (r: Poly)
        requires
            self.wf(),
            i1 < self.dim1,
            j2 < self.dim2,
            records@.len() == self.num_records,
            forall|i: int|
                0 <= i < records@.len() ==> (#[trigger] records@[i])@.len()
                    == self.params.BYTES_PER_RECORD,
        ensures
            r.wf(),
            r.q == self.params.Q1,
            r@.len() == self.params.D1,
            forall|ci: int, rr: int|
                0 <= ci < self.params.D3 && 0 <= rr < self.pack_db ==> (#[trigger] r@[self.pack_db
                    * ci + rr]) == crate::codec::spec_group_of_byte(
                    records@[(i1 * self.dim2 + j2) * self.pack_db + rr]@[ci / crate::codec::spec_gpb(
                        self.pb as int,
                    )],
                    self.pb as int,
                    ci % crate::codec::spec_gpb(self.pb as int),
                ),
    {
        let p = &self.params;
        let d1 = p.D1;
        proof {
            vstd::arithmetic::power2::lemma2_to64();
            vstd::arithmetic::power2::lemma_pow2_strictly_increases(0, self.pb as nat);
        }
        let mut v: Vec<u64> = Vec::new();
        let mut i: usize = 0;
        while i < d1
            invariant
                i <= d1,
                v@.len() == i,
                forall|k: int| 0 <= k < i ==> v@[k] == 0u64,
            decreases d1 - i,
        {
            v.push(0);
            i = i + 1;
        }
        proof {
            lemma_db_index_bounds(self.dim1 as int, self.dim2 as int, self.pack_db as int);
            assert((i1 * self.dim2 + j2) * self.pack_db + self.pack_db <= self.num_records)
                by (nonlinear_arith)
                requires
                    i1 < self.dim1,
                    j2 < self.dim2,
                    self.pack_db >= 1,
                    self.num_records == self.dim1 * self.dim2 * self.pack_db,
            ;
        }
        proof {
            assert(i1 * self.dim2 + j2 < self.dim1 * self.dim2) by (nonlinear_arith)
                requires
                    i1 < self.dim1,
                    j2 < self.dim2,
            ;
            assert(i1 * self.dim2 >= 0) by (nonlinear_arith)
                requires
                    i1 >= 0,
                    self.dim2 >= 1,
            ;
        }
        let c = i1 * self.dim2 + j2;
        let mut rr: usize = 0;
        while rr < self.pack_db
            invariant
                rr <= self.pack_db,
                self.wf(),
                p == self.params,
                d1 == p.D1,
                c == i1 * self.dim2 + j2,
                c * self.pack_db + self.pack_db <= self.num_records,
                records@.len() == self.num_records,
                forall|k: int|
                    0 <= k < records@.len() ==> (#[trigger] records@[k])@.len()
                        == p.BYTES_PER_RECORD,
                v@.len() == d1,
                forall|k: int| 0 <= k < d1 ==> v@[k] < p.P,
                forall|ci: int, rp: int|
                    0 <= ci < p.D3 && 0 <= rp < rr ==> (#[trigger] v@[self.pack_db * ci + rp])
                        == crate::codec::spec_group_of_byte(
                        records@[c * self.pack_db + rp]@[ci / crate::codec::spec_gpb(
                            self.pb as int,
                        )],
                        self.pb as int,
                        ci % crate::codec::spec_gpb(self.pb as int),
                    ),
            decreases self.pack_db - rr,
        {
            proof {
                assert(c * self.pack_db + rr < self.num_records);
                assert(p.BYTES_PER_RECORD * 8 <= D_LIMIT);
                assert(p.BYTES_PER_RECORD * (8int / self.pb as int) * self.pack_db <= d1 && (8int
                    / self.pb as int) * p.BYTES_PER_RECORD == p.D3) by (nonlinear_arith)
                    requires
                        group_width_ok(self.pb as int),
                        p.BYTES_PER_RECORD * 8 == p.D3 * self.pb,
                        self.pack_db * p.D3 == p.D1,
                        d1 == p.D1,
                        self.pb >= 1,
                ;
            }
            let rec = crate::codec::encode_record(&records[c * self.pack_db + rr], self.pb);
            let d3 = rec.coeffs.len();
            proof {
                assert(rec@.len() == p.D3);
            }
            let ghost vprev = v@;
            let mut ci: usize = 0;
            while ci < d3
                invariant
                    ci <= d3,
                    self.wf(),
                    p == self.params,
                    d1 == p.D1,
                    rr < self.pack_db,
                    d3 == rec@.len(),
                    d3 == p.D3,
                    rec.wf(),
                    rec.q == p.P,
                    forall|k: int|
                        0 <= k < d3 ==> (#[trigger] rec@[k]) == crate::codec::spec_group_of_byte(
                            records@[c * self.pack_db + rr]@[k / crate::codec::spec_gpb(
                                self.pb as int,
                            )],
                            self.pb as int,
                            k % crate::codec::spec_gpb(self.pb as int),
                        ),
                    c * self.pack_db + self.pack_db <= self.num_records,
                    records@.len() == self.num_records,
                    v@.len() == d1,
                    vprev.len() == d1,
                    forall|k: int| 0 <= k < d1 ==> v@[k] < p.P,
                    forall|cp: int|
                        0 <= cp < ci ==> (#[trigger] v@[self.pack_db * cp + rr]) == rec@[cp],
                    forall|k: int|
                        0 <= k < d1 && k % (self.pack_db as int) != rr ==> (#[trigger] v@[k])
                            == vprev[k],
                decreases d3 - ci,
            {
                proof {
                    assert(self.pack_db * ci + rr < self.pack_db * p.D3 && (self.pack_db * ci
                        + rr) % (self.pack_db as int) == rr && (self.pack_db * ci + rr) / (
                    self.pack_db as int) == ci) by (nonlinear_arith)
                        requires
                            0 <= ci < p.D3,
                            0 <= rr < self.pack_db,
                    ;
                    assert forall|cp: int|
                        0 <= cp < ci implies #[trigger] (self.pack_db * cp) + rr != self.pack_db
                        * ci + rr && 0 <= self.pack_db * cp + rr < d1 by {
                        assert(self.pack_db * cp < self.pack_db * ci && self.pack_db * cp >= 0
                            && self.pack_db * cp + rr < self.pack_db * p.D3) by (nonlinear_arith)
                            requires
                                0 <= cp < ci,
                                ci < p.D3,
                                0 <= rr < self.pack_db,
                                self.pack_db >= 1,
                        ;
                    }
                }
                v.set(self.pack_db * ci + rr, rec.coeffs[ci]);
                ci = ci + 1;
            }
            proof {
                assert forall|cx: int, rp: int|
                    0 <= cx < p.D3 && 0 <= rp < rr + 1 implies (#[trigger] v@[self.pack_db * cx
                    + rp]) == crate::codec::spec_group_of_byte(
                    records@[c * self.pack_db + rp]@[cx / crate::codec::spec_gpb(self.pb as int)],
                    self.pb as int,
                    cx % crate::codec::spec_gpb(self.pb as int),
                ) by {
                    assert(0 <= self.pack_db * cx + rp && self.pack_db * cx + rp < d1 && (
                    self.pack_db * cx + rp) % (self.pack_db as int) == rp) by (nonlinear_arith)
                        requires
                            0 <= cx < p.D3,
                            0 <= rp <= rr < self.pack_db,
                            self.pack_db * p.D3 == d1,
                    ;
                }
            }
            rr = rr + 1;
        }
        proof {
            assert(p.P < p.Q1);
            assert forall|k: int| 0 <= k < d1 implies v@[k] < p.Q1 by {}
        }
        Poly::from_coeffs(p.Q1, v)
    }
}

impl RespireImpl {
    /// The short-path query plaintext values: the scaled indicator of the
    /// first-dimension index, one value per expanded slot.
    pub open spec fn spec_rlwe_query_vals(&self, idx: int) -> Seq<u64> {
        Seq::new(
            self.dim1 as nat,
            |i: int|
                if i == idx / (self.dim2 * self.pack_db) as int {
                    crate::codec::spec_scale_up(1, self.params.P, self.params.Q1) as u64
                } else {
                    0u64
                },
        )
    }

    /// The long-path query plaintext values: slot `t_gsw * b + g` carries
    /// bit `b` of the folded index (most significant first) scaled by
    /// `Z_GSW^g`.
    pub open spec fn spec_gsw_query_vals(&self, idx: int) -> Seq<u64> {
        Seq::new(
            self.gsw_count as nat,
            |pk: int|
                {
                    let bit_idx = pk / self.params.T_GSW as int;
                    let gp = pk % self.params.T_GSW as int;
                    let nbits = self.params.NU2 + self.nu3;
                    let idx_j = idx % (self.dim2 * self.pack_db) as int;
                    let bit = (idx_j / pow2((nbits - 1 - bit_idx) as nat) as int) % 2;
                    if bit == 1 {
                        ((pow(self.params.Z_GSW as int, gp as nat) % (
                        self.params.Q1 as int)) as u64)
                    } else {
                        0u64
                    }
                },
        )
    }

    /// What a query for `idx` built from `qseed` holds: the compressed
    /// coefficients are the bit-reversed slots of the encryptions of the
    /// scattered indicator and gadget-bit plaintexts, under the masks the
    /// two carried seeds denote and the noise streams derived from
    /// `qseed` (sub-seeds 1 and 3).
    #[verifier::opaque]
    pub open spec fn query_matches(
        &self,
        qk: RespireQueryKey,
        idx: int,
        qseed: Seq<u8>,
        r: QueryOne,
    ) -> bool {
        let d1 = self.params.D1 as nat;
        let q1 = self.params.Q1;
        &&& ({
            let mu = spec_scatter_rev(
                self.spec_rlwe_query_vals(idx),
                d1,
                self.ld1 as nat,
                self.dim1 as int,
            );
            let c0 = crate::rng::spec_uniform_poly(
                crate::rng::chacha_stream(r.seed_rlwe@, 8 * d1 as int),
                d1 as int,
                q1,
            );
            let noise = crate::rng::spec_noise_poly(
                crate::rng::chacha_stream(
                    crate::keys::derive_seed_spec(qseed, 1),
                    (self.k_err * self.params.D1) as int,
                ),
                d1 as int,
                q1,
                self.k_err as int,
            );
            let c1 = crate::rlwe::spec_encrypt_c1(c0, qk.s_enc@, noise, mu, q1);
            forall|i: int|
                0 <= i < self.dim1 ==> r.c1_rlwe@[i] == c1[crate::arith::spec_rev_bits(
                    i,
                    self.ld1 as nat,
                )]
        })
        &&& ({
            let mu = spec_scatter_rev(
                self.spec_gsw_query_vals(idx),
                d1,
                self.ld1 as nat,
                self.gsw_count as int,
            );
            let c0 = crate::rng::spec_uniform_poly(
                crate::rng::chacha_stream(r.seed_gsw@, 8 * d1 as int),
                d1 as int,
                q1,
            );
            let noise = crate::rng::spec_noise_poly(
                crate::rng::chacha_stream(
                    crate::keys::derive_seed_spec(qseed, 3),
                    (self.k_err * self.params.D1) as int,
                ),
                d1 as int,
                q1,
                self.k_err as int,
            );
            let c1 = crate::rlwe::spec_encrypt_c1(c0, qk.s_enc@, noise, mu, q1);
            forall|i: int|
                0 <= i < self.gsw_count ==> r.c1_gsw@[i] == c1[crate::arith::spec_rev_bits(
                    i,
                    self.ld1 as nat,
                )]
        })
    }

    /// Builds the query for `idx`: a seeded RLWE encrypting the scaled
    /// first-dimension indicator, and a seeded RLWE encrypting the
    /// gadget-scaled bits of the remaining index, both in bit-reversed
    /// coefficient layout and compressed to the used slots.  The kept
    /// coefficients are exactly the encryption of the scattered query
    /// plaintexts under the mask that `seed_rlwe` / `seed_gsw` denote.
    pub fn query_one(&self, qk: &RespireQueryKey, idx: usize, seed: &Vec<u8>) -> (r: QueryOne)
        requires
            self.wf(),
            qk.wf_for(self),
            idx < self.num_records,
            seed@.len() == 32,
        ensures
            r.wf_for(self),
            self.query_matches(*qk, idx as int, seed@, r),
            ({
                let d1 = self.params.D1 as nat;
                let q1 = self.params.Q1;
                let mu = spec_scatter_rev(
                    self.spec_rlwe_query_vals(idx as int),
                    d1,
                    self.ld1 as nat,
                    self.dim1 as int,
                );
                let c0 = crate::rng::spec_uniform_poly(
                    crate::rng::chacha_stream(r.seed_rlwe@, 8 * d1 as int),
                    d1 as int,
                    q1,
                );
                let noise = crate::rng::spec_noise_poly(
                    crate::rng::chacha_stream(
                        crate::keys::derive_seed_spec(seed@, 1),
                        (self.k_err * d1) as int,
                    ),
                    d1 as int,
                    q1,
                    self.k_err as int,
                );
                let c1 = crate::rlwe::spec_encrypt_c1(c0, qk.s_enc@, noise, mu, q1);
                forall|i: int|
                    0 <= i < self.dim1 ==> r.c1_rlwe@[i] == c1[crate::arith::spec_rev_bits(
                        i,
                        self.ld1 as nat,
                    )]
            }),
            ({
                let d1 = self.params.D1 as nat;
                let q1 = self.params.Q1;
                let mu = spec_scatter_rev(
                    self.spec_gsw_query_vals(idx as int),
                    d1,
                    self.ld1 as nat,
                    self.gsw_count as int,
                );
                let c0 = crate::rng::spec_uniform_poly(
                    crate::rng::chacha_stream(r.seed_gsw@, 8 * d1 as int),
                    d1 as int,
                    q1,
                );
                let noise = crate::rng::spec_noise_poly(
                    crate::rng::chacha_stream(
                        crate::keys::derive_seed_spec(seed@, 3),
                        (self.k_err * d1) as int,
                    ),
                    d1 as int,
                    q1,
                    self.k_err as int,
                );
                let c1 = crate::rlwe::spec_encrypt_c1(c0, qk.s_enc@, noise, mu, q1);
                forall|i: int|
                    0 <= i < self.gsw_count ==> r.c1_gsw@[i] == c1[crate::arith::spec_rev_bits(
                        i,
                        self.ld1 as nat,
                    )]
            }),
    {
        let p = &self.params;
        let d1 = p.D1;
        let q1 = p.Q1;
        proof {
            assert(self.dim2 * self.pack_db >= 1 && self.dim2 * self.pack_db
                <= self.num_records && self.dim1 * (self.dim2 * self.pack_db)
                == self.num_records && (self.dim2 * self.pack_db) * self.dim1
                == self.num_records) by (nonlinear_arith)
                requires
                    self.num_records == self.dim1 * self.dim2 * self.pack_db,
                    self.dim1 >= 1,
                    self.dim2 >= 1,
                    self.pack_db >= 1,
            ;
        }
        let last_dims = self.dim2 * self.pack_db;
        let idx_i = idx / last_dims;
        let idx_j = idx % last_dims;
        proof {
            vstd::arithmetic::div_mod::lemma_multiply_divide_lt(
                idx as int,
                last_dims as int,
                self.dim1 as int,
            );
            vstd::arithmetic::div_mod::lemma_mod_bound(idx as int, last_dims as int);
        }
        // Scaled indicator for the first dimension.
        proof {
            vstd::arithmetic::power2::lemma2_to64();
            vstd::arithmetic::power2::lemma_pow2_strictly_increases(0, self.pb as nat);
        }
        let delta: u64 = (crate::arith::div_round(q1 as u128, p.P as u128)) as u64;
        proof {
            assert((q1 + p.P / 2) / (p.P as int) < q1) by (nonlinear_arith)
                requires
                    2 <= p.P,
                    4 * p.P <= p.Q3,
                    p.Q3 <= q1,
                    q1 >= 4,
            ;
            vstd::arithmetic::div_mod::lemma_div_pos_is_pos(q1 + p.P / 2, p.P as int);
        }
        let ghost rvals = self.spec_rlwe_query_vals(idx as int);
        let mut mu_rlwe = Poly::zero(d1, q1);
        proof {
            assert(mu_rlwe@ =~= spec_scatter_rev(rvals, d1 as nat, self.ld1 as nat, 0));
        }
        let mut i: usize = 0;
        while i < self.dim1
            invariant
                i <= self.dim1,
                self.wf(),
                p == self.params,
                d1 == p.D1,
                q1 == p.Q1,
                idx_i == idx as int / (self.dim2 * self.pack_db) as int,
                idx_i < self.dim1,
                delta < q1,
                delta == crate::codec::spec_scale_up(1, p.P, q1),
                rvals == self.spec_rlwe_query_vals(idx as int),
                mu_rlwe.q == q1,
                mu_rlwe@.len() == d1,
                forall|k: int| 0 <= k < d1 ==> mu_rlwe@[k] < q1,
                mu_rlwe@ == spec_scatter_rev(rvals, d1 as nat, self.ld1 as nat, i as int),
            decreases self.dim1 - i,
        {
            proof {
                lemma_dim_below_pow32(self.dim1 as nat, self.params.NU1 as nat);
            }
            let pos = crate::arith::reverse_bits(i as u64, self.ld1 as u64) as usize;
            proof {
                vstd::arithmetic::power2::lemma_pow2_strictly_increases(
                    self.ld1 as nat,
                    33,
                );
                if self.params.NU1 < self.ld1 {
                    vstd::arithmetic::power2::lemma_pow2_strictly_increases(
                        self.params.NU1 as nat,
                        self.ld1 as nat,
                    );
                }
            }
            let v: u64 = if i == idx_i {
                delta
            } else {
                0
            };
            mu_rlwe.coeffs.set(pos, v);
            i = i + 1;
        }
        // Gadget-scaled bits of the folded index, most significant first.
        let ghost gvals = self.spec_gsw_query_vals(idx as int);
        let zpows = crate::keys::powers_mod(p.Z_GSW, p.T_GSW, q1);
        let nbits = p.NU2 + self.nu3;
        let mut mu_gsw = Poly::zero(d1, q1);
        proof {
            assert(mu_gsw@ =~= spec_scatter_rev(gvals, d1 as nat, self.ld1 as nat, 0));
        }
        let mut bit_idx: usize = 0;
        while bit_idx < nbits
            invariant
                bit_idx <= nbits,
                nbits == p.NU2 + self.nu3,
                self.wf(),
                p == self.params,
                d1 == p.D1,
                q1 == p.Q1,
                idx_j == idx as int % (self.dim2 * self.pack_db) as int,
                idx_j < self.dim2 * self.pack_db,
                gvals == self.spec_gsw_query_vals(idx as int),
                zpows@.len() == p.T_GSW,
                forall|k: int| 0 <= k < p.T_GSW ==> zpows@[k] < q1,
                forall|k: int|
                    0 <= k < p.T_GSW ==> zpows@[k] == pow(p.Z_GSW as int, k as nat) % (q1 as int),
                mu_gsw.q == q1,
                mu_gsw@.len() == d1,
                forall|k: int| 0 <= k < d1 ==> mu_gsw@[k] < q1,
                mu_gsw@ == spec_scatter_rev(
                    gvals,
                    d1 as nat,
                    self.ld1 as nat,
                    bit_idx * p.T_GSW,
                ),
            decreases nbits - bit_idx,
        {
            let shift = nbits - 1 - bit_idx;
            let bit = (((idx_j as u64) / pow2_u64(shift as u64)) % 2) as usize;
            let mut gsw_pow: usize = 0;
            while gsw_pow < p.T_GSW
                invariant
                    gsw_pow <= p.T_GSW,
                    bit_idx < nbits,
                    nbits == p.NU2 + self.nu3,
                    self.wf(),
                    p == self.params,
                    d1 == p.D1,
                    q1 == p.Q1,
                    idx_j == idx as int % (self.dim2 * self.pack_db) as int,
                    idx_j < self.dim2 * self.pack_db,
                    gvals == self.spec_gsw_query_vals(idx as int),
                    shift == nbits - 1 - bit_idx,
                    bit < 2,
                    bit == (idx_j as int / pow2(shift as nat) as int) % 2,
                    zpows@.len() == p.T_GSW,
                    forall|k: int| 0 <= k < p.T_GSW ==> zpows@[k] < q1,
                    forall|k: int|
                        0 <= k < p.T_GSW ==> zpows@[k] == pow(p.Z_GSW as int, k as nat) % (
                        q1 as int),
                    mu_gsw.q == q1,
                    mu_gsw@.len() == d1,
                    forall|k: int| 0 <= k < d1 ==> mu_gsw@[k] < q1,
                    mu_gsw@ == spec_scatter_rev(
                        gvals,
                        d1 as nat,
                        self.ld1 as nat,
                        bit_idx * p.T_GSW + gsw_pow,
                    ),
                decreases p.T_GSW - gsw_pow,
            {
                proof {
                    assert(p.T_GSW * bit_idx + gsw_pow < (p.NU2 + self.nu3) * p.T_GSW
                        && bit_idx * p.T_GSW == p.T_GSW * bit_idx) by (nonlinear_arith)
                        requires
                            bit_idx < nbits,
                            nbits == p.NU2 + self.nu3,
                            gsw_pow < p.T_GSW,
                    ;
                    assert(self.gsw_count <= d1);
                    lemma_dim_below_pow32(d1 as nat, self.ld1 as nat);
                }
                let pack_idx = p.T_GSW * bit_idx + gsw_pow;
                let pos = crate::arith::reverse_bits(pack_idx as u64, self.ld1 as u64) as usize;
                proof {
                    vstd::arithmetic::power2::lemma_pow2_strictly_increases(self.ld1 as nat, 33);
                    assert((pack_idx as int) / (p.T_GSW as int) == bit_idx && (pack_idx as int) % (
                    p.T_GSW as int) == gsw_pow) by (nonlinear_arith)
                        requires
                            pack_idx == p.T_GSW * bit_idx + gsw_pow,
                            0 <= gsw_pow < p.T_GSW,
                            0 <= bit_idx,
                    ;
                    assert(gvals[pack_idx as int] == if bit == 1 {
                        ((pow(p.Z_GSW as int, gsw_pow as nat) % (q1 as int)) as u64)
                    } else {
                        0u64
                    });
                }
                let v: u64 = if bit == 1 {
                    zpows[gsw_pow]
                } else {
                    0
                };
                mu_gsw.coeffs.set(pos, v);
                gsw_pow = gsw_pow + 1;
            }
            bit_idx = bit_idx + 1;
            proof {
                assert(bit_idx * p.T_GSW == (bit_idx - 1) * p.T_GSW + p.T_GSW)
                    by (nonlinear_arith);
            }
        }
        // Seeded encryptions.
        proof {
            assert(self.k_err * d1 <= 0x7FFF_FFFF);
        }
        let mu_rlwe_p = Poly::from_coeffs(q1, mu_rlwe.coeffs);
        let mu_gsw_p = Poly::from_coeffs(q1, mu_gsw.coeffs);
        let ct_rlwe = crate::rlwe::encrypt_rlwe_seeded(
            &qk.s_enc,
            &mu_rlwe_p,
            crate::keys::derive_seed(seed, 0),
            &crate::keys::derive_seed(seed, 1),
            self.k_err,
        );
        let ct_gsw = crate::rlwe::encrypt_rlwe_seeded(
            &qk.s_enc,
            &mu_gsw_p,
            crate::keys::derive_seed(seed, 2),
            &crate::keys::derive_seed(seed, 3),
            self.k_err,
        );
        // Compress: keep only the bit-reversed slots that carry payload.
        let c1_rlwe = self.gather_bitrev(&ct_rlwe.c1, self.dim1);
        let c1_gsw = self.gather_bitrev(&ct_gsw.c1, self.gsw_count);
        let r = QueryOne { seed_rlwe: ct_rlwe.seed, c1_rlwe, seed_gsw: ct_gsw.seed, c1_gsw };
        proof {
            reveal(RespireImpl::query_matches);
            assert(self.query_matches(*qk, idx as int, seed@, r));
        }
        r
    }

    /// Reads `count` coefficients at bit-reversed positions.
    fn gather_bitrev(&self, c: &Poly, count: usize) -> (r: Vec<u64>)
        requires
            self.wf(),
            c.wf(),
            c.q == self.params.Q1,
            c@.len() == self.params.D1,
            count <= self.params.D1,
        ensures
            r@.len() == count,
            forall|i: int| 0 <= i < count ==> r@[i] < self.params.Q1,
            forall|i: int|
                0 <= i < count ==> r@[i] == c@[crate::arith::spec_rev_bits(i, self.ld1 as nat)],
    {
        let mut r: Vec<u64> = Vec::new();
        let mut i: usize = 0;
        while i < count
            invariant
                i <= count <= self.params.D1,
                self.wf(),
                c.wf(),
                c.q == self.params.Q1,
                c@.len() == self.params.D1,
                r@.len() == i,
                forall|k: int| 0 <= k < i ==> r@[k] < self.params.Q1,
                forall|k: int|
                    0 <= k < i ==> r@[k] == c@[crate::arith::spec_rev_bits(k, self.ld1 as nat)],
            decreases count - i,
        {
            proof {
                lemma_dim_below_pow32(self.params.D1 as nat, self.ld1 as nat);
            }
            let pos = crate::arith::reverse_bits(i as u64, self.ld1 as u64) as usize;
            proof {
                vstd::arithmetic::power2::lemma_pow2_strictly_increases(self.ld1 as nat, 33);
            }
            r.push(c.coeffs[pos]);
            i = i + 1;
        }
        r
    }

    /// Writes `vals` at bit-reversed positions of a fresh element.
    fn scatter_bitrev(&self, vals: &Vec<u64>) -> (r: Poly)
        requires
            self.wf(),
            vals@.len() <= self.params.D1,
            forall|i: int| 0 <= i < vals@.len() ==> vals@[i] < self.params.Q1,
        ensures
            r.wf(),
            r.q == self.params.Q1,
            r@.len() == self.params.D1,
            r@ == spec_scatter_rev(
                vals@,
                self.params.D1 as nat,
                self.ld1 as nat,
                vals@.len() as int,
            ),
    {
        let mut out = Poly::zero(self.params.D1, self.params.Q1);
        proof {
            assert(out@ =~= spec_scatter_rev(vals@, self.params.D1 as nat, self.ld1 as nat, 0));
        }
        let mut i: usize = 0;
        while i < vals.len()
            invariant
                i <= vals@.len() <= self.params.D1,
                self.wf(),
                forall|k: int| 0 <= k < vals@.len() ==> vals@[k] < self.params.Q1,
                out.q == self.params.Q1,
                out@.len() == self.params.D1,
                forall|k: int| 0 <= k < out@.len() ==> out@[k] < self.params.Q1,
                out@ == spec_scatter_rev(vals@, self.params.D1 as nat, self.ld1 as nat, i as int),
            decreases vals@.len() - i,
        {
            proof {
                lemma_dim_below_pow32(self.params.D1 as nat, self.ld1 as nat);
            }
            let pos = crate::arith::reverse_bits(i as u64, self.ld1 as u64) as usize;
            proof {
                vstd::arithmetic::power2::lemma_pow2_strictly_increases(self.ld1 as nat, 33);
            }
            out.coeffs.set(pos, vals[i]);
            i = i + 1;
        }
        out
    }

    /// One coefficient-expansion iteration: each input ciphertext `c`
    /// becomes the pair `c + tau(c)` and `X^(-2^it) c + X^(-2^it tau) tau(c)`
    /// (exponents mod `2 D1`), doubling the list.
    pub fn expand_iter(&self, which_iter: usize, cts: &Vec<crate::rlwe::Rlwe>,
        key: &crate::keys::AutoKey, z: u64, t: usize) -> (r: Vec<crate::rlwe::Rlwe>)
        requires
            self.wf(),
            which_iter < self.ld1,
            key.wf_for(self.params.D1 as nat, self.params.Q1, t as nat),
            2 <= z <= self.params.Q1,
            1 <= t <= 64,
            cts@.len() <= self.params.D1,
            forall|i: int|
                0 <= i < cts@.len() ==> (#[trigger] cts@[i]).wf() && cts@[i].q() == self.params.Q1
                    && cts@[i].dim() == self.params.D1,
        ensures
            r@.len() == 2 * cts@.len(),
            forall|i: int|
                0 <= i < r@.len() ==> (#[trigger] r@[i]).wf() && r@[i].q() == self.params.Q1
                    && r@[i].dim() == self.params.D1,
            forall|j: int|
                0 <= j < cts@.len() ==> ({
                    let q = self.params.Q1;
                    let d = self.params.D1 as int;
                    let shift = pow2(which_iter as nat) as int;
                    let shift_auto = (shift * key.tau) % (2 * d);
                    let back = if shift_auto == 0 {
                        0int
                    } else {
                        2 * d - shift_auto
                    };
                    let c = ((#[trigger] cts@[j]).c0@, cts@[j].c1@);
                    let a = crate::keys::spec_auto_hom(c, *key, z, t as int, q, d as nat);
                    r@[2 * j].c0@ == crate::ring::spec_poly_add(c.0, a.0, q) && r@[2 * j].c1@
                        == crate::ring::spec_poly_add(c.1, a.1, q) && r@[2 * j + 1].c0@
                        == crate::ring::spec_poly_add(
                        crate::ring::spec_mul_x_pow(c.0, 2 * d - shift, q),
                        crate::ring::spec_mul_x_pow(a.0, back, q),
                        q,
                    ) && r@[2 * j + 1].c1@ == crate::ring::spec_poly_add(
                        crate::ring::spec_mul_x_pow(c.1, 2 * d - shift, q),
                        crate::ring::spec_mul_x_pow(a.1, back, q),
                        q,
                    )
                }),
    {
        let d1 = self.params.D1;
        proof {
            vstd::arithmetic::power2::lemma_pow2_strictly_increases(
                which_iter as nat,
                self.ld1 as nat,
            );
        }
        let shift_exp = pow2_u64(which_iter as u64) as usize;
        proof {
            vstd::arithmetic::mul::lemma_mul_upper_bound(shift_exp as int, 0x1_0000,
                key.tau as int, 0x2_0000);
        }
        let shift_auto = (((shift_exp as u64) * (key.tau as u64)) % (2 * d1 as u64)) as usize;
        let k2: usize = if shift_auto == 0 {
            0
        } else {
            2 * d1 - shift_auto
        };
        proof {
            vstd::arithmetic::div_mod::lemma_mod_bound(
                (shift_exp * key.tau) as int,
                2 * d1 as int,
            );
        }
        let mut r: Vec<crate::rlwe::Rlwe> = Vec::new();
        let mut j: usize = 0;
        while j < cts.len()
            invariant
                j <= cts@.len() <= d1,
                self.wf(),
                d1 == self.params.D1,
                key.wf_for(d1 as nat, self.params.Q1, t as nat),
                2 <= z <= self.params.Q1,
                1 <= t <= 64,
                1 <= shift_exp <= d1,
                k2 < 2 * d1,
                shift_exp == pow2(which_iter as nat),
                shift_auto == (shift_exp * key.tau) % (2 * d1 as int),
                k2 == if shift_auto == 0 {
                    0int
                } else {
                    2 * d1 - shift_auto
                },
                key.wf_for(d1 as nat, self.params.Q1, t as nat),
                2 <= z <= self.params.Q1,
                1 <= t <= 64,
                forall|i: int|
                    0 <= i < cts@.len() ==> (#[trigger] cts@[i]).wf() && cts@[i].q()
                        == self.params.Q1 && cts@[i].dim() == d1,
                r@.len() == 2 * j,
                forall|i: int|
                    0 <= i < r@.len() ==> (#[trigger] r@[i]).wf() && r@[i].q() == self.params.Q1
                        && r@[i].dim() == d1,
                forall|jj: int|
                    0 <= jj < j ==> ({
                        let q = self.params.Q1;
                        let c = ((#[trigger] cts@[jj]).c0@, cts@[jj].c1@);
                        let a = crate::keys::spec_auto_hom(c, *key, z, t as int, q, d1 as nat);
                        r@[2 * jj].c0@ == crate::ring::spec_poly_add(c.0, a.0, q) && r@[2
                            * jj].c1@ == crate::ring::spec_poly_add(c.1, a.1, q) && r@[2 * jj
                            + 1].c0@ == crate::ring::spec_poly_add(
                            crate::ring::spec_mul_x_pow(c.0, 2 * d1 - shift_exp, q),
                            crate::ring::spec_mul_x_pow(a.0, k2 as int, q),
                            q,
                        ) && r@[2 * jj + 1].c1@ == crate::ring::spec_poly_add(
                            crate::ring::spec_mul_x_pow(c.1, 2 * d1 - shift_exp, q),
                            crate::ring::spec_mul_x_pow(a.1, k2 as int, q),
                            q,
                        )
                    }),
            decreases cts@.len() - j,
        {
            let ct = &cts[j];
            let ct_auto = crate::keys::auto_hom(key, ct, z, t);
            let ct_shifted = ct.mul_x_pow(2 * d1 - shift_exp);
            let ct_auto_shifted = ct_auto.mul_x_pow(k2);
            r.push(ct.add(&ct_auto));
            r.push(ct_shifted.add(&ct_auto_shifted));
            j = j + 1;
        }
        r
    }

    /// One expansion level applied to a list of ciphertext views:
    /// entry `2j` is `c + auto(c)`, entry `2j+1` the shifted pair, with
    /// the shift of level `which`.
    pub open spec fn spec_expand_level(
        &self,
        cur: Seq<(Seq<u64>, Seq<u64>)>,
        key: crate::keys::AutoKey,
        z: u64,
        t: int,
        which: int,
    ) -> Seq<(Seq<u64>, Seq<u64>)> {
        let q = self.params.Q1;
        let d = self.params.D1 as int;
        let shift = pow2(which as nat) as int;
        let sa = (shift * key.tau) % (2 * d);
        let back = if sa == 0 {
            0int
        } else {
            2 * d - sa
        };
        Seq::new(
            2 * cur.len(),
            |i: int|
                {
                    let c = cur[i / 2];
                    let a = crate::keys::spec_auto_hom(c, key, z, t, q, d as nat);
                    if i % 2 == 0 {
                        (
                            crate::ring::spec_poly_add(c.0, a.0, q),
                            crate::ring::spec_poly_add(c.1, a.1, q),
                        )
                    } else {
                        (
                            crate::ring::spec_poly_add(
                                crate::ring::spec_mul_x_pow(c.0, 2 * d - shift, q),
                                crate::ring::spec_mul_x_pow(a.0, back, q),
                                q,
                            ),
                            crate::ring::spec_poly_add(
                                crate::ring::spec_mul_x_pow(c.1, 2 * d - shift, q),
                                crate::ring::spec_mul_x_pow(a.1, back, q),
                                q,
                            ),
                        )
                    }
                },
        )
    }

    /// The first `k` expansion levels applied to a single ciphertext.
    pub open spec fn spec_expand_upto(
        &self,
        init: (Seq<u64>, Seq<u64>),
        keys: Seq<crate::keys::AutoKey>,
        z: u64,
        t: int,
        k: int,
    ) -> Seq<(Seq<u64>, Seq<u64>)>
        decreases k,
    {
        if k <= 0 {
            Seq::empty().push(init)
        } else {
            self.spec_expand_level(
                self.spec_expand_upto(init, keys, z, t, k - 1),
                keys[k - 1],
                z,
                t,
                k - 1,
            )
        }
    }

    /// The long-path output of query unpacking: the expansion outputs,
    /// grouped in chunks of `t_gsw` and promoted to GSW, land in the fold
    /// groups first and the rotate groups after them.
    #[verifier::opaque]
    pub open spec fn gsw_groups_ok(
        &self,
        pp: &RespirePublicParams,
        q: &QueryOne,
        r1: Seq<crate::gsw::Gsw>,
        r2: Seq<crate::gsw::Gsw>,
    ) -> bool {
        ({
                // the long path: group the expansion outputs in chunks of
                // t_gsw and promote each to GSW; the fold groups come
                // first, the rotate groups after them
                let q1 = self.params.Q1;
                let d1 = self.params.D1;
                let t = self.params.T_GSW as int;
                let c0 = crate::rng::spec_uniform_poly(
                    crate::rng::chacha_stream(q.seed_gsw@, 8 * d1 as int),
                    d1 as int,
                    q1,
                );
                let c1 = spec_scatter_rev(
                    q.c1_gsw@,
                    d1 as nat,
                    self.ld1 as nat,
                    self.gsw_count as int,
                );
                let inv = (vstd::arithmetic::power::pow(((q1 + 1) / 2) as int, self.ld1 as nat) % (
                q1 as int)) as u64;
                let init = (
                    crate::ring::spec_poly_scale(c0, inv, q1),
                    crate::ring::spec_poly_scale(c1, inv, q1),
                );
                let expanded = self.spec_expand_upto(
                    init,
                    pp.auto_keys_long@,
                    self.params.Z_PROJ_LONG,
                    self.params.T_PROJ_LONG as int,
                    self.ld1 as int,
                );
                (forall|g: int, j: int|
                    #![trigger r1[g].cols@[j]]
                    0 <= g < self.params.NU2 && 0 <= j < t ==> ({
                        let hy = crate::gsw::spec_hybrid(
                            crate::gsw::gsw_view(pp.conv_key.cols@),
                            expanded[g * t + j].0,
                            expanded[g * t + j].1,
                            self.params.Z_RLWE_TO_GSW,
                            self.params.T_RLWE_TO_GSW as int,
                            q1,
                        );
                        expanded.len() > g * t + j && (r1[g].cols@[j].c0@, r1[g].cols@[j].c1@)
                            == hy && (r1[g].cols@[t + j].c0@, r1[g].cols@[t + j].c1@)
                            == expanded[g * t + j]
                    })) && (forall|g: int, j: int|
                    #![trigger r2[g].cols@[j]]
                    0 <= g < self.nu3 && 0 <= j < t ==> ({
                        let gg = self.params.NU2 + g;
                        let hy = crate::gsw::spec_hybrid(
                            crate::gsw::gsw_view(pp.conv_key.cols@),
                            expanded[gg * t + j].0,
                            expanded[gg * t + j].1,
                            self.params.Z_RLWE_TO_GSW,
                            self.params.T_RLWE_TO_GSW as int,
                            q1,
                        );
                        expanded.len() > gg * t + j && (r2[g].cols@[j].c0@,
                        r2[g].cols@[j].c1@) == hy && (r2[g].cols@[t + j].c0@, r2[g].cols@[t
                            + j].c1@) == expanded[gg * t + j]
                    }))
            })
    }

    /// Expands a query into `dim1` first-dimension RLWE ciphertexts and
    /// the fold and rotate GSW ciphertexts: the two seeded ciphertexts
    /// are rebuilt, rescaled by `D1^(-1)`, pushed through the coefficient
    /// expansion, and the long-path outputs are promoted to GSW.
    #[verifier::rlimit(100)]
    pub fn answer_query_unpack(&self, pp: &RespirePublicParams, q: &QueryOne) -> (r: (
        Vec<crate::rlwe::Rlwe>,
        Vec<crate::gsw::Gsw>,
        Vec<crate::gsw::Gsw>,
    ))
        requires
            self.wf(),
            pp.wf_for(self),
            q.wf_for(self),
        ensures
            r.0@.len() == self.dim1,
            forall|i: int|
                0 <= i < r.0@.len() ==> (#[trigger] r.0@[i]).wf() && r.0@[i].q() == self.params.Q1
                    && r.0@[i].dim() == self.params.D1,
            ({
                // the short path: recover the mask from the seed, rescale
                // by D1^(-1), and run every expansion level
                let q1 = self.params.Q1;
                let d1 = self.params.D1;
                let c0 = crate::rng::spec_uniform_poly(
                    crate::rng::chacha_stream(q.seed_rlwe@, 8 * d1 as int),
                    d1 as int,
                    q1,
                );
                let c1 = spec_scatter_rev(q.c1_rlwe@, d1 as nat, self.ld1 as nat, self.dim1 as int);
                let inv = (vstd::arithmetic::power::pow(((q1 + 1) / 2) as int, self.ld1 as nat) % (
                q1 as int)) as u64;
                let init = (
                    crate::ring::spec_poly_scale(c0, inv, q1),
                    crate::ring::spec_poly_scale(c1, inv, q1),
                );
                let expanded = self.spec_expand_upto(
                    init,
                    pp.auto_keys_short@,
                    self.params.Z_PROJ_SHORT,
                    self.params.T_PROJ_SHORT as int,
                    self.ld1 as int,
                );
                forall|i: int|
                    0 <= i < self.dim1 ==> expanded.len() > i && ((#[trigger] r.0@[i]).c0@,
                    r.0@[i].c1@) == expanded[i]
            }),
            r.1@.len() == self.params.NU2,
            forall|i: int|
                0 <= i < r.1@.len() ==> (#[trigger] r.1@[i]).wf() && r.1@[i].q() == self.params.Q1
                    && r.1@[i].dim() == self.params.D1 && r.1@[i].m() == 2 * self.params.T_GSW,
            r.2@.len() == self.nu3,
            forall|i: int|
                0 <= i < r.2@.len() ==> (#[trigger] r.2@[i]).wf() && r.2@[i].q() == self.params.Q1
                    && r.2@[i].dim() == self.params.D1 && r.2@[i].m() == 2 * self.params.T_GSW,
            self.gsw_groups_ok(pp, q, r.1@, r.2@),
    {
        let p = &self.params;
        let d1 = p.D1;
        let q1 = p.Q1;
        proof {
            vstd::arithmetic::power2::lemma_pow2(self.ld1 as nat);
            vstd::arithmetic::logarithm::lemma_log_pow(2, self.ld1 as nat);
        }
        let inv_d1 = crate::arith::inv_pow2_mod(self.ld1 as u64, q1);
        // Short path.
        let c1_rlwe = self.scatter_bitrev(&q.c1_rlwe);
        let seeded_rlwe = crate::rlwe::SeededRlwe {
            seed: copy_seed(&q.seed_rlwe),
            c1: c1_rlwe,
        };
        let ct0 = crate::rlwe::rlwe_recover_from_seeded(&seeded_rlwe);
        let ct0 = ct0.scale(inv_d1);
        let ghost init0 = (ct0.c0@, ct0.c1@);
        let mut cur: Vec<crate::rlwe::Rlwe> = Vec::new();
        cur.push(ct0);
        let mut it: usize = 0;
        proof {
            vstd::arithmetic::power2::lemma2_to64();
            assert(crate::gsw::gsw_view(cur@) =~= Seq::empty().push(init0));
        }
        while it < self.ld1
            invariant
                it <= self.ld1,
                self.wf(),
                p == self.params,
                d1 == p.D1,
                q1 == p.Q1,
                pp.wf_for(self),
                self.ld1 == vstd::arithmetic::logarithm::log(2, p.D1 as int),
                cur@.len() == pow2(it as nat),
                forall|i: int|
                    0 <= i < cur@.len() ==> (#[trigger] cur@[i]).wf() && cur@[i].q() == q1
                        && cur@[i].dim() == d1,
                crate::gsw::gsw_view(cur@) == self.spec_expand_upto(
                    init0,
                    pp.auto_keys_short@,
                    p.Z_PROJ_SHORT,
                    p.T_PROJ_SHORT as int,
                    it as int,
                ),
            decreases self.ld1 - it,
        {
            proof {
                if it < self.ld1 {
                    vstd::arithmetic::power2::lemma_pow2_strictly_increases(
                        it as nat,
                        self.ld1 as nat,
                    );
                }
                vstd::arithmetic::power2::lemma_pow2_adds(it as nat, 1);
                vstd::arithmetic::power2::lemma2_to64();
            }
            let key = &pp.auto_keys_short[it];
            let prev = cur;
            cur = self.expand_iter(it, &prev, key, p.Z_PROJ_SHORT, p.T_PROJ_SHORT);
            proof {
                let kview = pp.auto_keys_short@[it as int];
                let lvl = self.spec_expand_level(
                    crate::gsw::gsw_view(prev@),
                    kview,
                    p.Z_PROJ_SHORT,
                    p.T_PROJ_SHORT as int,
                    it as int,
                );
                assert forall|i: int|
                    0 <= i < 2 * prev@.len() implies crate::gsw::gsw_view(cur@)[i] == lvl[i] by {
                    let j = i / 2;
                    assert(0 <= j < prev@.len());
                    assert(crate::gsw::gsw_view(prev@)[j] == (prev@[j].c0@, prev@[j].c1@));
                    if i % 2 == 0 {
                        assert(i == 2 * j);
                    } else {
                        assert(i == 2 * j + 1);
                    }
                }
                assert(crate::gsw::gsw_view(cur@) =~= lvl);
            }
            it = it + 1;
        }
        let rlwes = take_prefix(&cur, self.dim1);
        proof {
            assert forall|i: int| 0 <= i < self.dim1 implies ((#[trigger] rlwes@[i]).c0@,
            rlwes@[i].c1@) == crate::gsw::gsw_view(cur@)[i] by {}
        }
        // Long path.
        let c1_gsw = self.scatter_bitrev(&q.c1_gsw);
        let seeded_gsw = crate::rlwe::SeededRlwe { seed: copy_seed(&q.seed_gsw), c1: c1_gsw };
        let gt0 = crate::rlwe::rlwe_recover_from_seeded(&seeded_gsw);
        let gt0 = gt0.scale(inv_d1);
        let ghost ginit = (gt0.c0@, gt0.c1@);
        let mut gcur: Vec<crate::rlwe::Rlwe> = Vec::new();
        gcur.push(gt0);
        proof {
            assert(crate::gsw::gsw_view(gcur@) =~= Seq::empty().push(ginit));
        }
        let mut git: usize = 0;
        while git < self.ld1
            invariant
                git <= self.ld1,
                self.wf(),
                p == self.params,
                d1 == p.D1,
                q1 == p.Q1,
                pp.wf_for(self),
                self.ld1 == vstd::arithmetic::logarithm::log(2, p.D1 as int),
                gcur@.len() == pow2(git as nat),
                forall|i: int|
                    0 <= i < gcur@.len() ==> (#[trigger] gcur@[i]).wf() && gcur@[i].q() == q1
                        && gcur@[i].dim() == d1,
                crate::gsw::gsw_view(gcur@) == self.spec_expand_upto(
                    ginit,
                    pp.auto_keys_long@,
                    p.Z_PROJ_LONG,
                    p.T_PROJ_LONG as int,
                    git as int,
                ),
            decreases self.ld1 - git,
        {
            proof {
                if git < self.ld1 {
                    vstd::arithmetic::power2::lemma_pow2_strictly_increases(
                        git as nat,
                        self.ld1 as nat,
                    );
                }
                vstd::arithmetic::power2::lemma_pow2_adds(git as nat, 1);
                vstd::arithmetic::power2::lemma2_to64();
            }
            let key = &pp.auto_keys_long[git];
            let gprev = gcur;
            gcur = self.expand_iter(git, &gprev, key, p.Z_PROJ_LONG, p.T_PROJ_LONG);
            proof {
                let kview = pp.auto_keys_long@[git as int];
                let lvl = self.spec_expand_level(
                    crate::gsw::gsw_view(gprev@),
                    kview,
                    p.Z_PROJ_LONG,
                    p.T_PROJ_LONG as int,
                    git as int,
                );
                assert forall|i: int|
                    0 <= i < 2 * gprev@.len() implies crate::gsw::gsw_view(gcur@)[i] == lvl[i] by {
                    let j = i / 2;
                    assert(0 <= j < gprev@.len());
                    assert(crate::gsw::gsw_view(gprev@)[j] == (gprev@[j].c0@, gprev@[j].c1@));
                    if i % 2 == 0 {
                        assert(i == 2 * j);
                    } else {
                        assert(i == 2 * j + 1);
                    }
                }
                assert(crate::gsw::gsw_view(gcur@) =~= lvl);
            }
            git = git + 1;
        }
        let graw = take_prefix(&gcur, self.gsw_count);
        let ghost gexp = self.spec_expand_upto(
            ginit,
            pp.auto_keys_long@,
            p.Z_PROJ_LONG,
            p.T_PROJ_LONG as int,
            self.ld1 as int,
        );
        proof {
            assert forall|i: int| 0 <= i < self.gsw_count implies ((#[trigger] graw@[i]).c0@,
            graw@[i].c1@) == gexp[i] by {}
        }
        // Promote chunks of T_GSW to GSW ciphertexts.
        let nggroups = p.NU2 + self.nu3;
        let mut gsws: Vec<crate::gsw::Gsw> = Vec::new();
        let mut g: usize = 0;
        proof {
            assert(nggroups * p.T_GSW == self.gsw_count);
        }
        while g < nggroups
            invariant
                g <= nggroups,
                self.wf(),
                p == self.params,
                d1 == p.D1,
                q1 == p.Q1,
                pp.wf_for(self),
                nggroups == p.NU2 + self.nu3,
                nggroups * p.T_GSW == self.gsw_count,
                graw@.len() == self.gsw_count,
                forall|i: int|
                    0 <= i < graw@.len() ==> (#[trigger] graw@[i]).wf() && graw@[i].q() == q1
                        && graw@[i].dim() == d1,
                gexp == self.spec_expand_upto(
                    ginit,
                    pp.auto_keys_long@,
                    p.Z_PROJ_LONG,
                    p.T_PROJ_LONG as int,
                    self.ld1 as int,
                ),
                forall|i: int|
                    0 <= i < self.gsw_count ==> ((#[trigger] graw@[i]).c0@, graw@[i].c1@)
                        == gexp[i],
                gsws@.len() == g,
                forall|i: int|
                    0 <= i < gsws@.len() ==> (#[trigger] gsws@[i]).wf() && gsws@[i].q() == q1
                        && gsws@[i].dim() == d1 && gsws@[i].m() == 2 * p.T_GSW,
                forall|gg: int, j: int|
                    0 <= gg < gsws@.len() && 0 <= j < p.T_GSW ==> ({
                        let hy = crate::gsw::spec_hybrid(
                            crate::gsw::gsw_view(pp.conv_key.cols@),
                            gexp[gg * p.T_GSW + j].0,
                            gexp[gg * p.T_GSW + j].1,
                            p.Z_RLWE_TO_GSW,
                            p.T_RLWE_TO_GSW as int,
                            q1,
                        );
                        ((#[trigger] gsws@[gg].cols@[j]).c0@, gsws@[gg].cols@[j].c1@) == hy && (
                        gsws@[gg].cols@[p.T_GSW + j].c0@, gsws@[gg].cols@[p.T_GSW + j].c1@)
                            == gexp[gg * p.T_GSW + j]
                    }),
            decreases nggroups - g,
        {
            let mut chunk: Vec<crate::rlwe::Rlwe> = Vec::new();
            let mut k: usize = 0;
            proof {
                assert((g + 1) * p.T_GSW <= nggroups * p.T_GSW && 0 <= g * p.T_GSW)
                    by (nonlinear_arith)
                    requires
                        g < nggroups,
                        p.T_GSW >= 1,
                ;
            }
            while k < p.T_GSW
                invariant
                    k <= p.T_GSW,
                    g < nggroups,
                    self.wf(),
                    p == self.params,
                    d1 == p.D1,
                    q1 == p.Q1,
                    (g + 1) * p.T_GSW <= self.gsw_count,
                    0 <= g * p.T_GSW,
                    graw@.len() == self.gsw_count,
                    forall|i: int|
                        0 <= i < graw@.len() ==> (#[trigger] graw@[i]).wf() && graw@[i].q() == q1
                            && graw@[i].dim() == d1,
                    forall|i: int|
                        0 <= i < self.gsw_count ==> ((#[trigger] graw@[i]).c0@, graw@[i].c1@)
                            == gexp[i],
                    chunk@.len() == k,
                    forall|i: int|
                        0 <= i < chunk@.len() ==> (#[trigger] chunk@[i]).wf() && chunk@[i].q()
                            == q1 && chunk@[i].dim() == d1,
                    forall|i: int|
                        0 <= i < chunk@.len() ==> ((#[trigger] chunk@[i]).c0@, chunk@[i].c1@)
                            == gexp[g * p.T_GSW + i],
                decreases p.T_GSW - k,
            {
                proof {
                    assert(g * p.T_GSW + k < (g + 1) * p.T_GSW) by (nonlinear_arith)
                        requires
                            k < p.T_GSW,
                    ;
                }
                chunk.push(graw[g * p.T_GSW + k].duplicate());
                k = k + 1;
            }
            let gsw = crate::keys::rlwe_to_gsw(&pp.conv_key, &chunk, p.Z_RLWE_TO_GSW,
                p.T_RLWE_TO_GSW);
            proof {
                assert(crate::gsw::gsw_view(pp.conv_key.cols@) == crate::gsw::gsw_view(
                    pp.conv_key.cols@,
                ));
                assert forall|j: int| 0 <= j < p.T_GSW implies ({
                    let hy = crate::gsw::spec_hybrid(
                        crate::gsw::gsw_view(pp.conv_key.cols@),
                        gexp[g * p.T_GSW + j].0,
                        gexp[g * p.T_GSW + j].1,
                        p.Z_RLWE_TO_GSW,
                        p.T_RLWE_TO_GSW as int,
                        q1,
                    );
                    ((#[trigger] gsw.cols@[j]).c0@, gsw.cols@[j].c1@) == hy && (gsw.cols@[p.T_GSW
                        + j].c0@, gsw.cols@[p.T_GSW + j].c1@) == gexp[g * p.T_GSW + j]
                }) by {
                    assert(chunk@[j].c0@ == gexp[g * p.T_GSW + j].0);
                }
            }
            gsws.push(gsw);
            g = g + 1;
        }
        // Split into fold and rotate groups.
        let mut gsws_fold: Vec<crate::gsw::Gsw> = Vec::new();
        let mut gsws_rot: Vec<crate::gsw::Gsw> = Vec::new();
        let mut s: usize = 0;
        while s < p.NU2
            invariant
                s <= p.NU2,
                self.wf(),
                p == self.params,
                d1 == p.D1,
                q1 == p.Q1,
                gsws@.len() == p.NU2 + self.nu3,
                forall|i: int|
                    0 <= i < gsws@.len() ==> (#[trigger] gsws@[i]).wf() && gsws@[i].q() == q1
                        && gsws@[i].dim() == d1 && gsws@[i].m() == 2 * p.T_GSW,
                gexp == self.spec_expand_upto(
                    ginit,
                    pp.auto_keys_long@,
                    p.Z_PROJ_LONG,
                    p.T_PROJ_LONG as int,
                    self.ld1 as int,
                ),
                forall|gg: int, j: int|
                    0 <= gg < gsws@.len() && 0 <= j < p.T_GSW ==> ({
                        let hy = crate::gsw::spec_hybrid(
                            crate::gsw::gsw_view(pp.conv_key.cols@),
                            gexp[gg * p.T_GSW + j].0,
                            gexp[gg * p.T_GSW + j].1,
                            p.Z_RLWE_TO_GSW,
                            p.T_RLWE_TO_GSW as int,
                            q1,
                        );
                        ((#[trigger] gsws@[gg].cols@[j]).c0@, gsws@[gg].cols@[j].c1@) == hy && (
                        gsws@[gg].cols@[p.T_GSW + j].c0@, gsws@[gg].cols@[p.T_GSW + j].c1@)
                            == gexp[gg * p.T_GSW + j]
                    }),
                gsws_fold@.len() == s,
                forall|i: int|
                    0 <= i < gsws_fold@.len() ==> (#[trigger] gsws_fold@[i]).wf()
                        && gsws_fold@[i].q() == q1 && gsws_fold@[i].dim() == d1
                        && gsws_fold@[i].m() == 2 * p.T_GSW,
                forall|gg: int, j: int|
                    0 <= gg < gsws_fold@.len() && 0 <= j < 2 * p.T_GSW ==> (
                    #[trigger] gsws_fold@[gg].cols@[j]).c0@ == gsws@[gg].cols@[j].c0@
                        && gsws_fold@[gg].cols@[j].c1@ == gsws@[gg].cols@[j].c1@,
            decreases p.NU2 - s,
        {
            gsws_fold.push(copy_gsw(&gsws[s]));
            s = s + 1;
        }
        let mut s2: usize = 0;
        while s2 < self.nu3
            invariant
                s2 <= self.nu3,
                self.wf(),
                p == self.params,
                d1 == p.D1,
                q1 == p.Q1,
                gsws@.len() == p.NU2 + self.nu3,
                forall|i: int|
                    0 <= i < gsws@.len() ==> (#[trigger] gsws@[i]).wf() && gsws@[i].q() == q1
                        && gsws@[i].dim() == d1 && gsws@[i].m() == 2 * p.T_GSW,
                gexp == self.spec_expand_upto(
                    ginit,
                    pp.auto_keys_long@,
                    p.Z_PROJ_LONG,
                    p.T_PROJ_LONG as int,
                    self.ld1 as int,
                ),
                forall|gg: int, j: int|
                    0 <= gg < gsws@.len() && 0 <= j < p.T_GSW ==> ({
                        let hy = crate::gsw::spec_hybrid(
                            crate::gsw::gsw_view(pp.conv_key.cols@),
                            gexp[gg * p.T_GSW + j].0,
                            gexp[gg * p.T_GSW + j].1,
                            p.Z_RLWE_TO_GSW,
                            p.T_RLWE_TO_GSW as int,
                            q1,
                        );
                        ((#[trigger] gsws@[gg].cols@[j]).c0@, gsws@[gg].cols@[j].c1@) == hy && (
                        gsws@[gg].cols@[p.T_GSW + j].c0@, gsws@[gg].cols@[p.T_GSW + j].c1@)
                            == gexp[gg * p.T_GSW + j]
                    }),
                gsws_rot@.len() == s2,
                forall|i: int|
                    0 <= i < gsws_rot@.len() ==> (#[trigger] gsws_rot@[i]).wf()
                        && gsws_rot@[i].q() == q1 && gsws_rot@[i].dim() == d1 && gsws_rot@[i].m()
                        == 2 * p.T_GSW,
                forall|gg: int, j: int|
                    0 <= gg < gsws_rot@.len() && 0 <= j < 2 * p.T_GSW ==> (
                    #[trigger] gsws_rot@[gg].cols@[j]).c0@ == gsws@[p.NU2 + gg].cols@[j].c0@
                        && gsws_rot@[gg].cols@[j].c1@ == gsws@[p.NU2 + gg].cols@[j].c1@,
            decreases self.nu3 - s2,
        {
            gsws_rot.push(copy_gsw(&gsws[p.NU2 + s2]));
            s2 = s2 + 1;
        }
        proof {
            let t = p.T_GSW as int;
            assert(gexp.len() == pow2(self.ld1 as nat));
            assert((p.NU2 + self.nu3) * t == self.gsw_count as int);
            assert forall|g: int, j: int|
                #![trigger g * t + j]
                0 <= g < p.NU2 + self.nu3 && 0 <= j < t implies g * t + j < gexp.len() by {
                assert(g * t + j < (p.NU2 + self.nu3) * t) by (nonlinear_arith)
                    requires
                        0 <= g < p.NU2 + self.nu3,
                        0 <= j < t,
                ;
            }
            // the chained expansion in the ensures names the same value
            let c0s = crate::rng::spec_uniform_poly(
                crate::rng::chacha_stream(q.seed_gsw@, 8 * d1 as int),
                d1 as int,
                q1,
            );
            let c1s = spec_scatter_rev(q.c1_gsw@, d1 as nat, self.ld1 as nat, self.gsw_count as int);
            let invs = (vstd::arithmetic::power::pow(((q1 + 1) / 2) as int, self.ld1 as nat) % (
            q1 as int)) as u64;
            assert(ginit.0 == crate::ring::spec_poly_scale(c0s, invs, q1));
            assert(ginit.1 == crate::ring::spec_poly_scale(c1s, invs, q1));
            assert(gexp == self.spec_expand_upto(
                (
                    crate::ring::spec_poly_scale(c0s, invs, q1),
                    crate::ring::spec_poly_scale(c1s, invs, q1),
                ),
                pp.auto_keys_long@,
                p.Z_PROJ_LONG,
                p.T_PROJ_LONG as int,
                self.ld1 as int,
            ));
            assert forall|g: int, j: int|
                #![trigger gsws_fold@[g].cols@[j]]
                0 <= g < p.NU2 && 0 <= j < t implies ({
                let hy = crate::gsw::spec_hybrid(
                    crate::gsw::gsw_view(pp.conv_key.cols@),
                    gexp[g * t + j].0,
                    gexp[g * t + j].1,
                    p.Z_RLWE_TO_GSW,
                    p.T_RLWE_TO_GSW as int,
                    q1,
                );
                gexp.len() > g * t + j && (gsws_fold@[g].cols@[j].c0@, gsws_fold@[g].cols@[j].c1@)
                    == hy && (gsws_fold@[g].cols@[t + j].c0@, gsws_fold@[g].cols@[t + j].c1@)
                    == gexp[g * t + j]
            }) by {
                assert(g * t + j < (p.NU2 + self.nu3) * t && 0 <= g * t) by (nonlinear_arith)
                    requires
                        0 <= g < p.NU2,
                        0 <= j < t,
                        0 <= self.nu3,
                ;
                assert(gsws@[g].cols@[j].c0@ == gsws@[g].cols@[j].c0@);
                assert(gsws@[g].cols@[t + j].c0@ == gsws@[g].cols@[t + j].c0@);
                assert(gsws_fold@[g].cols@[t + j].c0@ == gsws_fold@[g].cols@[t + j].c0@);
            }
            assert forall|g: int, j: int|
                #![trigger gsws_rot@[g].cols@[j]]
                0 <= g < self.nu3 && 0 <= j < t implies ({
                let gg = p.NU2 + g;
                let hy = crate::gsw::spec_hybrid(
                    crate::gsw::gsw_view(pp.conv_key.cols@),
                    gexp[gg * t + j].0,
                    gexp[gg * t + j].1,
                    p.Z_RLWE_TO_GSW,
                    p.T_RLWE_TO_GSW as int,
                    q1,
                );
                gexp.len() > gg * t + j && (gsws_rot@[g].cols@[j].c0@, gsws_rot@[g].cols@[j].c1@)
                    == hy && (gsws_rot@[g].cols@[t + j].c0@, gsws_rot@[g].cols@[t + j].c1@)
                    == gexp[gg * t + j]
            }) by {
                assert((p.NU2 + g) * t + j < (p.NU2 + self.nu3) * t && 0 <= (p.NU2 + g) * t)
                    by (nonlinear_arith)
                    requires
                        0 <= g < self.nu3,
                        0 <= j < t,
                        0 <= p.NU2,
                ;
                assert(gsws@[p.NU2 + g].cols@[j].c0@ == gsws@[p.NU2 + g].cols@[j].c0@);
                assert(gsws@[p.NU2 + g].cols@[t + j].c0@ == gsws@[p.NU2 + g].cols@[t + j].c0@);
                assert(gsws_rot@[g].cols@[t + j].c0@ == gsws_rot@[g].cols@[t + j].c0@);
            }
        }
        proof {
            let t2 = self.params.T_GSW as int;
            let c0x = crate::rng::spec_uniform_poly(
                crate::rng::chacha_stream(q.seed_gsw@, 8 * self.params.D1 as int),
                self.params.D1 as int,
                self.params.Q1,
            );
            let c1x = spec_scatter_rev(
                q.c1_gsw@,
                self.params.D1 as nat,
                self.ld1 as nat,
                self.gsw_count as int,
            );
            let invx = (vstd::arithmetic::power::pow(
                ((self.params.Q1 + 1) / 2) as int,
                self.ld1 as nat,
            ) % (self.params.Q1 as int)) as u64;
            let initx = (
                crate::ring::spec_poly_scale(c0x, invx, self.params.Q1),
                crate::ring::spec_poly_scale(c1x, invx, self.params.Q1),
            );
            let expandedx = self.spec_expand_upto(
                initx,
                pp.auto_keys_long@,
                self.params.Z_PROJ_LONG,
                self.params.T_PROJ_LONG as int,
                self.ld1 as int,
            );
            assert(expandedx == gexp);
            assert(expandedx.len() == pow2(self.ld1 as nat));
            assert forall|g: int, j: int|
                #![trigger gsws_fold@[g].cols@[j]]
                0 <= g < self.params.NU2 && 0 <= j < t2 implies expandedx.len() > g * t2 + j by {
                assert(g * t2 + j < (self.params.NU2 + self.nu3) * t2) by (nonlinear_arith)
                    requires
                        0 <= g < self.params.NU2,
                        0 <= j < t2,
                        0 <= self.nu3,
                ;
            }
            assert forall|g: int, j: int|
                #![trigger gsws_rot@[g].cols@[j]]
                0 <= g < self.nu3 && 0 <= j < t2 implies expandedx.len() > (self.params.NU2 + g)
                    * t2 + j by {
                assert((self.params.NU2 + g) * t2 + j < (self.params.NU2 + self.nu3) * t2)
                    by (nonlinear_arith)
                    requires
                        0 <= g < self.nu3,
                        0 <= j < t2,
                        0 <= self.params.NU2,
                ;
            }
            reveal(RespireImpl::gsw_groups_ok);
            assert(self.gsw_groups_ok(pp, q, gsws_fold@, gsws_rot@));
        }
        (rlwes, gsws_fold, gsws_rot)
    }
}

/// One fold level: entry `j` of the halved list selects between entries
/// `j` and `half + j` on the level's encrypted bit.
pub open spec fn spec_fold_level(
    cur: Seq<(Seq<u64>, Seq<u64>)>,
    g: Seq<(Seq<u64>, Seq<u64>)>,
    z: u64,
    t: int,
    q: u64,
) -> Seq<(Seq<u64>, Seq<u64>)> {
    Seq::new(
        (cur.len() / 2) as nat,
        |j: int| crate::gsw::spec_select(cur[j], cur[cur.len() as int / 2 + j], g, z, t, q),
    )
}

/// The first `k` fold levels applied in order.
pub open spec fn spec_fold_upto(
    init: Seq<(Seq<u64>, Seq<u64>)>,
    gs: Seq<Seq<(Seq<u64>, Seq<u64>)>>,
    z: u64,
    t: int,
    q: u64,
    k: int,
) -> Seq<(Seq<u64>, Seq<u64>)>
    decreases k,
{
    if k <= 0 {
        init
    } else {
        spec_fold_level(spec_fold_upto(init, gs, z, t, q, k - 1), gs[k - 1], z, t, q)
    }
}

/// The running key-switch dot product: the componentwise sum of the
/// first `n` products `rows[j] * digs[j]`.
pub open spec fn spec_key_dot(
    rows: Seq<Seq<u64>>,
    digs: Seq<Seq<u64>>,
    q: u64,
    d: nat,
    n: int,
) -> Seq<u64>
    decreases n,
{
    if n <= 0 {
        Seq::new(d, |i: int| 0u64)
    } else {
        crate::ring::spec_poly_add(
            spec_key_dot(rows, digs, q, d, n - 1),
            crate::ring::spec_poly_mul(rows[n - 1], digs[n - 1], q),
            q,
        )
    }
}

/// A key-switch dot product has the ring dimension.
pub proof fn lemma_key_dot_len(rows: Seq<Seq<u64>>, digs: Seq<Seq<u64>>, q: u64, d: nat, n: int)
    ensures
        spec_key_dot(rows, digs, q, d, n).len() == d,
    decreases n,
{
    if n > 0 {
        lemma_key_dot_len(rows, digs, q, d, n - 1);
    }
}

/// The running first-dimension inner product: the componentwise sum of
/// the first `n` plaintext-ciphertext products `cts[i] * db[i]`.
pub open spec fn spec_inner_prod(
    cts: Seq<(Seq<u64>, Seq<u64>)>,
    db: Seq<Seq<u64>>,
    q: u64,
    d: nat,
    n: int,
) -> (Seq<u64>, Seq<u64>)
    decreases n,
{
    if n <= 0 {
        (Seq::new(d, |i: int| 0u64), Seq::new(d, |i: int| 0u64))
    } else {
        let prev = spec_inner_prod(cts, db, q, d, n - 1);
        (
            crate::ring::spec_poly_add(prev.0, crate::ring::spec_poly_mul(cts[n - 1].0, db[n - 1], q), q),
            crate::ring::spec_poly_add(prev.1, crate::ring::spec_poly_mul(cts[n - 1].1, db[n - 1], q), q),
        )
    }
}

impl RespireImpl {
    /// First-dimension inner product: output `j` is exactly
    /// `sum over i of rlwes[i] * db[i, j]` (plaintext-ciphertext ring
    /// products, database streamed contiguously at fixed `j`).
    pub fn answer_first_dim(&self, db: &Database, rlwes: &Vec<crate::rlwe::Rlwe>) -> (r: Vec<
        crate::rlwe::Rlwe,
    >)
        requires
            self.wf(),
            db.wf_for(self),
            rlwes@.len() == self.dim1,
            forall|i: int|
                0 <= i < rlwes@.len() ==> (#[trigger] rlwes@[i]).wf() && rlwes@[i].q()
                    == self.params.Q1 && rlwes@[i].dim() == self.params.D1,
        ensures
            r@.len() == self.dim2,
            forall|j: int|
                0 <= j < r@.len() ==> (#[trigger] r@[j]).wf() && r@[j].q() == self.params.Q1
                    && r@[j].dim() == self.params.D1,
            forall|j: int|
                0 <= j < r@.len() ==> ({
                    let col = Seq::new(
                        self.dim1 as nat,
                        |i: int| db.elems@[j * self.dim1 + i]@,
                    );
                    let prod = spec_inner_prod(
                        crate::gsw::gsw_view(rlwes@),
                        col,
                        self.params.Q1,
                        self.params.D1 as nat,
                        self.dim1 as int,
                    );
                    (#[trigger] r@[j]).c0@ == prod.0 && r@[j].c1@ == prod.1
                }),
    {
        let p = &self.params;
        let d1 = p.D1;
        let q1 = p.Q1;
        let mut out: Vec<crate::rlwe::Rlwe> = Vec::new();
        let mut j: usize = 0;
        proof {
            lemma_db_index_bounds(self.dim1 as int, self.dim2 as int, self.pack_db as int);
        }
        while j < self.dim2
            invariant
                j <= self.dim2,
                self.wf(),
                p == self.params,
                d1 == p.D1,
                q1 == p.Q1,
                db.wf_for(self),
                rlwes@.len() == self.dim1,
                forall|i: int|
                    0 <= i < rlwes@.len() ==> (#[trigger] rlwes@[i]).wf() && rlwes@[i].q() == q1
                        && rlwes@[i].dim() == d1,
                forall|j2: int, i1: int|
                    0 <= i1 < self.dim1 && 0 <= j2 < self.dim2 ==> 0 <= #[trigger] (j2 * self.dim1
                        + i1) < self.dim2 * self.dim1,
                out@.len() == j,
                forall|k: int|
                    0 <= k < out@.len() ==> (#[trigger] out@[k]).wf() && out@[k].q() == q1
                        && out@[k].dim() == d1,
                forall|k: int|
                    0 <= k < out@.len() ==> ({
                        let colk = Seq::new(
                            self.dim1 as nat,
                            |i: int| db.elems@[k * self.dim1 + i]@,
                        );
                        let prod = spec_inner_prod(
                            crate::gsw::gsw_view(rlwes@),
                            colk,
                            q1,
                            d1 as nat,
                            self.dim1 as int,
                        );
                        (#[trigger] out@[k]).c0@ == prod.0 && out@[k].c1@ == prod.1
                    }),
            decreases self.dim2 - j,
        {
            let ghost col = Seq::new(self.dim1 as nat, |i: int| db.elems@[j * self.dim1 + i]@);
            let mut acc = crate::rlwe::Rlwe::zero(d1, q1);
            proof {
                let z = spec_inner_prod(
                    crate::gsw::gsw_view(rlwes@),
                    col,
                    q1,
                    d1 as nat,
                    0,
                );
                assert(acc.c0@ =~= z.0);
                assert(acc.c1@ =~= z.1);
            }
            let mut i: usize = 0;
            while i < self.dim1
                invariant
                    i <= self.dim1,
                    j < self.dim2,
                    self.wf(),
                    p == self.params,
                    d1 == p.D1,
                    q1 == p.Q1,
                    db.wf_for(self),
                    col == Seq::new(self.dim1 as nat, |k: int| db.elems@[j * self.dim1 + k]@),
                    rlwes@.len() == self.dim1,
                    forall|k: int|
                        0 <= k < rlwes@.len() ==> (#[trigger] rlwes@[k]).wf() && rlwes@[k].q()
                            == q1 && rlwes@[k].dim() == d1,
                    forall|j2: int, i1: int|
                        0 <= i1 < self.dim1 && 0 <= j2 < self.dim2 ==> 0 <= #[trigger] (j2
                            * self.dim1 + i1) < self.dim2 * self.dim1,
                    acc.wf(),
                    acc.q() == q1,
                    acc.dim() == d1,
                    acc.c0@ == spec_inner_prod(
                        crate::gsw::gsw_view(rlwes@),
                        col,
                        q1,
                        d1 as nat,
                        i as int,
                    ).0,
                    acc.c1@ == spec_inner_prod(
                        crate::gsw::gsw_view(rlwes@),
                        col,
                        q1,
                        d1 as nat,
                        i as int,
                    ).1,
                decreases self.dim1 - i,
            {
                proof {
                    vstd::arithmetic::mul::lemma_mul_is_commutative(
                        self.dim1 as int,
                        self.dim2 as int,
                    );
                    assert(j * self.dim1 + i < self.dim1 * self.dim2 && 0 <= j * self.dim1)
                        by (nonlinear_arith)
                        requires
                            j < self.dim2,
                            i < self.dim1,
                            self.dim1 >= 1,
                    ;
                }
                let elem = &db.elems[j * self.dim1 + i];
                let p0 = rlwes[i].c0.mul(elem);
                let p1 = rlwes[i].c1.mul(elem);
                acc = crate::rlwe::Rlwe { c0: acc.c0.add(&p0), c1: acc.c1.add(&p1) };
                i = i + 1;
                proof {
                    assert(crate::gsw::gsw_view(rlwes@)[i - 1].0 == rlwes@[i - 1].c0@);
                    assert(col[i - 1] == db.elems@[j * self.dim1 + (i - 1)]@);
                }
            }
            out.push(acc);
            j = j + 1;
        }
        out
    }

    /// Fold: `NU2` halvings of the first-dimension list, each level
    /// selecting between the two halves on one encrypted index bit.  The
    /// result is exactly the `NU2`-level select tree applied to the list.
    pub fn answer_fold(&self, list: Vec<crate::rlwe::Rlwe>, gsws_fold: &Vec<crate::gsw::Gsw>)
        -> (r: crate::rlwe::Rlwe)
        requires
            self.wf(),
            list@.len() == self.dim2,
            forall|i: int|
                0 <= i < list@.len() ==> (#[trigger] list@[i]).wf() && list@[i].q()
                    == self.params.Q1 && list@[i].dim() == self.params.D1,
            gsws_fold@.len() == self.params.NU2,
            forall|i: int|
                0 <= i < gsws_fold@.len() ==> (#[trigger] gsws_fold@[i]).wf() && gsws_fold@[i].q()
                    == self.params.Q1 && gsws_fold@[i].dim() == self.params.D1
                    && gsws_fold@[i].m() == 2 * self.params.T_GSW,
        ensures
            r.wf(),
            r.q() == self.params.Q1,
            r.dim() == self.params.D1,
            ({
                let folded = spec_fold_upto(
                    crate::gsw::gsw_view(list@),
                    Seq::new(
                        gsws_fold@.len(),
                        |l: int| crate::gsw::gsw_view(gsws_fold@[l].cols@),
                    ),
                    self.params.Z_GSW,
                    self.params.T_GSW as int,
                    self.params.Q1,
                    self.params.NU2 as int,
                );
                folded.len() >= 1 && r.c0@ == folded[0].0 && r.c1@ == folded[0].1
            }),
    {
        let p = &self.params;
        let q1 = p.Q1;
        let d1 = p.D1;
        let ghost init = crate::gsw::gsw_view(list@);
        let ghost gviews = Seq::new(
            gsws_fold@.len(),
            |l: int| crate::gsw::gsw_view(gsws_fold@[l].cols@),
        );
        let mut cur = list;
        let mut lvl: usize = 0;
        proof {
            vstd::arithmetic::power2::lemma2_to64();
            if p.NU2 < 16 {
                vstd::arithmetic::power2::lemma_pow2_strictly_increases(p.NU2 as nat, 16);
            }
        }
        while lvl < p.NU2
            invariant
                lvl <= p.NU2,
                self.wf(),
                p == self.params,
                d1 == p.D1,
                q1 == p.Q1,
                cur@.len() <= 0x1_0000,
                cur@.len() == pow2((p.NU2 - lvl) as nat),
                forall|i: int|
                    0 <= i < cur@.len() ==> (#[trigger] cur@[i]).wf() && cur@[i].q() == q1
                        && cur@[i].dim() == d1,
                gsws_fold@.len() == p.NU2,
                forall|i: int|
                    0 <= i < gsws_fold@.len() ==> (#[trigger] gsws_fold@[i]).wf()
                        && gsws_fold@[i].q() == q1 && gsws_fold@[i].dim() == d1
                        && gsws_fold@[i].m() == 2 * p.T_GSW,
                gviews == Seq::new(
                    gsws_fold@.len(),
                    |l: int| crate::gsw::gsw_view(gsws_fold@[l].cols@),
                ),
                crate::gsw::gsw_view(cur@) == spec_fold_upto(
                    init,
                    gviews,
                    p.Z_GSW,
                    p.T_GSW as int,
                    q1,
                    lvl as int,
                ),
            decreases p.NU2 - lvl,
        {
            proof {
                vstd::arithmetic::power2::lemma_pow2_adds((p.NU2 - lvl - 1) as nat, 1);
                vstd::arithmetic::power2::lemma2_to64();
                vstd::arithmetic::power2::lemma_pow2_pos((p.NU2 - lvl - 1) as nat);
            }
            let half = cur.len() / 2;
            let mut next: Vec<crate::rlwe::Rlwe> = Vec::new();
            let mut fj: usize = 0;
            while fj < half
                invariant
                    fj <= half,
                    lvl < p.NU2,
                    self.wf(),
                    p == self.params,
                    d1 == p.D1,
                    q1 == p.Q1,
                    cur@.len() <= 0x1_0000,
                    2 * half == cur@.len(),
                    forall|i: int|
                        0 <= i < cur@.len() ==> (#[trigger] cur@[i]).wf() && cur@[i].q() == q1
                            && cur@[i].dim() == d1,
                    gsws_fold@.len() == p.NU2,
                    forall|i: int|
                        0 <= i < gsws_fold@.len() ==> (#[trigger] gsws_fold@[i]).wf()
                            && gsws_fold@[i].q() == q1 && gsws_fold@[i].dim() == d1
                            && gsws_fold@[i].m() == 2 * p.T_GSW,
                    next@.len() == fj,
                    forall|i: int|
                        0 <= i < next@.len() ==> (#[trigger] next@[i]).wf() && next@[i].q() == q1
                            && next@[i].dim() == d1,
                    forall|i: int|
                        0 <= i < next@.len() ==> ({
                            let sel = crate::gsw::spec_select(
                                (cur@[i].c0@, cur@[i].c1@),
                                (cur@[half + i].c0@, cur@[half + i].c1@),
                                crate::gsw::gsw_view(gsws_fold@[lvl as int].cols@),
                                p.Z_GSW,
                                p.T_GSW as int,
                                q1,
                            );
                            (#[trigger] next@[i]).c0@ == sel.0 && next@[i].c1@ == sel.1
                        }),
                decreases half - fj,
            {
                proof {
                    assert(half + fj < cur@.len());
                }
                let sel = crate::gsw::select_hom(
                    &cur[fj],
                    &cur[half + fj],
                    &gsws_fold[lvl],
                    p.Z_GSW,
                    p.T_GSW,
                );
                next.push(sel);
                fj = fj + 1;
                proof {
                    assert(crate::gsw::gsw_view(cur@)[fj - 1] == (
                        cur@[fj - 1].c0@,
                        cur@[fj - 1].c1@,
                    ));
                    assert(crate::gsw::gsw_view(cur@)[half + fj - 1] == (
                        cur@[half + fj - 1].c0@,
                        cur@[half + fj - 1].c1@,
                    ));
                }
            }
            proof {
                assert(crate::gsw::gsw_view(next@) =~= spec_fold_level(
                    crate::gsw::gsw_view(cur@),
                    crate::gsw::gsw_view(gsws_fold@[lvl as int].cols@),
                    p.Z_GSW,
                    p.T_GSW as int,
                    q1,
                ));
            }
            cur = next;
            lvl = lvl + 1;
        }
        proof {
            assert(cur@.len() == 1);
            assert(crate::gsw::gsw_view(cur@)[0] == (cur@[0].c0@, cur@[0].c1@));
        }
        cur[0].duplicate()
    }

    /// The first `k` rotate-select iterations: iteration `it` selects
    /// between the current ciphertext and its rotation by
    /// `X^(-2^(nu3-1-it))`, steered by the `it`-th encrypted bit.
    pub open spec fn spec_rotate_upto(
        &self,
        init: (Seq<u64>, Seq<u64>),
        gs: Seq<Seq<(Seq<u64>, Seq<u64>)>>,
        k: int,
    ) -> (Seq<u64>, Seq<u64>)
        decreases k,
    {
        if k <= 0 {
            init
        } else {
            let prev = self.spec_rotate_upto(init, gs, k - 1);
            let rot = pow2((self.nu3 - k) as nat) as int;
            let d = self.params.D1 as int;
            let rotated = (
                crate::ring::spec_mul_x_pow(prev.0, 2 * d - rot, self.params.Q1),
                crate::ring::spec_mul_x_pow(prev.1, 2 * d - rot, self.params.Q1),
            );
            crate::gsw::spec_select(
                prev,
                rotated,
                gs[k - 1],
                self.params.Z_GSW,
                self.params.T_GSW as int,
                self.params.Q1,
            )
        }
    }

    /// Rotate-select: `nu3` iterations; iteration `it` conditionally
    /// multiplies by `X^(-2^(nu3-1-it))`, steered by one encrypted bit.
    /// The result is exactly the `nu3`-fold rotate-select of the input.
    pub fn answer_rotate(&self, ct: &crate::rlwe::Rlwe, gsws_rot: &Vec<crate::gsw::Gsw>) -> (r:
        crate::rlwe::Rlwe)
        requires
            self.wf(),
            ct.wf(),
            ct.q() == self.params.Q1,
            ct.dim() == self.params.D1,
            gsws_rot@.len() == self.nu3,
            forall|i: int|
                0 <= i < gsws_rot@.len() ==> (#[trigger] gsws_rot@[i]).wf() && gsws_rot@[i].q()
                    == self.params.Q1 && gsws_rot@[i].dim() == self.params.D1 && gsws_rot@[i].m()
                    == 2 * self.params.T_GSW,
        ensures
            r.wf(),
            r.q() == self.params.Q1,
            r.dim() == self.params.D1,
            ({
                let rotated = self.spec_rotate_upto(
                    (ct.c0@, ct.c1@),
                    Seq::new(
                        gsws_rot@.len(),
                        |l: int| crate::gsw::gsw_view(gsws_rot@[l].cols@),
                    ),
                    self.nu3 as int,
                );
                r.c0@ == rotated.0 && r.c1@ == rotated.1
            }),
    {
        let p = &self.params;
        let d1 = p.D1;
        let q1 = p.Q1;
        let ghost gviews = Seq::new(
            gsws_rot@.len(),
            |l: int| crate::gsw::gsw_view(gsws_rot@[l].cols@),
        );
        let mut cur = ct.duplicate();
        let mut it: usize = 0;
        while it < self.nu3
            invariant
                it <= self.nu3,
                self.wf(),
                p == self.params,
                d1 == p.D1,
                q1 == p.Q1,
                ct.wf(),
                ct.q() == q1,
                ct.dim() == d1,
                cur.wf(),
                cur.q() == q1,
                cur.dim() == d1,
                gsws_rot@.len() == self.nu3,
                forall|i: int|
                    0 <= i < gsws_rot@.len() ==> (#[trigger] gsws_rot@[i]).wf()
                        && gsws_rot@[i].q() == q1 && gsws_rot@[i].dim() == d1 && gsws_rot@[i].m()
                        == 2 * p.T_GSW,
                gviews == Seq::new(
                    gsws_rot@.len(),
                    |l: int| crate::gsw::gsw_view(gsws_rot@[l].cols@),
                ),
                (cur.c0@, cur.c1@) == self.spec_rotate_upto(
                    (ct.c0@, ct.c1@),
                    gviews,
                    it as int,
                ),
            decreases self.nu3 - it,
        {
            proof {
                vstd::arithmetic::power2::lemma_pow2_strictly_increases(
                    (self.nu3 - 1 - it) as nat,
                    self.nu3 as nat,
                );
                assert(self.pack_db <= d1) by (nonlinear_arith)
                    requires
                        self.pack_db * p.D3 == d1,
                        p.D3 >= 1,
                        self.pack_db >= 0,
                ;
            }
            let rot = pow2_u64((self.nu3 - 1 - it) as u64) as usize;
            let rotated = cur.mul_x_pow(2 * d1 - rot);
            cur = crate::gsw::select_hom(&cur, &rotated, &gsws_rot[it], p.Z_GSW, p.T_GSW);
            it = it + 1;
        }
        cur
    }

    /// One projection step under automorphism key `key`:
    /// `c + auto_hom(key, c)`, componentwise on the two rows.
    pub open spec fn spec_proj_step(
        &self,
        c: (Seq<u64>, Seq<u64>),
        key: crate::keys::AutoKey,
    ) -> (Seq<u64>, Seq<u64>) {
        let q = self.params.Q1;
        let a = crate::keys::spec_auto_hom(
            c,
            key,
            self.params.Z_PROJ_LONG,
            self.params.T_PROJ_LONG as int,
            q,
            self.params.D1 as nat,
        );
        (
            crate::ring::spec_poly_add(c.0, a.0, q),
            crate::ring::spec_poly_add(c.1, a.1, q),
        )
    }

    /// The first `k` projection steps applied in order, starting from the
    /// rescaled input.
    pub open spec fn spec_proj_upto(
        &self,
        init: (Seq<u64>, Seq<u64>),
        keys: Seq<crate::keys::AutoKey>,
        k: int,
    ) -> (Seq<u64>, Seq<u64>)
        decreases k,
    {
        if k <= 0 {
            init
        } else {
            self.spec_proj_step(self.spec_proj_upto(init, keys, k - 1), keys[k - 1])
        }
    }

    /// Projection: rescale by `2^(-nu3)` and run `nu3` one-sided
    /// expansion steps `c <- c + auto(c)`, annihilating the coefficients
    /// that do not carry the selected record.  The result is exactly the
    /// `nu3`-step projection of the rescaled input.
    pub fn answer_project(&self, pp: &RespirePublicParams, ct: &crate::rlwe::Rlwe) -> (r:
        crate::rlwe::Rlwe)
        requires
            self.wf(),
            pp.wf_for(self),
            ct.wf(),
            ct.q() == self.params.Q1,
            ct.dim() == self.params.D1,
        ensures
            r.wf(),
            r.q() == self.params.Q1,
            r.dim() == self.params.D1,
            ({
                let q = self.params.Q1;
                let inv = (vstd::arithmetic::power::pow(((q + 1) / 2) as int, self.nu3 as nat) % (
                q as int)) as u64;
                let init = (
                    crate::ring::spec_poly_scale(ct.c0@, inv, q),
                    crate::ring::spec_poly_scale(ct.c1@, inv, q),
                );
                let projected = self.spec_proj_upto(init, pp.auto_keys_long@, self.nu3 as int);
                r.c0@ == projected.0 && r.c1@ == projected.1
            }),
    {
        let p = &self.params;
        let d1 = p.D1;
        let q1 = p.Q1;
        let inv = crate::arith::inv_pow2_mod(self.nu3 as u64, q1);
        let mut cur = ct.scale(inv);
        let ghost init = (cur.c0@, cur.c1@);
        let mut it: usize = 0;
        proof {
            vstd::arithmetic::power2::lemma_pow2(self.ld1 as nat);
            vstd::arithmetic::logarithm::lemma_log_pow(2, self.ld1 as nat);
            lemma_nu3_le_ld1(self.pack_db as nat, self.params.D1 as nat, self.nu3 as nat,
                self.ld1 as nat, self.params.D3 as nat);
        }
        while it < self.nu3
            invariant
                it <= self.nu3,
                self.wf(),
                p == self.params,
                d1 == p.D1,
                q1 == p.Q1,
                pp.wf_for(self),
                self.nu3 <= self.ld1,
                self.ld1 == vstd::arithmetic::logarithm::log(2, p.D1 as int),
                cur.wf(),
                cur.q() == q1,
                cur.dim() == d1,
                (cur.c0@, cur.c1@) == self.spec_proj_upto(init, pp.auto_keys_long@, it as int),
            decreases self.nu3 - it,
        {
            let a = crate::keys::auto_hom(&pp.auto_keys_long[it], &cur, p.Z_PROJ_LONG,
                p.T_PROJ_LONG);
            cur = cur.add(&a);
            it = it + 1;
        }
        cur
    }

    /// The expanded short-path list: the seeded mask recovered from the
    /// query, rescaled by `D1^(-1)`, run through every expansion level.
    pub open spec fn spec_expanded_short(&self, pp: &RespirePublicParams, q: &QueryOne) -> Seq<
        (Seq<u64>, Seq<u64>),
    > {
        let q1 = self.params.Q1;
        let d1 = self.params.D1;
        let c0 = crate::rng::spec_uniform_poly(
            crate::rng::chacha_stream(q.seed_rlwe@, 8 * d1 as int),
            d1 as int,
            q1,
        );
        let c1 = spec_scatter_rev(q.c1_rlwe@, d1 as nat, self.ld1 as nat, self.dim1 as int);
        let inv = (vstd::arithmetic::power::pow(((q1 + 1) / 2) as int, self.ld1 as nat) % (
        q1 as int)) as u64;
        self.spec_expand_upto(
            (crate::ring::spec_poly_scale(c0, inv, q1), crate::ring::spec_poly_scale(c1, inv, q1)),
            pp.auto_keys_short@,
            self.params.Z_PROJ_SHORT,
            self.params.T_PROJ_SHORT as int,
            self.ld1 as int,
        )
    }

    /// The expanded long-path list, before GSW promotion.
    pub open spec fn spec_expanded_long(&self, pp: &RespirePublicParams, q: &QueryOne) -> Seq<
        (Seq<u64>, Seq<u64>),
    > {
        let q1 = self.params.Q1;
        let d1 = self.params.D1;
        let c0 = crate::rng::spec_uniform_poly(
            crate::rng::chacha_stream(q.seed_gsw@, 8 * d1 as int),
            d1 as int,
            q1,
        );
        let c1 = spec_scatter_rev(q.c1_gsw@, d1 as nat, self.ld1 as nat, self.gsw_count as int);
        let inv = (vstd::arithmetic::power::pow(((q1 + 1) / 2) as int, self.ld1 as nat) % (
        q1 as int)) as u64;
        self.spec_expand_upto(
            (crate::ring::spec_poly_scale(c0, inv, q1), crate::ring::spec_poly_scale(c1, inv, q1)),
            pp.auto_keys_long@,
            self.params.Z_PROJ_LONG,
            self.params.T_PROJ_LONG as int,
            self.ld1 as int,
        )
    }

    /// The columns of promoted GSW group `g`: the first `t_gsw` columns
    /// are the conversion key applied to the group's expansion outputs,
    /// the rest are those outputs themselves.
    pub open spec fn spec_gsw_group(&self, pp: &RespirePublicParams, q: &QueryOne, g: int) -> Seq<
        (Seq<u64>, Seq<u64>),
    > {
        let t = self.params.T_GSW as int;
        let expanded = self.spec_expanded_long(pp, q);
        Seq::new(
            (2 * t) as nat,
            |j: int|
                if j < t {
                    crate::gsw::spec_hybrid(
                        crate::gsw::gsw_view(pp.conv_key.cols@),
                        expanded[g * t + j].0,
                        expanded[g * t + j].1,
                        self.params.Z_RLWE_TO_GSW,
                        self.params.T_RLWE_TO_GSW as int,
                        self.params.Q1,
                    )
                } else {
                    expanded[g * t + (j - t)]
                },
        )
    }

    /// What serving one query computes: the first-dimension inner
    /// products of the expanded query with the database columns, folded
    /// by the select tree, rotate-selected, rescaled and projected.
    #[verifier::opaque]
    pub open spec fn spec_answer_one(
        &self,
        pp: &RespirePublicParams,
        db: &Database,
        q: &QueryOne,
    ) -> (Seq<u64>, Seq<u64>) {
        let q1 = self.params.Q1;
        let d1 = self.params.D1;
        let rlwes = Seq::new(self.dim1 as nat, |i: int| self.spec_expanded_short(pp, q)[i]);
        let firstdim = Seq::new(
            self.dim2 as nat,
            |j: int|
                spec_inner_prod(
                    rlwes,
                    Seq::new(self.dim1 as nat, |i: int| db.elems@[j * self.dim1 + i]@),
                    q1,
                    d1 as nat,
                    self.dim1 as int,
                ),
        );
        let gfold = Seq::new(self.params.NU2 as nat, |l: int| self.spec_gsw_group(pp, q, l));
        let grot = Seq::new(
            self.nu3 as nat,
            |l: int| self.spec_gsw_group(pp, q, self.params.NU2 + l),
        );
        let folded = spec_fold_upto(
            firstdim,
            gfold,
            self.params.Z_GSW,
            self.params.T_GSW as int,
            q1,
            self.params.NU2 as int,
        )[0];
        let rotated = self.spec_rotate_upto(folded, grot, self.nu3 as int);
        let inv = (vstd::arithmetic::power::pow(((q1 + 1) / 2) as int, self.nu3 as nat) % (
        q1 as int)) as u64;
        self.spec_proj_upto(
            (
                crate::ring::spec_poly_scale(rotated.0, inv, q1),
                crate::ring::spec_poly_scale(rotated.1, inv, q1),
            ),
            pp.auto_keys_long@,
            self.nu3 as int,
        )
    }

    /// Serves one query: expansion, first-dimension inner product, fold,
    /// rotate-select, projection.  The result is exactly the composition
    /// of those stages on the query and the database.
    pub fn answer_one(&self, pp: &RespirePublicParams, db: &Database, q: &QueryOne) -> (r:
        crate::rlwe::Rlwe)
        requires
            self.wf(),
            pp.wf_for(self),
            db.wf_for(self),
            q.wf_for(self),
        ensures
            r.wf(),
            r.q() == self.params.Q1,
            r.dim() == self.params.D1,
            (r.c0@, r.c1@) == self.spec_answer_one(pp, db, q),
    {
        let (rlwes, gsws_fold, gsws_rot) = self.answer_query_unpack(pp, q);
        let firstdim = self.answer_first_dim(db, &rlwes);
        proof {
            reveal(RespireImpl::gsw_groups_ok);
            let rlweseq = Seq::new(self.dim1 as nat, |i: int| self.spec_expanded_short(pp, q)[i]);
            assert(crate::gsw::gsw_view(rlwes@) =~= rlweseq);
            let fdseq = Seq::new(
                self.dim2 as nat,
                |j: int|
                    spec_inner_prod(
                        rlweseq,
                        Seq::new(self.dim1 as nat, |i: int| db.elems@[j * self.dim1 + i]@),
                        self.params.Q1,
                        self.params.D1 as nat,
                        self.dim1 as int,
                    ),
            );
            assert forall|j: int| 0 <= j < self.dim2 implies crate::gsw::gsw_view(firstdim@)[j]
                == fdseq[j] by {
                assert((firstdim@[j].c0@, firstdim@[j].c1@) == fdseq[j]);
            }
            assert(crate::gsw::gsw_view(firstdim@) =~= fdseq);
            assert forall|l: int| 0 <= l < self.params.NU2 implies crate::gsw::gsw_view(
                gsws_fold@[l].cols@,
            ) =~= self.spec_gsw_group(pp, q, l) by {
                assert forall|j: int|
                    0 <= j < 2 * self.params.T_GSW implies crate::gsw::gsw_view(
                    gsws_fold@[l].cols@,
                )[j] == self.spec_gsw_group(pp, q, l)[j] by {
                    let t = self.params.T_GSW as int;
                    if j < t {
                        assert((gsws_fold@[l].cols@[j].c0@, gsws_fold@[l].cols@[j].c1@)
                            == self.spec_gsw_group(pp, q, l)[j]);
                    } else {
                        assert(gsws_fold@[l].cols@[j - t].c0@ == gsws_fold@[l].cols@[j - t].c0@);
                        assert((gsws_fold@[l].cols@[t + (j - t)].c0@, gsws_fold@[l].cols@[t + (j
                            - t)].c1@) == self.spec_expanded_long(pp, q)[l * t + (j - t)]);
                    }
                }
            }
            assert forall|l: int| 0 <= l < self.nu3 implies crate::gsw::gsw_view(
                gsws_rot@[l].cols@,
            ) =~= self.spec_gsw_group(pp, q, self.params.NU2 + l) by {
                assert forall|j: int|
                    0 <= j < 2 * self.params.T_GSW implies crate::gsw::gsw_view(
                    gsws_rot@[l].cols@,
                )[j] == self.spec_gsw_group(pp, q, self.params.NU2 + l)[j] by {
                    let t = self.params.T_GSW as int;
                    if j < t {
                        assert((gsws_rot@[l].cols@[j].c0@, gsws_rot@[l].cols@[j].c1@)
                            == self.spec_gsw_group(pp, q, self.params.NU2 + l)[j]);
                    } else {
                        assert(gsws_rot@[l].cols@[j - t].c0@ == gsws_rot@[l].cols@[j - t].c0@);
                        assert((gsws_rot@[l].cols@[t + (j - t)].c0@, gsws_rot@[l].cols@[t + (j
                            - t)].c1@) == self.spec_expanded_long(pp, q)[(self.params.NU2 + l) * t
                            + (j - t)]);
                    }
                }
            }
            assert(Seq::new(
                gsws_fold@.len(),
                |l: int| crate::gsw::gsw_view(gsws_fold@[l].cols@),
            ) =~= Seq::new(self.params.NU2 as nat, |l: int| self.spec_gsw_group(pp, q, l)));
            assert(Seq::new(
                gsws_rot@.len(),
                |l: int| crate::gsw::gsw_view(gsws_rot@[l].cols@),
            ) =~= Seq::new(
                self.nu3 as nat,
                |l: int| self.spec_gsw_group(pp, q, self.params.NU2 + l),
            ));
        }
        let folded = self.answer_fold(firstdim, &gsws_fold);
        let rotated = self.answer_rotate(&folded, &gsws_rot);
        let r = self.answer_project(pp, &rotated);
        proof {
            reveal(RespireImpl::spec_answer_one);
            assert((r.c0@, r.c1@) == self.spec_answer_one(pp, db, q));
        }
        r
    }

    /// The mask half of scalar-to-vector packing after the first `n`
    /// inputs: the sum of `a^(i)T * gadget_inverse(c0_i)`.
    pub open spec fn spec_vec_rand_upto(
        &self,
        keys: Seq<VectorizeKey>,
        cts: Seq<(Seq<u64>, Seq<u64>)>,
        n: int,
    ) -> Seq<u64>
        decreases n,
    {
        let q = self.params.Q1;
        let d = self.params.D1 as nat;
        let t = self.params.T_VECTORIZE as int;
        if n <= 0 {
            Seq::new(d, |i: int| 0u64)
        } else {
            crate::ring::spec_poly_add(
                self.spec_vec_rand_upto(keys, cts, n - 1),
                spec_key_dot(
                    Seq::new(t as nat, |j: int| keys[n - 1].a_t@[j]@),
                    crate::gsw::spec_gadget_digits(cts[n - 1].0, self.params.Z_VECTORIZE, t),
                    q,
                    d,
                    t,
                ),
                q,
            )
        }
    }

    /// Row `r` of scalar-to-vector packing after the first `n` inputs:
    /// the sum of `b^(i)_r * gadget_inverse(c0_i)`, with `c1_r` added in
    /// when its own input is processed.
    pub open spec fn spec_vec_row_upto(
        &self,
        keys: Seq<VectorizeKey>,
        cts: Seq<(Seq<u64>, Seq<u64>)>,
        row: int,
        n: int,
    ) -> Seq<u64>
        decreases n,
    {
        let q = self.params.Q1;
        let d = self.params.D1 as nat;
        let t = self.params.T_VECTORIZE as int;
        if n <= 0 {
            Seq::new(d, |i: int| 0u64)
        } else {
            let w = crate::ring::spec_poly_add(
                self.spec_vec_row_upto(keys, cts, row, n - 1),
                spec_key_dot(
                    Seq::new(t as nat, |j: int| keys[n - 1].b@[row]@[j]@),
                    crate::gsw::spec_gadget_digits(cts[n - 1].0, self.params.Z_VECTORIZE, t),
                    q,
                    d,
                    t,
                ),
                q,
            );
            if row == n - 1 {
                crate::ring::spec_poly_add(w, cts[n - 1].1, q)
            } else {
                w
            }
        }
    }

    /// Packs `N_VEC` scalar ciphertexts into one vector ciphertext using
    /// the key-switch entries: coordinate `i` of the result carries the
    /// message of `cts[i]`.  Exactly: the mask is the sum of
    /// `a^(i)T * g_inv(c0_i)`, and row `r` is the sum of
    /// `b^(i)_r * g_inv(c0_i)` plus `c1_r`.
    pub fn scal_to_vec(&self, vec_keys: &Vec<VectorizeKey>, cts: &Vec<crate::rlwe::Rlwe>) -> (r:
        crate::rlwe::VecRlwe)
        requires
            self.wf(),
            vec_keys@.len() == self.params.N_VEC,
            forall|i: int| 0 <= i < vec_keys@.len() ==> (#[trigger] vec_keys@[i]).wf_for(self),
            cts@.len() == self.params.N_VEC,
            forall|i: int|
                0 <= i < cts@.len() ==> (#[trigger] cts@[i]).wf() && cts@[i].q()
                    == self.params.Q1 && cts@[i].dim() == self.params.D1,
        ensures
            r.wf(),
            r.cr.q == self.params.Q1,
            r.cr@.len() == self.params.D1,
            r.cm@.len() == self.params.N_VEC,
            forall|i: int|
                0 <= i < r.cm@.len() ==> (#[trigger] r.cm@[i]).q == self.params.Q1
                    && r.cm@[i]@.len() == self.params.D1,
            r.cr@ == self.spec_vec_rand_upto(
                vec_keys@,
                crate::gsw::gsw_view(cts@),
                self.params.N_VEC as int,
            ),
            forall|i: int|
                0 <= i < r.cm@.len() ==> (#[trigger] r.cm@[i]@) == self.spec_vec_row_upto(
                    vec_keys@,
                    crate::gsw::gsw_view(cts@),
                    i,
                    self.params.N_VEC as int,
                ),
    {
        let p = &self.params;
        let d1 = p.D1;
        let q1 = p.Q1;
        let t = p.T_VECTORIZE;
        let ghost cviews = crate::gsw::gsw_view(cts@);
        let mut rand = Poly::zero(d1, q1);
        let mut embed: Vec<Poly> = Vec::new();
        let mut ii: usize = 0;
        while ii < p.N_VEC
            invariant
                ii <= p.N_VEC,
                self.wf(),
                p == self.params,
                d1 == p.D1,
                q1 == p.Q1,
                embed@.len() == ii,
                forall|k: int|
                    0 <= k < ii ==> (#[trigger] embed@[k]).wf() && embed@[k].q == q1
                        && embed@[k]@.len() == d1 && embed@[k]@ == Seq::new(
                        d1 as nat,
                        |c: int| 0u64,
                    ),
            decreases p.N_VEC - ii,
        {
            let z = Poly::zero(d1, q1);
            proof {
                assert(z@ =~= Seq::new(d1 as nat, |c: int| 0u64));
            }
            embed.push(z);
            ii = ii + 1;
        }
        proof {
            assert(rand@ =~= self.spec_vec_rand_upto(vec_keys@, cviews, 0));
            assert forall|r_x: int| 0 <= r_x < p.N_VEC implies (#[trigger] embed@[r_x]@)
                == self.spec_vec_row_upto(vec_keys@, cviews, r_x, 0) by {
                assert(embed@[r_x]@ =~= Seq::new(d1 as nat, |c: int| 0u64));
            }
        }
        let mut i: usize = 0;
        while i < p.N_VEC
            invariant
                i <= p.N_VEC,
                self.wf(),
                p == self.params,
                d1 == p.D1,
                q1 == p.Q1,
                t == p.T_VECTORIZE,
                cviews == crate::gsw::gsw_view(cts@),
                vec_keys@.len() == p.N_VEC,
                forall|k: int| 0 <= k < vec_keys@.len() ==> (#[trigger] vec_keys@[k]).wf_for(self),
                cts@.len() == p.N_VEC,
                forall|k: int|
                    0 <= k < cts@.len() ==> (#[trigger] cts@[k]).wf() && cts@[k].q() == q1
                        && cts@[k].dim() == d1,
                rand.wf(),
                rand.q == q1,
                rand@.len() == d1,
                rand@ == self.spec_vec_rand_upto(vec_keys@, cviews, i as int),
                embed@.len() == p.N_VEC,
                forall|k: int|
                    0 <= k < embed@.len() ==> (#[trigger] embed@[k]).wf() && embed@[k].q == q1
                        && embed@[k]@.len() == d1,
                forall|k: int|
                    0 <= k < embed@.len() ==> (#[trigger] embed@[k]@) == self.spec_vec_row_upto(
                        vec_keys@,
                        cviews,
                        k,
                        i as int,
                    ),
            decreases p.N_VEC - i,
        {
            let ginv = crate::gadget::gadget_decompose(&cts[i].c0, p.Z_VECTORIZE, t);
            let ghost dseq = crate::gsw::spec_gadget_digits(
                cviews[i as int].0,
                p.Z_VECTORIZE,
                t as int,
            );
            proof {
                assert forall|j: int| 0 <= j < t implies (#[trigger] ginv@[j]@) =~= dseq[j] by {
                    assert(dseq[j] =~= Seq::new(
                        cts@[i as int].c0@.len(),
                        |c: int|
                            crate::gadget::spec_digit(
                                cts@[i as int].c0@[c],
                                p.Z_VECTORIZE,
                                j as nat,
                            ) as u64,
                    ));
                }
            }
            let key = &vec_keys[i];
            let ghost a_rows = Seq::new(t as nat, |j: int| key.a_t@[j]@);
            let ghost rand_base = rand@;
            let ghost embed_base = embed@;
            proof {
                crate::ring::lemma_poly_add_zero(rand@, q1);
                assert(spec_key_dot(a_rows, dseq, q1, d1 as nat, 0) =~= Seq::new(
                    d1 as nat,
                    |c: int| 0u64,
                ));
                assert forall|r_x: int| 0 <= r_x < p.N_VEC implies crate::ring::spec_poly_add(
                    embed@[r_x]@,
                    spec_key_dot(
                        Seq::new(t as nat, |j: int| key.b@[r_x]@[j]@),
                        dseq,
                        q1,
                        d1 as nat,
                        0,
                    ),
                    q1,
                ) == embed@[r_x]@ by {
                    assert(spec_key_dot(
                        Seq::new(t as nat, |j: int| key.b@[r_x]@[j]@),
                        dseq,
                        q1,
                        d1 as nat,
                        0,
                    ) =~= Seq::new(d1 as nat, |c: int| 0u64));
                    crate::ring::lemma_poly_add_zero(embed@[r_x]@, q1);
                }
            }
            let mut j: usize = 0;
            while j < t
                invariant
                    j <= t,
                    i < p.N_VEC,
                    self.wf(),
                    p == self.params,
                    d1 == p.D1,
                    q1 == p.Q1,
                    t == p.T_VECTORIZE,
                    cviews == crate::gsw::gsw_view(cts@),
                    vec_keys@.len() == p.N_VEC,
                    forall|k: int|
                        0 <= k < vec_keys@.len() ==> (#[trigger] vec_keys@[k]).wf_for(self),
                    key == &vec_keys@[i as int],
                    key.wf_for(self),
                    a_rows == Seq::new(t as nat, |jj: int| key.a_t@[jj]@),
                    ginv@.len() == t,
                    forall|k: int|
                        0 <= k < ginv@.len() ==> (#[trigger] ginv@[k]).wf() && ginv@[k].q == q1
                            && ginv@[k]@.len() == d1,
                    forall|k: int| 0 <= k < ginv@.len() ==> (#[trigger] ginv@[k]@) == dseq[k],
                    rand.wf(),
                    rand.q == q1,
                    rand@.len() == d1,
                    rand_base.len() == d1,
                    rand_base == self.spec_vec_rand_upto(vec_keys@, cviews, i as int),
                    rand@ == crate::ring::spec_poly_add(
                        rand_base,
                        spec_key_dot(a_rows, dseq, q1, d1 as nat, j as int),
                        q1,
                    ),
                    embed@.len() == p.N_VEC,
                    forall|k: int|
                        0 <= k < embed@.len() ==> (#[trigger] embed@[k]).wf() && embed@[k].q == q1
                            && embed@[k]@.len() == d1,
                    embed_base.len() == p.N_VEC,
                    forall|k: int|
                        0 <= k < embed_base.len() ==> (#[trigger] embed_base[k]@)
                            == self.spec_vec_row_upto(vec_keys@, cviews, k, i as int)
                            && embed_base[k]@.len() == d1 && crate::ring::coeffs_ok(
                            embed_base[k]@,
                            q1,
                        ),
                    forall|k: int|
                        0 <= k < embed@.len() ==> (#[trigger] embed@[k]@)
                            == crate::ring::spec_poly_add(
                            embed_base[k]@,
                            spec_key_dot(
                                Seq::new(t as nat, |jj: int| key.b@[k]@[jj]@),
                                dseq,
                                q1,
                                d1 as nat,
                                j as int,
                            ),
                            q1,
                        ),
                decreases t - j,
            {
                let term = key.a_t[j].mul(&ginv[j]);
                proof {
                    assert(a_rows[j as int] == key.a_t@[j as int]@);
                    lemma_key_dot_len(a_rows, dseq, q1, d1 as nat, j as int);
                    crate::ring::lemma_poly_add_assoc(
                        rand_base,
                        spec_key_dot(a_rows, dseq, q1, d1 as nat, j as int),
                        term@,
                        q1,
                    );
                }
                rand = rand.add(&term);
                let mut rrow: usize = 0;
                while rrow < p.N_VEC
                    invariant
                        rrow <= p.N_VEC,
                        j < t,
                        i < p.N_VEC,
                        self.wf(),
                        p == self.params,
                        d1 == p.D1,
                        q1 == p.Q1,
                        t == p.T_VECTORIZE,
                        key == &vec_keys@[i as int],
                        key.wf_for(self),
                        ginv@.len() == t,
                        forall|k: int|
                            0 <= k < ginv@.len() ==> (#[trigger] ginv@[k]).wf() && ginv@[k].q
                                == q1 && ginv@[k]@.len() == d1,
                        forall|k: int| 0 <= k < ginv@.len() ==> (#[trigger] ginv@[k]@) == dseq[k],
                        embed@.len() == p.N_VEC,
                        forall|k: int|
                            0 <= k < embed@.len() ==> (#[trigger] embed@[k]).wf() && embed@[k].q
                                == q1 && embed@[k]@.len() == d1,
                        embed_base.len() == p.N_VEC,
                        forall|k: int|
                            0 <= k < embed_base.len() ==> (#[trigger] embed_base[k]@).len() == d1
                                && crate::ring::coeffs_ok(embed_base[k]@, q1),
                        forall|k: int|
                            0 <= k < rrow ==> (#[trigger] embed@[k]@)
                                == crate::ring::spec_poly_add(
                                embed_base[k]@,
                                spec_key_dot(
                                    Seq::new(t as nat, |jj: int| key.b@[k]@[jj]@),
                                    dseq,
                                    q1,
                                    d1 as nat,
                                    j + 1,
                                ),
                                q1,
                            ),
                        forall|k: int|
                            rrow <= k < embed@.len() ==> (#[trigger] embed@[k]@)
                                == crate::ring::spec_poly_add(
                                embed_base[k]@,
                                spec_key_dot(
                                    Seq::new(t as nat, |jj: int| key.b@[k]@[jj]@),
                                    dseq,
                                    q1,
                                    d1 as nat,
                                    j as int,
                                ),
                                q1,
                            ),
                    decreases p.N_VEC - rrow,
                {
                    let bterm = key.b[rrow][j].mul(&ginv[j]);
                    proof {
                        let brows = Seq::new(t as nat, |jj: int| key.b@[rrow as int]@[jj]@);
                        assert(brows[j as int] == key.b@[rrow as int]@[j as int]@);
                        lemma_key_dot_len(brows, dseq, q1, d1 as nat, j as int);
                        crate::ring::lemma_poly_add_assoc(
                            embed_base[rrow as int]@,
                            spec_key_dot(brows, dseq, q1, d1 as nat, j as int),
                            bterm@,
                            q1,
                        );
                    }
                    let updated = embed[rrow].add(&bterm);
                    embed.set(rrow, updated);
                    rrow = rrow + 1;
                }
                j = j + 1;
            }
            let with_c1 = embed[i].add(&cts[i].c1);
            embed.set(i, with_c1);
            i = i + 1;
            proof {
                assert(cviews[i - 1].1 == cts@[i - 1].c1@);
                assert forall|k: int| 0 <= k < embed@.len() implies (#[trigger] embed@[k]@)
                    == self.spec_vec_row_upto(vec_keys@, cviews, k, i as int) by {
                    assert(embed_base[k]@ == self.spec_vec_row_upto(
                        vec_keys@,
                        cviews,
                        k,
                        i - 1,
                    ));
                }
            }
        }
        crate::rlwe::VecRlwe { cr: rand, cm: embed }
    }

    /// The rescaled mask: each coefficient of `cr` switched from `Q1`
    /// down to `Q2`.
    pub open spec fn spec_cr_scaled(&self, cr: Seq<u64>) -> Seq<u64> {
        Seq::new(
            cr.len(),
            |c: int|
                (crate::codec::spec_mod_switch(cr[c], self.params.Q1, self.params.Q2) as u64),
        )
    }

    /// Modulus compression: rescale the mask to `Q2`, key-switch it with
    /// the binary gadget, rescale the message rows to `Q3`, and keep
    /// every `(D1/D2)`-th coefficient.  The message half may be truncated
    /// to `truncate_len` rows.  Exactly: the mask half is
    /// `a^T * gadget_inverse(cr_scaled)` projected to `D2`; message row
    /// `i` is `round((Q3 Q2 cm[i] + Q1 Q3 (b_i^T g_inv)) / (Q1 Q2))`
    /// mod `Q3`, projected to `D2`.
    pub fn answer_compress_vec(&self, ck: &CompressKey, vec: &crate::rlwe::VecRlwe,
        truncate_len: usize) -> (r: AnswerOneCompressed)
        requires
            self.wf(),
            ck.wf_for(self),
            vec.wf(),
            vec.cr.q == self.params.Q1,
            vec.cr@.len() == self.params.D1,
            vec.cm@.len() == self.params.N_VEC,
            truncate_len <= self.params.N_VEC,
        ensures
            r.wf_for(self),
            r.cm@.len() == truncate_len,
            ({
                let q2 = self.params.Q2;
                let t = self.params.T_COMPRESS as int;
                let d1 = self.params.D1 as nat;
                let stride = self.params.D1 as int / self.params.D2 as int;
                let digs = crate::gsw::spec_gadget_digits(self.spec_cr_scaled(vec.cr@), 2, t);
                let a_rows = Seq::new(t as nat, |j: int| ck.a_t@[j]@);
                let mask = spec_key_dot(a_rows, digs, q2, d1, t);
                forall|i: int|
                    0 <= i < self.params.D2 ==> (#[trigger] r.cr@[i]) == mask[i * stride]
            }),
            ({
                let q1 = self.params.Q1;
                let q2 = self.params.Q2;
                let q3 = self.params.Q3;
                let t = self.params.T_COMPRESS as int;
                let d1 = self.params.D1 as nat;
                let stride = self.params.D1 as int / self.params.D2 as int;
                let digs = crate::gsw::spec_gadget_digits(self.spec_cr_scaled(vec.cr@), 2, t);
                forall|i: int, c: int|
                    0 <= i < truncate_len && 0 <= c < self.params.D2 ==> ({
                        let b_rows = Seq::new(t as nat, |j: int| ck.b@[i]@[j]@);
                        let bg = spec_key_dot(b_rows, digs, q2, d1, t);
                        let src = c * stride;
                        (#[trigger] r.cm@[i]@[c]) == ((q3 * q2 * vec.cm@[i]@[src] + q1 * q3
                            * bg[src] + (q1 * q2) / 2) / (q1 * q2)) % (q3 as int)
                    })
            }),
    {
        let p = &self.params;
        let d1 = p.D1;
        let q1 = p.Q1;
        let q2 = p.Q2;
        let q3 = p.Q3;
        // Rescale the mask from Q1 to Q2.
        let mut v: Vec<u64> = Vec::new();
        let mut i: usize = 0;
        while i < d1
            invariant
                i <= d1,
                self.wf(),
                p == self.params,
                d1 == p.D1,
                q1 == p.Q1,
                q2 == p.Q2,
                vec.wf(),
                vec.cr.q == q1,
                vec.cr@.len() == d1,
                v@.len() == i,
                forall|k: int| 0 <= k < i ==> v@[k] < q2,
                forall|k: int|
                    0 <= k < i ==> v@[k] == crate::codec::spec_mod_switch(vec.cr@[k], q1, q2),
            decreases d1 - i,
        {
            proof {
                vstd::arithmetic::mul::lemma_mul_upper_bound(q2 as int, 0x1_0000_0000,
                    vec.cr@[i as int] as int, 0xFFFF_FFFF_FFFF_FFFF);
            }
            let num: u128 = (q2 as u128) * (vec.cr.coeffs[i] as u128);
            let dv = crate::arith::div_round(num, q1 as u128);
            proof {
                vstd::arithmetic::div_mod::lemma_mod_bound(dv as int, q2 as int);
                vstd::arithmetic::mul::lemma_mul_is_commutative(
                    q2 as int,
                    vec.cr@[i as int] as int,
                );
            }
            v.push((dv % (q2 as u128)) as u64);
            i = i + 1;
        }
        let cr_scaled = Poly::from_coeffs(q2, v);
        proof {
            assert(cr_scaled@ =~= self.spec_cr_scaled(vec.cr@));
        }
        let ginv = crate::gadget::gadget_decompose(&cr_scaled, 2, p.T_COMPRESS);
        let ghost dseq = crate::gsw::spec_gadget_digits(
            self.spec_cr_scaled(vec.cr@),
            2,
            p.T_COMPRESS as int,
        );
        proof {
            assert forall|j: int| 0 <= j < p.T_COMPRESS implies ginv@[j]@ =~= dseq[j] by {
                assert(dseq[j] =~= Seq::new(
                    cr_scaled@.len(),
                    |ii: int| crate::gadget::spec_digit(cr_scaled@[ii], 2, j as nat) as u64,
                ));
            }
        }
        // Mask half: a^T * g_inv, then keep every (D1/D2)-th coefficient.
        let ghost a_rows = Seq::new(p.T_COMPRESS as nat, |j: int| ck.a_t@[j]@);
        let mut cr_full = Poly::zero(d1, q2);
        proof {
            assert(cr_full@ =~= spec_key_dot(a_rows, dseq, q2, d1 as nat, 0));
        }
        let mut j: usize = 0;
        while j < p.T_COMPRESS
            invariant
                j <= p.T_COMPRESS,
                self.wf(),
                p == self.params,
                d1 == p.D1,
                q2 == p.Q2,
                ck.wf_for(self),
                ginv@.len() == p.T_COMPRESS,
                forall|k: int|
                    0 <= k < ginv@.len() ==> (#[trigger] ginv@[k]).wf() && ginv@[k].q == q2
                        && ginv@[k]@.len() == d1,
                forall|k: int| 0 <= k < ginv@.len() ==> (#[trigger] ginv@[k]@) == dseq[k],
                a_rows == Seq::new(p.T_COMPRESS as nat, |jj: int| ck.a_t@[jj]@),
                cr_full.wf(),
                cr_full.q == q2,
                cr_full@.len() == d1,
                cr_full@ == spec_key_dot(a_rows, dseq, q2, d1 as nat, j as int),
            decreases p.T_COMPRESS - j,
        {
            cr_full = cr_full.add(&ck.a_t[j].mul(&ginv[j]));
            j = j + 1;
            proof {
                assert(a_rows[j - 1] == ck.a_t@[j - 1]@);
            }
        }
        let cr_hat = project_stride(&cr_full, p.D2);
        // Message rows.
        let mut cm: Vec<Poly> = Vec::new();
        let mut r_i: usize = 0;
        while r_i < truncate_len
            invariant
                r_i <= truncate_len <= p.N_VEC,
                self.wf(),
                p == self.params,
                d1 == p.D1,
                q1 == p.Q1,
                q2 == p.Q2,
                q3 == p.Q3,
                ck.wf_for(self),
                vec.wf(),
                vec.cr.q == q1,
                vec.cr@.len() == d1,
                vec.cm@.len() == p.N_VEC,
                ginv@.len() == p.T_COMPRESS,
                forall|k: int|
                    0 <= k < ginv@.len() ==> (#[trigger] ginv@[k]).wf() && ginv@[k].q == q2
                        && ginv@[k]@.len() == d1,
                dseq == crate::gsw::spec_gadget_digits(
                    self.spec_cr_scaled(vec.cr@),
                    2,
                    p.T_COMPRESS as int,
                ),
                forall|k: int| 0 <= k < ginv@.len() ==> (#[trigger] ginv@[k]@) == dseq[k],
                vec.cm@.len() == p.N_VEC,
                cm@.len() == r_i,
                forall|k: int|
                    0 <= k < cm@.len() ==> (#[trigger] cm@[k]).wf() && cm@[k].q == q3
                        && cm@[k]@.len() == p.D2,
                forall|k: int, c: int|
                    0 <= k < cm@.len() && 0 <= c < p.D2 ==> ({
                        let b_rows = Seq::new(p.T_COMPRESS as nat, |jj: int| ck.b@[k]@[jj]@);
                        let bg = spec_key_dot(b_rows, dseq, q2, d1 as nat, p.T_COMPRESS as int);
                        let src = c * (d1 as int / p.D2 as int);
                        (#[trigger] cm@[k]@[c]) == ((q3 * q2 * vec.cm@[k]@[src] + q1 * q3
                            * bg[src] + (q1 * q2) / 2) / (q1 * q2)) % (q3 as int)
                    }),
            decreases truncate_len - r_i,
        {
            // b_i^T * g_inv over R_{Q2,D1}.
            let ghost b_rows = Seq::new(p.T_COMPRESS as nat, |jj: int| ck.b@[r_i as int]@[jj]@);
            let mut bg = Poly::zero(d1, q2);
            proof {
                assert(bg@ =~= spec_key_dot(b_rows, dseq, q2, d1 as nat, 0));
            }
            let mut jj: usize = 0;
            while jj < p.T_COMPRESS
                invariant
                    jj <= p.T_COMPRESS,
                    r_i < p.N_VEC,
                    self.wf(),
                    p == self.params,
                    d1 == p.D1,
                    q2 == p.Q2,
                    ck.wf_for(self),
                    ginv@.len() == p.T_COMPRESS,
                    forall|k: int|
                        0 <= k < ginv@.len() ==> (#[trigger] ginv@[k]).wf() && ginv@[k].q == q2
                            && ginv@[k]@.len() == d1,
                    forall|k: int| 0 <= k < ginv@.len() ==> (#[trigger] ginv@[k]@) == dseq[k],
                    b_rows == Seq::new(p.T_COMPRESS as nat, |kk: int| ck.b@[r_i as int]@[kk]@),
                    bg.wf(),
                    bg.q == q2,
                    bg@.len() == d1,
                    bg@ == spec_key_dot(b_rows, dseq, q2, d1 as nat, jj as int),
                decreases p.T_COMPRESS - jj,
            {
                bg = bg.add(&ck.b[r_i][jj].mul(&ginv[jj]));
                jj = jj + 1;
                proof {
                    assert(b_rows[jj - 1] == ck.b@[r_i as int]@[jj - 1]@);
                }
            }
            // round((Q3*Q2*cm + Q1*Q3*bg) / (Q1*Q2)) mod Q3, coefficientwise.
            proof {
                assert(vec.cm@[r_i as int].wf() && vec.cr.same_ring(&vec.cm@[r_i as int]));
            }
            let cmrow = &vec.cm[r_i];
            let mut row: Vec<u64> = Vec::new();
            let mut c: usize = 0;
            while c < d1
                invariant
                    c <= d1,
                    self.wf(),
                    p == self.params,
                    d1 == p.D1,
                    q1 == p.Q1,
                    q2 == p.Q2,
                    q3 == p.Q3,
                    cmrow.wf(),
                    cmrow.q == q1,
                    cmrow@.len() == d1,
                    bg.wf(),
                    bg.q == q2,
                    bg@.len() == d1,
                    cmrow.wf(),
                    cmrow.q == q1,
                    cmrow@.len() == d1,
                    row@.len() == c,
                    forall|k: int| 0 <= k < c ==> row@[k] < q3,
                    forall|k: int|
                        0 <= k < c ==> row@[k] == ((q3 * q2 * cmrow@[k] + q1 * q3 * bg@[k] + (q1
                            * q2) / 2) / (q1 * q2)) % (q3 as int),
                decreases d1 - c,
            {
                proof {
                    lemma_compress_bounds(q1 as int, q2 as int, q3 as int,
                        cmrow@[c as int] as int, bg@[c as int] as int);
                }
                let num: u128 = (q3 as u128) * (q2 as u128) * (cmrow.coeffs[c] as u128) + (
                q1 as u128) * (q3 as u128) * (bg.coeffs[c] as u128);
                let den: u128 = (q1 as u128) * (q2 as u128);
                let dv = crate::arith::div_round(num, den);
                proof {
                    vstd::arithmetic::div_mod::lemma_mod_bound(dv as int, q3 as int);
                }
                row.push((dv % (q3 as u128)) as u64);
                c = c + 1;
            }
            let row_poly = Poly::from_coeffs(q3, row);
            let row_small = project_stride(&row_poly, p.D2);
            proof {
                assert(vec.cm@[r_i as int]@ == cmrow@);
                assert(Seq::new(p.T_COMPRESS as nat, |jj: int| ck.b@[r_i as int]@[jj]@)
                    =~= b_rows);
                lemma_pow2_ratio(d1 as nat, p.D2 as nat);
                assert forall|c: int| 0 <= c < p.D2 implies ({
                    let bg2 = spec_key_dot(b_rows, dseq, q2, d1 as nat, p.T_COMPRESS as int);
                    let src = c * (d1 as int / p.D2 as int);
                    (#[trigger] row_small@[c]) == ((q3 * q2 * vec.cm@[r_i as int]@[src] + q1 * q3
                        * bg2[src] + (q1 * q2) / 2) / (q1 * q2)) % (q3 as int)
                }) by {
                    let stride_s = d1 as int / p.D2 as int;
                    assert(stride_s >= 1) by (nonlinear_arith)
                        requires
                            stride_s * p.D2 == d1,
                            d1 >= 1,
                            p.D2 >= 1,
                    ;
                    assert(0 <= c * stride_s && c * stride_s < p.D2 * stride_s && p.D2 * stride_s
                        == stride_s * p.D2) by (nonlinear_arith)
                        requires
                            0 <= c < p.D2,
                            stride_s >= 1,
                    ;
                }
            }
            cm.push(row_small);
            r_i = r_i + 1;
        }
        AnswerOneCompressed { cr: cr_hat, cm }
    }

    /// The ring-packed scalar ciphertext of coordinate `vi`: the sum of
    /// the first `n` chunk members destined for it, each shifted by
    /// `X^(pk * D1/D2)`.
    pub open spec fn spec_ring_packed(
        &self,
        chunkv: Seq<(Seq<u64>, Seq<u64>)>,
        vi: int,
        n: int,
    ) -> (Seq<u64>, Seq<u64>)
        decreases n,
    {
        let q1 = self.params.Q1;
        let d1 = self.params.D1 as nat;
        let stride = self.params.D1 as int / self.params.D2 as int;
        if n <= 0 {
            (Seq::new(d1, |i: int| 0u64), Seq::new(d1, |i: int| 0u64))
        } else {
            let prev = self.spec_ring_packed(chunkv, vi, n - 1);
            let idx = vi * self.pack_resp as int + (n - 1);
            if idx < chunkv.len() {
                (
                    crate::ring::spec_poly_add(
                        prev.0,
                        crate::ring::spec_mul_x_pow(chunkv[idx].0, (n - 1) * stride, q1),
                        q1,
                    ),
                    crate::ring::spec_poly_add(
                        prev.1,
                        crate::ring::spec_mul_x_pow(chunkv[idx].1, (n - 1) * stride, q1),
                        q1,
                    ),
                )
            } else {
                prev
            }
        }
    }

    /// Packs a chunk of post-projection answers into one vector
    /// ciphertext (ring-packing within each coordinate, then
    /// scalar-to-vector) and compresses it.  The result carries exactly
    /// `min(ceil(len/pack_resp), N_VEC)` message rows and is the
    /// compression of the scalar-to-vector packing of the ring-packed
    /// chunk.
    pub fn answer_compress_chunk(&self, pp: &RespirePublicParams, chunk: &Vec<crate::rlwe::Rlwe>)
        -> (r: AnswerOneCompressed)
        requires
            self.wf(),
            pp.wf_for(self),
            1 <= chunk@.len(),
            chunk@.len() <= self.params.N_VEC * self.pack_resp,
            forall|i: int|
                0 <= i < chunk@.len() ==> (#[trigger] chunk@[i]).wf() && chunk@[i].q()
                    == self.params.Q1 && chunk@[i].dim() == self.params.D1,
        ensures
            r.wf_for(self),
            r.cm@.len() == ({
                let full = (chunk@.len() + self.pack_resp - 1) as int / self.pack_resp as int;
                if full < self.params.N_VEC {
                    full
                } else {
                    self.params.N_VEC as int
                }
            }),
            ({
                let scv = Seq::new(
                    self.params.N_VEC as nat,
                    |vi: int|
                        self.spec_ring_packed(
                            crate::gsw::gsw_view(chunk@),
                            vi,
                            self.pack_resp as int,
                        ),
                );
                let cr = self.spec_vec_rand_upto(pp.vec_keys@, scv, self.params.N_VEC as int);
                let digs = crate::gsw::spec_gadget_digits(
                    self.spec_cr_scaled(cr),
                    2,
                    self.params.T_COMPRESS as int,
                );
                let a_rows = Seq::new(
                    self.params.T_COMPRESS as nat,
                    |j: int| pp.compress_key.a_t@[j]@,
                );
                let mask = spec_key_dot(
                    a_rows,
                    digs,
                    self.params.Q2,
                    self.params.D1 as nat,
                    self.params.T_COMPRESS as int,
                );
                let stride = self.params.D1 as int / self.params.D2 as int;
                (forall|i: int|
                    0 <= i < self.params.D2 ==> (#[trigger] r.cr@[i]) == mask[i * stride])
                    && (forall|i: int, c: int|
                    0 <= i < r.cm@.len() && 0 <= c < self.params.D2 ==> ({
                        let b_rows = Seq::new(
                            self.params.T_COMPRESS as nat,
                            |j: int| pp.compress_key.b@[i]@[j]@,
                        );
                        let bg = spec_key_dot(
                            b_rows,
                            digs,
                            self.params.Q2,
                            self.params.D1 as nat,
                            self.params.T_COMPRESS as int,
                        );
                        let row = self.spec_vec_row_upto(
                            pp.vec_keys@,
                            scv,
                            i,
                            self.params.N_VEC as int,
                        );
                        let src = c * stride;
                        (#[trigger] r.cm@[i]@[c]) == ((self.params.Q3 * self.params.Q2 * row[src]
                            + self.params.Q1 * self.params.Q3 * bg[src] + (self.params.Q1
                            * self.params.Q2) / 2) / (self.params.Q1 * self.params.Q2)) % (
                        self.params.Q3 as int)
                    }))
            }),
    {
        let p = &self.params;
        let d1 = p.D1;
        let q1 = p.Q1;
        proof {
            lemma_pow2_ratio(p.D1 as nat, p.D2 as nat);
        }
        let stride = d1 / p.D2;
        let mut scalar_cts: Vec<crate::rlwe::Rlwe> = Vec::new();
        let mut vi: usize = 0;
        while vi < p.N_VEC
            invariant
                vi <= p.N_VEC,
                self.wf(),
                p == self.params,
                d1 == p.D1,
                q1 == p.Q1,
                stride * p.D2 == d1,
                chunk@.len() <= p.N_VEC * self.pack_resp,
                forall|i: int|
                    0 <= i < chunk@.len() ==> (#[trigger] chunk@[i]).wf() && chunk@[i].q() == q1
                        && chunk@[i].dim() == d1,
                scalar_cts@.len() == vi,
                forall|i: int|
                    0 <= i < scalar_cts@.len() ==> (#[trigger] scalar_cts@[i]).wf()
                        && scalar_cts@[i].q() == q1 && scalar_cts@[i].dim() == d1,
                forall|i: int|
                    0 <= i < scalar_cts@.len() ==> ((#[trigger] scalar_cts@[i]).c0@,
                    scalar_cts@[i].c1@) == self.spec_ring_packed(
                        crate::gsw::gsw_view(chunk@),
                        i,
                        self.pack_resp as int,
                    ),
            decreases p.N_VEC - vi,
        {
            let mut acc = crate::rlwe::Rlwe::zero(d1, q1);
            proof {
                let z = self.spec_ring_packed(crate::gsw::gsw_view(chunk@), vi as int, 0);
                assert(acc.c0@ =~= z.0);
                assert(acc.c1@ =~= z.1);
                assert(d1 as int / p.D2 as int == stride as int) by (nonlinear_arith)
                    requires
                        stride * p.D2 == d1,
                        p.D2 >= 1,
                        stride >= 0,
                ;
            }
            let mut pk: usize = 0;
            while pk < self.pack_resp
                invariant
                    pk <= self.pack_resp,
                    vi < p.N_VEC,
                    self.wf(),
                    p == self.params,
                    d1 == p.D1,
                    q1 == p.Q1,
                    stride * p.D2 == d1,
                    d1 as int / p.D2 as int == stride as int,
                    chunk@.len() <= p.N_VEC * self.pack_resp,
                    forall|i: int|
                        0 <= i < chunk@.len() ==> (#[trigger] chunk@[i]).wf() && chunk@[i].q()
                            == q1 && chunk@[i].dim() == d1,
                    acc.wf(),
                    acc.q() == q1,
                    acc.dim() == d1,
                    (acc.c0@, acc.c1@) == self.spec_ring_packed(
                        crate::gsw::gsw_view(chunk@),
                        vi as int,
                        pk as int,
                    ),
                decreases self.pack_resp - pk,
            {
                proof {
                    assert(vi * self.pack_resp + pk < p.N_VEC * self.pack_resp && 0 <= vi
                        * self.pack_resp && p.N_VEC * self.pack_resp <= 0x8000_0000)
                        by (nonlinear_arith)
                        requires
                            vi < p.N_VEC,
                            pk < self.pack_resp,
                            self.pack_resp >= 1,
                            p.N_VEC <= 1024,
                            self.pack_resp * p.D3 == p.D2,
                            p.D3 >= 1,
                            p.D2 <= 65536,
                    ;
                    assert(pk * stride < self.pack_resp * stride && self.pack_resp * stride
                        <= d1 && 0 <= pk * stride) by (nonlinear_arith)
                        requires
                            pk < self.pack_resp,
                            stride >= 1,
                            self.pack_resp * p.D3 == p.D2,
                            stride * p.D2 == d1,
                            p.D3 >= 1,
                    ;
                }
                let idx = vi * self.pack_resp + pk;
                if idx < chunk.len() {
                    let shifted = chunk[idx].mul_x_pow(pk * stride);
                    proof {
                        assert(crate::gsw::gsw_view(chunk@)[idx as int] == (
                            chunk@[idx as int].c0@,
                            chunk@[idx as int].c1@,
                        ));
                    }
                    acc = acc.add(&shifted);
                }
                pk = pk + 1;
            }
            scalar_cts.push(acc);
            vi = vi + 1;
        }
        proof {
            assert(crate::gsw::gsw_view(scalar_cts@) =~= Seq::new(
                p.N_VEC as nat,
                |vi: int|
                    self.spec_ring_packed(
                        crate::gsw::gsw_view(chunk@),
                        vi,
                        self.pack_resp as int,
                    ),
            ));
        }
        let vec = self.scal_to_vec(&pp.vec_keys, &scalar_cts);
        proof {
            assert(p.N_VEC * self.pack_resp <= 0x8000_0000 && self.pack_resp <= 65536)
                by (nonlinear_arith)
                requires
                    p.N_VEC <= 1024,
                    self.pack_resp * p.D3 == p.D2,
                    p.D3 >= 1,
                    p.D2 <= 65536,
                    self.pack_resp >= 1,
            ;
        }
        let mut t_len = (chunk.len() + self.pack_resp - 1) / self.pack_resp;
        if t_len > p.N_VEC {
            t_len = p.N_VEC;
        }
        self.answer_compress_vec(&pp.compress_key, &vec, t_len)
    }

    /// One decrypted row of a compressed answer: `-s_small_i * cr`
    /// switched from `Q2` to `Q3`, plus the message row, rounded to `Z_P`.
    pub open spec fn spec_extract_row(
        &self,
        s_small_i: Seq<u64>,
        cr: Seq<u64>,
        cm_i: Seq<u64>,
    ) -> Seq<u64> {
        let q2 = self.params.Q2;
        let q3 = self.params.Q3;
        Seq::new(
            self.params.D2 as nat,
            |c: int|
                {
                    let masked = crate::ring::spec_poly_neg(
                        crate::ring::spec_poly_mul(s_small_i, cr, q2),
                        q2,
                    );
                    let summed = (crate::codec::spec_mod_switch(masked[c], q2, q3) + cm_i[c]) % (
                    q3 as int);
                    (crate::codec::spec_round_down(summed as u64, self.params.P, q3) as u64)
                },
        )
    }

    /// The bytes of packed record `j` of a plaintext ring: coefficients
    /// `j, j + pack_resp, ...` decoded MSB-first.
    pub open spec fn spec_record_bytes(&self, ring: Seq<u64>, j: int) -> Seq<u8> {
        let gathered = Seq::new(
            self.params.D3 as nat,
            |ci: int| ring[j + ci * self.pack_resp as int],
        );
        let gpb = crate::codec::spec_gpb(self.pb as int);
        Seq::new(
            self.params.BYTES_PER_RECORD as nat,
            |b: int|
                (crate::codec::spec_byte_acc(gathered, b * gpb, self.pb as int, gpb) as u8),
        )
    }

    /// Client-side decryption of a compressed answer: row `i` is
    /// `-s_small[i] * cr` switched from `Q2` to `Q3`, plus the message
    /// row, rounded down to `Z_P` — each row one packed plaintext ring
    /// element in dimension `D2`.
    pub fn extract_ring_one(&self, qk: &RespireQueryKey, ans: &AnswerOneCompressed) -> (r: Vec<
        Poly,
    >)
        requires
            self.wf(),
            qk.wf_for(self),
            ans.wf_for(self),
        ensures
            r@.len() == ans.cm@.len(),
            forall|i: int|
                0 <= i < r@.len() ==> (#[trigger] r@[i]).wf() && r@[i].q == self.params.P
                    && r@[i]@.len() == self.params.D2,
            forall|i: int|
                0 <= i < r@.len() ==> (#[trigger] r@[i]@) == self.spec_extract_row(
                    qk.s_small@[i]@,
                    ans.cr@,
                    ans.cm@[i]@,
                ),
    {
        let p = &self.params;
        let q2 = p.Q2;
        let q3 = p.Q3;
        let d2 = p.D2;
        proof {
            vstd::arithmetic::power2::lemma2_to64();
            vstd::arithmetic::power2::lemma_pow2_strictly_increases(0, self.pb as nat);
        }
        let mut out: Vec<Poly> = Vec::new();
        let mut i: usize = 0;
        while i < ans.cm.len()
            invariant
                i <= ans.cm@.len(),
                self.wf(),
                p == self.params,
                q2 == p.Q2,
                q3 == p.Q3,
                d2 == p.D2,
                2 <= p.P <= q3,
                qk.wf_for(self),
                ans.wf_for(self),
                out@.len() == i,
                forall|k: int|
                    0 <= k < out@.len() ==> (#[trigger] out@[k]).wf() && out@[k].q == p.P
                        && out@[k]@.len() == d2,
                forall|k: int|
                    0 <= k < out@.len() ==> (#[trigger] out@[k]@) == self.spec_extract_row(
                        qk.s_small@[k]@,
                        ans.cr@,
                        ans.cm@[k]@,
                    ),
            decreases ans.cm@.len() - i,
        {
            proof {
                assert(ans.cm@[i as int].wf());
                assert(qk.s_small@[i as int].wf());
            }
            // -s_small[i] * cr over R_{Q2,D2}.
            let prod = qk.s_small[i].mul(&ans.cr).neg();
            // round(Q3 * (.) / Q2) mod Q3, then add the message row.
            let mut v: Vec<u64> = Vec::new();
            let mut c: usize = 0;
            while c < d2
                invariant
                    c <= d2,
                    q2 == p.Q2,
                    q3 == p.Q3,
                    2 <= q3 <= q2 <= 0x1_0000_0000,
                    q3 <= 0x1_0000,
                    2 <= q2 < Q_LIMIT,
                    prod.wf(),
                    prod.q == q2,
                    prod@.len() == d2,
                    prod@ == crate::ring::spec_poly_neg(
                        crate::ring::spec_poly_mul(qk.s_small@[i as int]@, ans.cr@, q2),
                        q2,
                    ),
                    v@.len() == c,
                    forall|k: int| 0 <= k < c ==> v@[k] < q3,
                    forall|k: int|
                        0 <= k < c ==> v@[k] == crate::codec::spec_mod_switch(prod@[k], q2, q3),
                decreases d2 - c,
            {
                proof {
                    vstd::arithmetic::mul::lemma_mul_upper_bound(q3 as int, 0x1_0000,
                        prod@[c as int] as int, 0xFFFF_FFFF);
                }
                let num: u128 = (q3 as u128) * (prod.coeffs[c] as u128);
                let dv = crate::arith::div_round(num, q2 as u128);
                proof {
                    vstd::arithmetic::div_mod::lemma_mod_bound(dv as int, q3 as int);
                    vstd::arithmetic::mul::lemma_mul_is_commutative(
                        q3 as int,
                        prod@[c as int] as int,
                    );
                }
                v.push((dv % (q3 as u128)) as u64);
                c = c + 1;
            }
            proof {
                assert(1 <= d2 <= D_LIMIT && q3 < Q_LIMIT);
            }
            let scaled = Poly::from_coeffs(q3, v);
            let summed = scaled.add(&ans.cm[i]);
            let rec = crate::codec::round_down_poly(&summed, p.P);
            proof {
                assert(rec@ =~= self.spec_extract_row(
                    qk.s_small@[i as int]@,
                    ans.cr@,
                    ans.cm@[i as int]@,
                ));
            }
            out.push(rec);
            i = i + 1;
        }
        out
    }

    /// Kept rows of an extraction.
    pub fn extract_rows(&self, ans: &AnswerOneCompressed) -> (n: usize)
        ensures
            n == ans.cm@.len(),
    {
        ans.cm.len()
    }

    /// Splits packed plaintext rings into records: record `j` of ring `i`
    /// sits at coefficients `j, j + pack_resp, ...`, and decodes to
    /// `bytes_per_record` bytes.
    pub fn extract_bytes_one(&self, rings: &Vec<Poly>) -> (r: Vec<Vec<u8>>)
        requires
            self.wf(),
            forall|i: int|
                0 <= i < rings@.len() ==> (#[trigger] rings@[i]).wf() && rings@[i].q
                    == self.params.P && rings@[i]@.len() == self.params.D2,
        ensures
            r@.len() == rings@.len() * self.pack_resp,
            forall|i: int|
                0 <= i < r@.len() ==> (#[trigger] r@[i])@.len() == self.params.BYTES_PER_RECORD,
            forall|k: int|
                0 <= k < r@.len() ==> (#[trigger] r@[k])@ == self.spec_record_bytes(
                    rings@[k / self.pack_resp as int]@,
                    k % self.pack_resp as int,
                ),
    {
        let p = &self.params;
        let mut out: Vec<Vec<u8>> = Vec::new();
        let mut i: usize = 0;
        while i < rings.len()
            invariant
                i <= rings@.len(),
                self.wf(),
                p == self.params,
                forall|k: int|
                    0 <= k < rings@.len() ==> (#[trigger] rings@[k]).wf() && rings@[k].q == p.P
                        && rings@[k]@.len() == p.D2,
                out@.len() == i * self.pack_resp,
                forall|k: int|
                    0 <= k < out@.len() ==> (#[trigger] out@[k])@.len() == p.BYTES_PER_RECORD,
                forall|k: int|
                    0 <= k < out@.len() ==> (#[trigger] out@[k])@ == self.spec_record_bytes(
                        rings@[k / self.pack_resp as int]@,
                        k % self.pack_resp as int,
                    ),
            decreases rings@.len() - i,
        {
            let mut j: usize = 0;
            while j < self.pack_resp
                invariant
                    j <= self.pack_resp,
                    i < rings@.len(),
                    self.wf(),
                    p == self.params,
                    forall|k: int|
                        0 <= k < rings@.len() ==> (#[trigger] rings@[k]).wf() && rings@[k].q
                            == p.P && rings@[k]@.len() == p.D2,
                    out@.len() == i * self.pack_resp + j,
                    forall|k: int|
                        0 <= k < out@.len() ==> (#[trigger] out@[k])@.len() == p.BYTES_PER_RECORD,
                    forall|k: int|
                        0 <= k < out@.len() ==> (#[trigger] out@[k])@ == self.spec_record_bytes(
                            rings@[k / self.pack_resp as int]@,
                            k % self.pack_resp as int,
                        ),
                decreases self.pack_resp - j,
            {
                let rec = self.gather_record(&rings[i], j);
                proof {
                    let gpb = crate::codec::spec_gpb(self.pb as int);
                    assert((self.pb as int) * gpb == 8);
                    assert(p.D3 as int == p.BYTES_PER_RECORD * gpb) by (nonlinear_arith)
                        requires
                            p.BYTES_PER_RECORD * 8 == p.D3 * self.pb,
                            (self.pb as int) * gpb == 8,
                            self.pb >= 1,
                            gpb >= 1,
                    ;
                    vstd::arithmetic::div_mod::lemma_mod_multiples_basic(
                        p.BYTES_PER_RECORD as int,
                        gpb,
                    );
                    assert(rec@.len() % (gpb as nat) == 0);
                }
                let bytes = crate::codec::decode_record(&rec, self.pb);
                proof {
                    lemma_record_byte_count(p.D3 as int, self.pb as int, p.BYTES_PER_RECORD as int,
                        bytes@.len() as int);
                }
                proof {
                    let pos = i * self.pack_resp + j;
                    assert((pos as int) / (self.pack_resp as int) == i && (pos as int) % (
                    self.pack_resp as int) == j) by (nonlinear_arith)
                        requires
                            pos == i * self.pack_resp + j,
                            0 <= j < self.pack_resp,
                            0 <= i,
                    ;
                    let gathered = Seq::new(
                        p.D3 as nat,
                        |ci: int| rings@[i as int]@[j + ci * self.pack_resp as int],
                    );
                    assert(rec@ =~= gathered);
                    assert(bytes@ =~= self.spec_record_bytes(rings@[i as int]@, j as int));
                }
                out.push(bytes);
                j = j + 1;
            }
            i = i + 1;
            proof {
                assert(i * self.pack_resp == (i - 1) * self.pack_resp + self.pack_resp)
                    by (nonlinear_arith);
            }
        }
        out
    }

    /// Reads the `D3` coefficients of record `j` out of a packed ring:
    /// positions `j, j + pack_resp, ...`.
    fn gather_record(&self, ring: &Poly, j: usize) -> (r: Poly)
        requires
            self.wf(),
            ring.wf(),
            ring.q == self.params.P,
            ring@.len() == self.params.D2,
            j < self.pack_resp,
        ensures
            r.wf(),
            r.q == self.params.P,
            r@.len() == self.params.D3,
            forall|ci: int|
                0 <= ci < self.params.D3 ==> (#[trigger] r@[ci]) == ring@[j + ci
                    * self.pack_resp as int],
    {
        let p = &self.params;
        let d3 = p.D3;
        let mut v: Vec<u64> = Vec::new();
        let mut ci: usize = 0;
        while ci < d3
            invariant
                ci <= d3,
                self.wf(),
                p == self.params,
                d3 == p.D3,
                j < self.pack_resp,
                ring.wf(),
                ring.q == p.P,
                ring@.len() == p.D2,
                v@.len() == ci,
                forall|k: int| 0 <= k < ci ==> v@[k] < p.P,
                forall|k: int|
                    0 <= k < ci ==> (#[trigger] v@[k]) == ring@[j + k * self.pack_resp as int],
            decreases d3 - ci,
        {
            proof {
                assert(j + ci * self.pack_resp < d3 * self.pack_resp && 0 <= ci * self.pack_resp
                    && d3 * self.pack_resp == p.D2) by (nonlinear_arith)
                    requires
                        j < self.pack_resp,
                        ci < d3,
                        self.pack_resp >= 1,
                        self.pack_resp * p.D3 == p.D2,
                        d3 == p.D3,
                ;
            }
            v.push(ring.coeffs[j + ci * self.pack_resp]);
            ci = ci + 1;
        }
        Poly::from_coeffs(p.P, v)
    }
}

/// Bound for the compression numerators: with `Q3 <= 2^16`,
/// `Q2 <= 2^32`, `Q1 < 2^56`, both terms fit far inside 128 bits.
proof fn lemma_compress_bounds(q1: int, q2: int, q3: int, cm: int, bg: int)
    requires
        2 <= q1 < Q_LIMIT,
        2 <= q2 <= 0x1_0000_0000,
        2 <= q3 <= 0x1_0000,
        0 <= cm < q1,
        0 <= bg < q2,
    ensures
        0 <= q3 * q2 * cm < 0x1_0000_0000_0000_0000_0000_0000_0000,
        0 <= q1 * q3 * bg < 0x1_0000_0000_0000_0000_0000_0000_0000,
        0 < q1 * q2 <= 0x1_0000_0000_0000_0000_0000_0000,
        0 <= q3 * q2 <= 0x1_0000_0000_0000,
        0 <= q1 * q3 <= 0x1_0000_0000_0000_0000_0000,
{
    assert(0 <= q3 * q2 * cm < 0x1_0000_0000_0000_0000_0000_0000_0000 && 0 <= q1 * q3 * bg
        < 0x1_0000_0000_0000_0000_0000_0000_0000 && 0 < q1 * q2
        <= 0x1_0000_0000_0000_0000_0000_0000 && 0 <= q3 * q2 <= 0x1_0000_0000_0000 && 0 <= q1
        * q3 <= 0x1_0000_0000_0000_0000_0000) by (nonlinear_arith)
        requires
            2 <= q1 < Q_LIMIT,
            2 <= q2 <= 0x1_0000_0000,
            2 <= q3 <= 0x1_0000,
            0 <= cm < q1,
            0 <= bg < q2,
    ;
}

/// `nu3 <= ld1` because the pack ratio divides the ring dimension.
proof fn lemma_nu3_le_ld1(pack: nat, d1: nat, nu3: nat, ld1: nat, d3: nat)
    requires
        pack == pow2(nu3),
        d1 == pow2(ld1),
        pack * d3 == d1,
        d3 >= 1,
    ensures
        nu3 <= ld1,
{
    assert(pack <= d1) by (nonlinear_arith)
        requires
            pack * d3 == d1,
            d3 >= 1,
            pack >= 0,
    ;
    if nu3 > ld1 {
        vstd::arithmetic::power2::lemma_pow2_strictly_increases(ld1, nu3);
        assert(false);
    }
}

/// The byte count of a decoded record matches the instance.
proof fn lemma_record_byte_count(d3: int, pb: int, bytes_per_record: int, decoded: int)
    requires
        crate::codec::group_width_ok(pb),
        bytes_per_record * 8 == d3 * pb,
        decoded * crate::codec::spec_gpb(pb) == d3,
    ensures
        decoded == bytes_per_record,
{
    assert(decoded == bytes_per_record) by (nonlinear_arith)
        requires
            crate::codec::group_width_ok(pb),
            bytes_per_record * 8 == d3 * pb,
            decoded * crate::codec::spec_gpb(pb) == d3,
            pb * crate::codec::spec_gpb(pb) == 8,
    ;
}

/// A bounded product, exact in 128 bits.
fn mul_wide(a: u64, b: u64) -> (r: u128)
    ensures
        r == a * b,
        r <= 0xFFFF_FFFF_FFFF_FFFF * 0xFFFF_FFFF_FFFF_FFFF,
{
    proof {
        vstd::arithmetic::mul::lemma_mul_upper_bound(a as int, 0xFFFF_FFFF_FFFF_FFFF, b as int,
            0xFFFF_FFFF_FFFF_FFFF);
    }
    (a as u128) * (b as u128)
}

/// Saturating 128-bit product, as a value.
pub open spec fn spec_mul_sat(a: int, b: int) -> int {
    if a * b > 0xFFFF_FFFF_FFFF_FFFF_FFFF_FFFF_FFFF_FFFF {
        0xFFFF_FFFF_FFFF_FFFF_FFFF_FFFF_FFFF_FFFF
    } else {
        a * b
    }
}

/// Saturating 128-bit sum, as a value.
pub open spec fn spec_add_sat(a: int, b: int) -> int {
    if a + b > 0xFFFF_FFFF_FFFF_FFFF_FFFF_FFFF_FFFF_FFFF {
        0xFFFF_FFFF_FFFF_FFFF_FFFF_FFFF_FFFF_FFFF
    } else {
        a + b
    }
}

/// Saturating 128-bit product.
fn mul_sat(a: u128, b: u128) -> (r: u128)
    ensures
        r == spec_mul_sat(a as int, b as int),
{
    if a == 0 {
        0
    } else if b <= u128::MAX / a {
        proof {
            vstd::arithmetic::div_mod::lemma_fundamental_div_mod(u128::MAX as int, a as int);
            vstd::arithmetic::div_mod::lemma_mod_bound(u128::MAX as int, a as int);
            vstd::arithmetic::mul::lemma_mul_inequality(b as int, (u128::MAX / a) as int,
                a as int);
            vstd::arithmetic::mul::lemma_mul_is_commutative(b as int, a as int);
            vstd::arithmetic::mul::lemma_mul_is_commutative((u128::MAX / a) as int, a as int);
        }
        a * b
    } else {
        proof {
            vstd::arithmetic::div_mod::lemma_fundamental_div_mod(u128::MAX as int, a as int);
            vstd::arithmetic::div_mod::lemma_mod_bound(u128::MAX as int, a as int);
            assert(a * b > u128::MAX) by (nonlinear_arith)
                requires
                    b > u128::MAX as int / a as int,
                    a >= 1,
                    u128::MAX as int == a * (u128::MAX as int / a as int) + u128::MAX as int % (
                    a as int),
                    0 <= u128::MAX as int % (a as int) < a,
            ;
        }
        u128::MAX
    }
}

/// Saturating 128-bit sum.
fn add_sat(a: u128, b: u128) -> (r: u128)
    ensures
        r == spec_add_sat(a as int, b as int),
{
    if a <= u128::MAX - b {
        a + b
    } else {
        u128::MAX
    }
}

impl RespireImpl {
    /// Builds the batch of queries, one sub-seed per index.
    pub fn query(&self, qk: &RespireQueryKey, indices: &Vec<usize>, seed: &Vec<u8>) -> (r: Vec<
        QueryOne,
    >)
        requires
            self.wf(),
            qk.wf_for(self),
            indices@.len() == self.params.BATCH_SIZE,
            forall|i: int| 0 <= i < indices@.len() ==> indices@[i] < self.num_records,
            seed@.len() == 32,
        ensures
            r@.len() == self.params.BATCH_SIZE,
            forall|i: int| 0 <= i < r@.len() ==> (#[trigger] r@[i]).wf_for(self),
            forall|i: int|
                0 <= i < r@.len() ==> self.query_matches(
                    *qk,
                    indices@[i] as int,
                    crate::keys::derive_seed_spec(seed@, i),
                    #[trigger] r@[i],
                ),
    {
        let mut out: Vec<QueryOne> = Vec::new();
        let mut i: usize = 0;
        while i < indices.len()
            invariant
                i <= indices@.len(),
                self.wf(),
                qk.wf_for(self),
                indices@.len() == self.params.BATCH_SIZE <= 0xFFFF,
                forall|k: int| 0 <= k < indices@.len() ==> indices@[k] < self.num_records,
                seed@.len() == 32,
                out@.len() == i,
                forall|k: int| 0 <= k < out@.len() ==> (#[trigger] out@[k]).wf_for(self),
                forall|k: int|
                    0 <= k < out@.len() ==> self.query_matches(
                        *qk,
                        indices@[k] as int,
                        crate::keys::derive_seed_spec(seed@, k),
                        #[trigger] out@[k],
                    ),
            decreases indices@.len() - i,
        {
            let qseed = crate::keys::derive_seed(seed, i);
            out.push(self.query_one(qk, indices[i], &qseed));
            i = i + 1;
        }
        out
    }

    /// Serves a batch: answers every query, then packs and compresses
    /// the post-projection ciphertexts in chunks of
    /// `N_VEC * pack_resp` records.
    pub fn answer(&self, pp: &RespirePublicParams, db: &Database, queries: &Vec<QueryOne>) -> (r:
        Vec<AnswerOneCompressed>)
        requires
            self.wf(),
            pp.wf_for(self),
            db.wf_for(self),
            1 <= queries@.len() <= 0xFFFF,
            forall|i: int| 0 <= i < queries@.len() ==> (#[trigger] queries@[i]).wf_for(self),
        ensures
            forall|i: int| 0 <= i < r@.len() ==> (#[trigger] r@[i]).wf_for(self),
            r@.len() == (queries@.len() + self.params.N_VEC * self.pack_resp - 1) as int / (
            self.params.N_VEC * self.pack_resp) as int,
            forall|i: int|
                0 <= i < r@.len() ==> ({
                    let cs = (self.params.N_VEC * self.pack_resp) as int;
                    let chunk_len = if queries@.len() - i * cs < cs {
                        queries@.len() - i * cs
                    } else {
                        cs
                    };
                    let full = (chunk_len + self.pack_resp - 1) / self.pack_resp as int;
                    (#[trigger] r@[i]).cm@.len() == if full < self.params.N_VEC {
                        full
                    } else {
                        self.params.N_VEC as int
                    }
                }),
    {
        let p = &self.params;
        let mut answers: Vec<crate::rlwe::Rlwe> = Vec::new();
        let mut i: usize = 0;
        while i < queries.len()
            invariant
                i <= queries@.len(),
                self.wf(),
                p == self.params,
                pp.wf_for(self),
                db.wf_for(self),
                forall|k: int| 0 <= k < queries@.len() ==> (#[trigger] queries@[k]).wf_for(self),
                queries@.len() <= 0xFFFF,
                answers@.len() == i,
                forall|k: int|
                    0 <= k < answers@.len() ==> (#[trigger] answers@[k]).wf() && answers@[k].q()
                        == p.Q1 && answers@[k].dim() == p.D1,
            decreases queries@.len() - i,
        {
            answers.push(self.answer_one(pp, db, &queries[i]));
            i = i + 1;
        }
        proof {
            assert(p.N_VEC * self.pack_resp >= 1) by (nonlinear_arith)
                requires
                    p.N_VEC >= 1,
                    self.pack_resp >= 1,
            ;
            assert(p.N_VEC * self.pack_resp <= 0x8000_0000) by (nonlinear_arith)
                requires
                    p.N_VEC <= 1024,
                    self.pack_resp * p.D3 == p.D2,
                    p.D3 >= 1,
                    p.D2 <= 65536,
                    self.pack_resp >= 1,
            ;
        }
        let chunk_size = p.N_VEC * self.pack_resp;
        let mut out: Vec<AnswerOneCompressed> = Vec::new();
        let mut base: usize = 0;
        proof {
            assert(0int * (chunk_size as int) == 0) by (nonlinear_arith);
        }
        while base < answers.len()
            invariant
                base <= answers@.len(),
                answers@.len() <= 0xFFFF,
                answers@.len() == queries@.len(),
                self.wf(),
                p == self.params,
                pp.wf_for(self),
                1 <= chunk_size,
                chunk_size <= 0x8000_0000,
                chunk_size == p.N_VEC * self.pack_resp,
                forall|k: int|
                    0 <= k < answers@.len() ==> (#[trigger] answers@[k]).wf() && answers@[k].q()
                        == p.Q1 && answers@[k].dim() == p.D1,
                forall|k: int| 0 <= k < out@.len() ==> (#[trigger] out@[k]).wf_for(self),
                base == out@.len() * chunk_size || (base == answers@.len() && out@.len() >= 1
                    && answers@.len() > (out@.len() - 1) * chunk_size && answers@.len()
                    <= out@.len() * chunk_size),
                base == answers@.len() || base == out@.len() * chunk_size,
                forall|i: int|
                    0 <= i < out@.len() ==> ({
                        let cs = chunk_size as int;
                        let chunk_len = if answers@.len() - i * cs < cs {
                            answers@.len() - i * cs
                        } else {
                            cs
                        };
                        let full = (chunk_len + self.pack_resp - 1) / self.pack_resp as int;
                        (#[trigger] out@[i]).cm@.len() == if full < p.N_VEC {
                            full
                        } else {
                            p.N_VEC as int
                        }
                    }),
            decreases answers@.len() - base,
        {
            let mut chunk: Vec<crate::rlwe::Rlwe> = Vec::new();
            let mut k: usize = 0;
            while k < chunk_size && base + k < answers.len()
                invariant
                    k <= chunk_size <= 0x8000_0000,
                    base + k <= answers@.len(),
                    answers@.len() <= 0xFFFF,
                    self.wf(),
                    p == self.params,
                    chunk_size == p.N_VEC * self.pack_resp,
                    forall|t: int|
                        0 <= t < answers@.len() ==> (#[trigger] answers@[t]).wf()
                            && answers@[t].q() == p.Q1 && answers@[t].dim() == p.D1,
                    chunk@.len() == k,
                    forall|t: int|
                        0 <= t < chunk@.len() ==> (#[trigger] chunk@[t]).wf() && chunk@[t].q()
                            == p.Q1 && chunk@[t].dim() == p.D1,
                decreases answers@.len() - (base + k),
            {
                chunk.push(answers[base + k].duplicate());
                k = k + 1;
            }
            proof {
                // within this iteration the chunk starts at a full-chunk
                // boundary: base == out.len() * chunk_size
                assert(base == out@.len() * chunk_size);
                assert(k == if answers@.len() - out@.len() * (chunk_size as int) < chunk_size {
                    answers@.len() - out@.len() * (chunk_size as int)
                } else {
                    chunk_size as int
                });
            }
            if k == 0 {
                base = answers.len();
            } else {
                let ghost old_len = out@.len();
                out.push(self.answer_compress_chunk(pp, &chunk));
                base = base + k;
                proof {
                    assert(out@.len() == old_len + 1);
                    assert((old_len + 1) * (chunk_size as int) == old_len * (chunk_size as int)
                        + chunk_size) by (nonlinear_arith);
                }
            }
        }
        proof {
            assert(base == answers@.len());
            lemma_chunk_count(answers@.len() as int, out@.len() as int, chunk_size as int);
        }
        out
    }

    /// Decrypts and decodes one compressed answer into records.
    pub fn extract_one(&self, qk: &RespireQueryKey, ans: &AnswerOneCompressed) -> (r: Vec<Vec<u8>>)
        requires
            self.wf(),
            qk.wf_for(self),
            ans.wf_for(self),
        ensures
            r@.len() == ans.cm@.len() * self.pack_resp,
            forall|i: int|
                0 <= i < r@.len() ==> (#[trigger] r@[i])@.len() == self.params.BYTES_PER_RECORD,
            forall|k: int|
                0 <= k < r@.len() ==> (#[trigger] r@[k])@ == self.spec_record_bytes(
                    self.spec_extract_row(
                        qk.s_small@[k / self.pack_resp as int]@,
                        ans.cr@,
                        ans.cm@[k / self.pack_resp as int]@,
                    ),
                    k % self.pack_resp as int,
                ),
    {
        let rings = self.extract_ring_one(qk, ans);
        let r = self.extract_bytes_one(&rings);
        proof {
            assert forall|k: int| 0 <= k < r@.len() implies (#[trigger] r@[k])@
                == self.spec_record_bytes(
                self.spec_extract_row(
                    qk.s_small@[k / self.pack_resp as int]@,
                    ans.cr@,
                    ans.cm@[k / self.pack_resp as int]@,
                ),
                k % self.pack_resp as int,
            ) by {
                let pr = self.pack_resp as int;
                vstd::arithmetic::div_mod::lemma_mod_bound(k, pr);
                vstd::arithmetic::div_mod::lemma_fundamental_div_mod(k, pr);
                assert(0 <= k / pr && k / pr < rings@.len()) by (nonlinear_arith)
                    requires
                        0 <= k,
                        k < rings@.len() * pr,
                        pr >= 1,
                        k == pr * (k / pr) + k % pr,
                        0 <= k % pr < pr,
                ;
            }
        }
        r
    }

    /// The number of records carried by the first `n` responses:
    /// `pack_resp` per kept row.
    pub open spec fn spec_resp_offset(&self, rs: Seq<AnswerOneCompressed>, n: int) -> int
        decreases n,
    {
        if n <= 0 {
            0
        } else {
            self.spec_resp_offset(rs, n - 1) + rs[n - 1].cm@.len() * self.pack_resp as int
        }
    }

    /// Offsets grow with the response index.
    proof fn lemma_resp_offset_mono(&self, rs: Seq<AnswerOneCompressed>, a: int, b: int)
        requires
            0 <= a <= b,
        ensures
            self.spec_resp_offset(rs, a) <= self.spec_resp_offset(rs, b),
        decreases b,
    {
        if a < b {
            self.lemma_resp_offset_mono(rs, a, b - 1);
            assert(rs[b - 1].cm@.len() * self.pack_resp as int >= 0) by (nonlinear_arith);
        }
    }

    /// Decrypts a whole response: the records of every response chunk in
    /// order, truncated to the first `BATCH_SIZE`.  The result holds
    /// exactly `min(BATCH_SIZE, total records carried)` entries; with the
    /// chunk counts `answer` produces, that is exactly `BATCH_SIZE`.
    pub fn extract(&self, qk: &RespireQueryKey, responses: &Vec<AnswerOneCompressed>) -> (r: Vec<
        Vec<u8>,
    >)
        requires
            self.wf(),
            qk.wf_for(self),
            forall|i: int| 0 <= i < responses@.len() ==> (#[trigger] responses@[i]).wf_for(self),
        ensures
            r@.len() == if self.spec_resp_offset(responses@, responses@.len() as int)
                < self.params.BATCH_SIZE {
                self.spec_resp_offset(responses@, responses@.len() as int)
            } else {
                self.params.BATCH_SIZE as int
            },
            forall|i: int|
                0 <= i < r@.len() ==> (#[trigger] r@[i])@.len() == self.params.BYTES_PER_RECORD,
    {
        let bs = self.params.BATCH_SIZE;
        let mut out: Vec<Vec<u8>> = Vec::new();
        let mut i: usize = 0;
        while i < responses.len()
            invariant
                i <= responses@.len(),
                self.wf(),
                bs == self.params.BATCH_SIZE,
                qk.wf_for(self),
                forall|k: int|
                    0 <= k < responses@.len() ==> (#[trigger] responses@[k]).wf_for(self),
                out@.len() == if self.spec_resp_offset(responses@, i as int) < bs {
                    self.spec_resp_offset(responses@, i as int)
                } else {
                    bs as int
                },
                forall|k: int|
                    0 <= k < out@.len() ==> (#[trigger] out@[k])@.len()
                        == self.params.BYTES_PER_RECORD,
            decreases responses@.len() - i,
        {
            let recs = self.extract_one(qk, &responses[i]);
            let mut j: usize = 0;
            while j < recs.len()
                invariant
                    j <= recs@.len(),
                    i < responses@.len(),
                    self.wf(),
                    bs == self.params.BATCH_SIZE,
                    qk.wf_for(self),
                    forall|k: int|
                        0 <= k < responses@.len() ==> (#[trigger] responses@[k]).wf_for(self),
                    recs@.len() == responses@[i as int].cm@.len() * self.pack_resp as int,
                    forall|k: int|
                        0 <= k < recs@.len() ==> (#[trigger] recs@[k])@.len()
                            == self.params.BYTES_PER_RECORD,
                    forall|k: int|
                        0 <= k < recs@.len() ==> (#[trigger] recs@[k])@
                            == self.spec_record_bytes(
                            self.spec_extract_row(
                                qk.s_small@[k / self.pack_resp as int]@,
                                responses@[i as int].cr@,
                                responses@[i as int].cm@[k / self.pack_resp as int]@,
                            ),
                            k % self.pack_resp as int,
                        ),
                    out@.len() == if self.spec_resp_offset(responses@, i as int) + j < bs {
                        self.spec_resp_offset(responses@, i as int) + j
                    } else {
                        bs as int
                    },
                    forall|k: int|
                        0 <= k < out@.len() ==> (#[trigger] out@[k])@.len()
                            == self.params.BYTES_PER_RECORD,
                decreases recs@.len() - j,
            {
                if out.len() < bs {
                    out.push(copy_seed(&recs[j]));
                }
                j = j + 1;
            }
            i = i + 1;
            proof {
                assert(self.spec_resp_offset(responses@, i as int) == self.spec_resp_offset(
                    responses@,
                    i - 1,
                ) + responses@[i - 1].cm@.len() * self.pack_resp as int);
            }
        }
        out
    }

    /// Size of one query on the wire: two 32-byte seeds plus the kept
    /// message coefficients at `ceil(log2 Q1)` bits each.
    pub fn params_query_one_size(&self) -> (r: u128)
        requires
            self.wf(),
    {
        let lq1 = ceil_log2(self.params.Q1);
        add_sat(64, (add_sat(mul_sat((self.dim1 + self.gsw_count) as u128, lq1 as u128), 7)) / 8)
    }

    /// Bytes of one record.
    pub fn params_record_one_size(&self) -> (r: u128)
        requires
            self.wf(),
        ensures
            r == self.params.BYTES_PER_RECORD,
    {
        self.params.BYTES_PER_RECORD as u128
    }

    /// Size of one compressed response with `trunc_len` message rows.
    pub fn params_response_one_size(&self, trunc_len: usize) -> (r: u128)
        requires
            self.wf(),
    {
        let lq2 = ceil_log2(self.params.Q2);
        let lq3 = ceil_log2(self.params.Q3);
        let bits = add_sat(
            mul_wide(self.params.D2 as u64, lq2),
            mul_sat(mul_wide(self.params.D2 as u64, lq3), trunc_len as u128),
        );
        add_sat(bits, 7) / 8
    }

    /// Size of the whole query batch.
    pub fn params_query_size(&self) -> (r: u128)
        requires
            self.wf(),
    {
        mul_sat(self.params.BATCH_SIZE as u128, self.params_query_one_size())
    }

    /// Bytes of the whole record batch.
    pub fn params_record_size(&self) -> (r: u128)
        requires
            self.wf(),
    {
        mul_sat(self.params.BATCH_SIZE as u128, self.params.BYTES_PER_RECORD as u128)
    }

    /// Response size of a batch, with the number of full vectors and the
    /// remainder rows.
    pub fn params_response_info(&self) -> (r: (u128, u64, u64))
        requires
            self.wf(),
    {
        proof {
            assert(self.pack_resp <= 65536) by (nonlinear_arith)
                requires
                    self.pack_resp * self.params.D3 == self.params.D2,
                    self.params.D3 >= 1,
                    self.params.D2 <= 65536,
                    self.pack_resp >= 1,
            ;
        }
        let num_ring = ((self.params.BATCH_SIZE + self.pack_resp - 1) / self.pack_resp) as u64;
        let num_full = num_ring / (self.params.N_VEC as u64);
        let num_rem = num_ring % (self.params.N_VEC as u64);
        let full_size = self.params_response_one_size(self.params.N_VEC);
        let rem_size = if num_rem > 0 {
            self.params_response_one_size(num_rem as usize)
        } else {
            0
        };
        (add_sat(mul_sat(num_full as u128, full_size), rem_size), num_full, num_rem)
    }

    /// Size of the public parameters: automorphism, conversion and
    /// vectorization keys at `ceil(log2 Q1)` bits per coefficient, plus
    /// the compression key at `ceil(log2 Q2)`.
    pub fn params_public_param_size(&self) -> (r: u128)
        requires
            self.wf(),
    {
        let p = &self.params;
        let lq1 = ceil_log2(p.Q1);
        let lq2 = ceil_log2(p.Q2);
        let auto_elems = mul_sat(mul_wide(self.ld1 as u64, (p.T_PROJ_SHORT
            + p.T_PROJ_LONG) as u64), 2);
        let conv_elems = (2 * p.M_RLWE_TO_GSW) as u128;
        let vec_elems = mul_sat(mul_wide(p.N_VEC as u64, p.T_VECTORIZE as u64), (p.N_VEC
            + 1) as u128);
        let q1_bits = mul_wide(p.D1 as u64, lq1);
        let comp_elems = add_sat(mul_wide(p.N_VEC as u64, p.T_COMPRESS as u64),
            p.T_COMPRESS as u128);
        let q2_bits = mul_wide(p.D1 as u64, lq2);
        add_sat(
            add_sat(
                mul_sat(add_sat(add_sat(auto_elems, conv_elems), vec_elems), q1_bits),
                mul_sat(comp_elems, q2_bits),
            ),
            7,
        ) / 8
    }
}

/// Encrypts a message vector as a vector-RLWE ciphertext with explicit
/// mask and noise: row `i` is `cr * s_vec[i] + e[i] + mu[i]`.
pub fn encrypt_vec_rlwe_with(s_vec: &Vec<Poly>, mu: &Vec<Poly>, cr: Poly, e: &Vec<Poly>) -> (r:
    crate::rlwe::VecRlwe)
    requires
        cr.wf(),
        s_vec@.len() == mu@.len(),
        s_vec@.len() == e@.len(),
        forall|i: int|
            0 <= i < s_vec@.len() ==> (#[trigger] s_vec@[i]).wf() && s_vec@[i].q == cr.q
                && s_vec@[i]@.len() == cr@.len(),
        forall|i: int|
            0 <= i < mu@.len() ==> (#[trigger] mu@[i]).wf() && mu@[i].q == cr.q && mu@[i]@.len()
                == cr@.len(),
        forall|i: int|
            0 <= i < e@.len() ==> (#[trigger] e@[i]).wf() && e@[i].q == cr.q && e@[i]@.len()
                == cr@.len(),
    ensures
        r.wf(),
        r.cr == cr,
        r.cm@.len() == s_vec@.len(),
        forall|i: int|
            0 <= i < r.cm@.len() ==> (#[trigger] r.cm@[i])@ == crate::rlwe::spec_encrypt_c1(
                cr@,
                s_vec@[i]@,
                e@[i]@,
                mu@[i]@,
                cr.q,
            ),
{
    let n = s_vec.len();
    let mut cm: Vec<Poly> = Vec::new();
    let mut i: usize = 0;
    while i < n
        invariant
            i <= n,
            n == s_vec@.len(),
            n == mu@.len(),
            n == e@.len(),
            cr.wf(),
            forall|k: int|
                0 <= k < s_vec@.len() ==> (#[trigger] s_vec@[k]).wf() && s_vec@[k].q == cr.q
                    && s_vec@[k]@.len() == cr@.len(),
            forall|k: int|
                0 <= k < mu@.len() ==> (#[trigger] mu@[k]).wf() && mu@[k].q == cr.q
                    && mu@[k]@.len() == cr@.len(),
            forall|k: int|
                0 <= k < e@.len() ==> (#[trigger] e@[k]).wf() && e@[k].q == cr.q && e@[k]@.len()
                    == cr@.len(),
            cm@.len() == i,
            forall|k: int|
                0 <= k < i ==> (#[trigger] cm@[k]).wf() && cm@[k].q == cr.q && cm@[k]@.len()
                    == cr@.len() && cm@[k]@ == crate::rlwe::spec_encrypt_c1(
                    cr@,
                    s_vec@[k]@,
                    e@[k]@,
                    mu@[k]@,
                    cr.q,
                ),
        decreases n - i,
    {
        let row = cr.mul(&s_vec[i]).add(&e[i]).add(&mu[i]);
        cm.push(row);
        i = i + 1;
    }
    crate::rlwe::VecRlwe { cr, cm }
}

/// Decrypts a vector-RLWE ciphertext row-wise: `cm[i] - cr * s_vec[i]`.
/// Together with `encrypt_vec_rlwe_with` and the RLWE round-trip law this
/// gives the vector round trip: the mask cancels row by row.
pub fn decrypt_vec_rlwe(s_vec: &Vec<Poly>, c: &crate::rlwe::VecRlwe) -> (r: Vec<Poly>)
    requires
        c.wf(),
        s_vec@.len() == c.cm@.len(),
        forall|i: int|
            0 <= i < s_vec@.len() ==> (#[trigger] s_vec@[i]).wf() && s_vec@[i].q == c.cr.q
                && s_vec@[i]@.len() == c.cr@.len(),
    ensures
        r@.len() == c.cm@.len(),
        forall|i: int|
            0 <= i < r@.len() ==> (#[trigger] r@[i])@ == crate::rlwe::spec_decrypt(
                c.cr@,
                c.cm@[i]@,
                s_vec@[i]@,
                c.cr.q,
            ),
{
    let n = c.cm.len();
    let mut out: Vec<Poly> = Vec::new();
    let mut i: usize = 0;
    while i < n
        invariant
            i <= n,
            n == c.cm@.len(),
            n == s_vec@.len(),
            c.wf(),
            forall|k: int|
                0 <= k < s_vec@.len() ==> (#[trigger] s_vec@[k]).wf() && s_vec@[k].q == c.cr.q
                    && s_vec@[k]@.len() == c.cr@.len(),
            out@.len() == i,
            forall|k: int|
                0 <= k < i ==> (#[trigger] out@[k])@ == crate::rlwe::spec_decrypt(
                    c.cr@,
                    c.cm@[k]@,
                    s_vec@[k]@,
                    c.cr.q,
                ),
        decreases n - i,
    {
        proof {
            assert(c.cm@[i as int].wf() && c.cr.same_ring(&c.cm@[i as int]));
        }
        let row = c.cm[i].sub(&c.cr.mul(&s_vec[i]));
        out.push(row);
        i = i + 1;
    }
    out
}

/// If `n` items fill `m` chunks of size `cs` with only the last one
/// short, then `m` is the ceiling of `n / cs`.
proof fn lemma_chunk_count(n: int, m: int, cs: int)
    requires
        1 <= cs,
        0 <= n,
        0 <= m,
        n == m * cs || (m >= 1 && n > (m - 1) * cs && n <= m * cs),
    ensures
        m == (n + cs - 1) / cs,
{
    if n == m * cs {
        if m == 0 {
            assert((cs - 1) / cs == 0) by (nonlinear_arith)
                requires
                    cs >= 1,
            ;
        } else {
            assert((m * cs + cs - 1) / cs == m) by (nonlinear_arith)
                requires
                    cs >= 1,
                    m >= 0,
            ;
        }
    } else {
        assert((n + cs - 1) / cs == m) by (nonlinear_arith)
            requires
                cs >= 1,
                m >= 1,
                n > (m - 1) * cs,
                n <= m * cs,
        ;
    }
}

/// A copy of a 32-byte seed.
fn copy_seed(s: &Vec<u8>) -> (r: Vec<u8>)
    ensures
        r@ == s@,
{
    let mut r: Vec<u8> = Vec::new();
    let mut i: usize = 0;
    while i < s.len()
        invariant
            i <= s@.len(),
            r@.len() == i,
            forall|k: int| 0 <= k < i ==> r@[k] == s@[k],
        decreases s@.len() - i,
    {
        r.push(s[i]);
        i = i + 1;
    }
    proof {
        assert(r@ =~= s@);
    }
    r
}

/// A copy of a GSW ciphertext (column views preserved).
fn copy_gsw(g: &crate::gsw::Gsw) -> (r: crate::gsw::Gsw)
    requires
        g.wf(),
    ensures
        r.wf(),
        r.q() == g.q(),
        r.dim() == g.dim(),
        r.m() == g.m(),
        forall|k: int|
            0 <= k < g.cols@.len() ==> (#[trigger] r.cols@[k]).c0@ == g.cols@[k].c0@
                && r.cols@[k].c1@ == g.cols@[k].c1@,
{
    let mut cols: Vec<crate::rlwe::Rlwe> = Vec::new();
    let mut i: usize = 0;
    while i < g.cols.len()
        invariant
            g.wf(),
            i <= g.cols@.len(),
            cols@.len() == i,
            forall|k: int|
                0 <= k < i ==> (#[trigger] cols@[k]).wf() && cols@[k].q() == g.q()
                    && cols@[k].dim() == g.dim() && cols@[k].c0@ == g.cols@[k].c0@
                    && cols@[k].c1@ == g.cols@[k].c1@,
        decreases g.cols@.len() - i,
    {
        proof {
            assert(g.cols@[i as int].wf());
            assert(g.cols@[0].same_ring(&g.cols@[i as int]));
        }
        cols.push(g.cols[i].duplicate());
        i = i + 1;
    }
    let r = crate::gsw::Gsw { cols };
    proof {
        assert(r.cols@[0].same_ring(&r.cols@[0]));
        assert forall|k: int| 0 <= k < r.cols@.len() implies r.cols@[0].same_ring(
            &(#[trigger] r.cols@[k]),
        ) by {}
    }
    r
}

/// The dimension, a power of two of exponent at most 16, stays below
/// `2^32` (so its indices fit the bit-reversal bound).
proof fn lemma_dim_below_pow32(d: nat, e: nat)
    requires
        d == pow2(e),
        e <= 16,
    ensures
        d < 0x1_0000_0000,
{
    vstd::arithmetic::power2::lemma2_to64();
    if e < 16 {
        vstd::arithmetic::power2::lemma_pow2_strictly_increases(e, 16);
    }
}

/// Index bounds used by the database layout.
proof fn lemma_db_index_bounds(dim1: int, dim2: int, pack: int)
    requires
        dim1 >= 1,
        dim2 >= 1,
        pack >= 1,
    ensures
        forall|j2: int, i1: int|
            0 <= i1 < dim1 && 0 <= j2 < dim2 ==> 0 <= #[trigger] (j2 * dim1 + i1) < dim2 * dim1,
{
    assert forall|j2: int, i1: int|
        0 <= i1 < dim1 && 0 <= j2 < dim2 implies 0 <= #[trigger] (j2 * dim1 + i1) < dim2
        * dim1 by {
        assert(j2 * dim1 + i1 < dim2 * dim1) by (nonlinear_arith)
            requires
                0 <= i1 < dim1,
                0 <= j2 < dim2,
        ;
        assert(j2 * dim1 >= 0) by (nonlinear_arith)
            requires
                j2 >= 0,
                dim1 >= 1,
        ;
    }
}

/// For powers of two `a >= b`, the quotient `a / b` is the power of two
/// `a` has over `b`, and it multiplies back exactly.
proof fn lemma_pow2_ratio(a: nat, b: nat)
    requires
        exists|e: nat| a == pow2(e),
        exists|e: nat| b == pow2(e),
        b <= a,
    ensures
        (a / b) * b == a,
        exists|e: nat| a / b == pow2(e),
{
    let ea = choose|e: nat| a == pow2(e);
    let eb = choose|e: nat| b == pow2(e);
    if ea < eb {
        vstd::arithmetic::power2::lemma_pow2_strictly_increases(ea, eb);
        assert(false);
    }
    vstd::arithmetic::power2::lemma_pow2_subtracts(eb, ea);
    vstd::arithmetic::power2::lemma_pow2_pos(eb);
    vstd::arithmetic::power2::lemma_pow2_pos((ea - eb) as nat);
    assert(pow2((ea - eb) as nat) * pow2(eb) == pow2(ea)) by {
        vstd::arithmetic::power2::lemma_pow2_adds((ea - eb) as nat, eb);
    }
    vstd::arithmetic::div_mod::lemma_div_multiples_vanish(pow2((ea - eb) as nat) as int, b as int);
    assert(a / b == pow2((ea - eb) as nat));
}

} // verus!
