//! Unit tests for the arithmetic, ring, gadget, codec and encryption layers.
use respire::arith::{
    add_mod, ceil_log2, check_pow2, floor_log2, inv_pow2_mod, mul_mod, neg_mod, reverse_bits,
    sub_mod,
};
use respire::codec::{decode_record, encode_record, round_down_poly, scale_up_poly};
use respire::gadget::{base_from_len, gadget_decompose};
use respire::gsw::select_hom;
use respire::keys::{encrypt_gsw_bit_seeded, powers_mod};
use respire::ring::Poly;
use respire::rlwe::{
    decrypt_rlwe, encrypt_rlwe_seeded, encrypt_rlwe_with, rlwe_recover_from_seeded, SeededRlwe,
};
use respire::respire::{decrypt_vec_rlwe, encrypt_vec_rlwe_with};
use respire::rng::{bounded_poly_from_seed, noise_poly_from_seed, uniform_poly_from_seed};

fn seed(tag: u8) -> Vec<u8> {
    let mut s = vec![0u8; 32];
    s[0] = tag;
    s
}

#[test]
fn scalar_mod_ops() {
    assert_eq!(add_mod(5, 9, 11), 3);
    assert_eq!(sub_mod(3, 7, 11), 7);
    assert_eq!(neg_mod(0, 11), 0);
    assert_eq!(neg_mod(4, 11), 7);
    assert_eq!(mul_mod(7, 8, 11), 1);
}

#[test]
fn log_and_pow_helpers() {
    assert_eq!(floor_log2(1), 0);
    assert_eq!(floor_log2(2048), 11);
    assert_eq!(floor_log2(2049), 11);
    assert_eq!(ceil_log2(1), 0);
    assert_eq!(ceil_log2(3), 2);
    assert_eq!(ceil_log2(16), 4);
    assert!(check_pow2(64));
    assert!(!check_pow2(0));
    assert!(!check_pow2(48));
}

#[test]
fn inverse_of_pow2() {
    let q: u64 = 164737; // 257 * 641, odd
    let inv = inv_pow2_mod(6, q);
    assert_eq!((inv as u128 * 64) % q as u128, 1);
}

#[test]
fn reverse_bits_examples() {
    assert_eq!(reverse_bits(0b1, 3), 0b100);
    assert_eq!(reverse_bits(0b110, 3), 0b011);
    assert_eq!(reverse_bits(5, 0), 0);
    // involutive on the low bits
    for x in 0u64..16 {
        assert_eq!(reverse_bits(reverse_bits(x, 4), 4), x);
    }
}

#[test]
fn negacyclic_multiplication_wraps_with_sign() {
    let q: u64 = 97;
    // (X^3) * (X) == X^4 == -1 in Z_97[X]/(X^4+1)
    let a = Poly::from_coeffs(q, vec![0, 0, 0, 1]);
    let b = Poly::from_coeffs(q, vec![0, 1, 0, 0]);
    let c = a.mul(&b);
    assert_eq!(c.coeffs, vec![96, 0, 0, 0]);
    // (1 + X) * (1 + X) == 1 + 2X + X^2
    let d = Poly::from_coeffs(q, vec![1, 1, 0, 0]);
    let e = d.mul(&d);
    assert_eq!(e.coeffs, vec![1, 2, 1, 0]);
}

#[test]
fn mul_x_pow_rotates_and_inverts() {
    let q: u64 = 97;
    let a = Poly::from_coeffs(q, vec![1, 2, 3, 4]);
    let r = a.mul_x_pow(1);
    // X * (1 + 2X + 3X^2 + 4X^3) = -4 + X + 2X^2 + 3X^3
    assert_eq!(r.coeffs, vec![93, 1, 2, 3]);
    // rotating by k then by 2d-k returns the input
    for k in 1..8 {
        let back = a.mul_x_pow(k).mul_x_pow(8 - k);
        assert_eq!(back.coeffs, a.coeffs);
    }
    assert_eq!(a.mul_x_pow(0).coeffs, a.coeffs);
}

#[test]
fn automorphism_permutes_with_signs() {
    let q: u64 = 97;
    // f(X) = X over Z_97[X]/(X^4+1); tau_3(f) = X^3
    let a = Poly::from_coeffs(q, vec![0, 1, 0, 0]);
    let t = a.auto(3);
    assert_eq!(t.coeffs, vec![0, 0, 0, 1]);
    // f(X) = X^2 -> X^6 = -X^2
    let b = Poly::from_coeffs(q, vec![0, 0, 1, 0]);
    let t2 = b.auto(3);
    assert_eq!(t2.coeffs, vec![0, 0, 96, 0]);
}

#[test]
fn gadget_decompose_recomposes() {
    let q: u64 = 164737;
    let z = base_from_len(6, q);
    assert!((z as u128).pow(6) >= q as u128);
    assert!(((z - 1) as u128).pow(6) < q as u128);
    let x = Poly::from_coeffs(q, vec![164736, 12345, 0, 77]);
    let digs = gadget_decompose(&x, z, 6);
    assert_eq!(digs.len(), 6);
    // recompose each coefficient against the gadget vector
    for c in 0..4 {
        let mut acc: u128 = 0;
        let mut zp: u128 = 1;
        for j in 0..6 {
            assert!(digs[j].coeffs[c] < z);
            acc += digs[j].coeffs[c] as u128 * zp;
            zp *= z as u128;
        }
        assert_eq!(acc as u64, x.coeffs[c]);
    }
}

#[test]
fn powers_mod_matches() {
    let pows = powers_mod(3, 5, 1000);
    assert_eq!(pows, vec![1, 3, 9, 27, 81]);
}

#[test]
fn record_codec_round_trip() {
    let bytes = vec![0x00u8, 0xFF, 0x12, 0xAB];
    let rec = encode_record(&bytes, 2);
    assert_eq!(rec.coeffs.len(), 16);
    // 0x1B reads as the four 2-bit groups 00 01 10 11, MSB first
    let rec2 = encode_record(&vec![0x1B], 2);
    assert_eq!(rec2.coeffs, vec![0, 1, 2, 3]);
    let back = decode_record(&rec, 2);
    assert_eq!(back, bytes);
    // 1-bit groups
    let rec3 = encode_record(&vec![0b1010_0001], 1);
    assert_eq!(rec3.coeffs, vec![1, 0, 1, 0, 0, 0, 0, 1]);
    assert_eq!(decode_record(&rec3, 1), vec![0b1010_0001]);
}

#[test]
fn scaling_round_trip_survives_noise() {
    let p: u64 = 4;
    let q: u64 = 164737;
    let m = Poly::from_coeffs(p, vec![0, 1, 2, 3]);
    let up = scale_up_poly(&m, q);
    // inject small additive noise
    let mut noisy = up.coeffs.clone();
    noisy[0] = (noisy[0] + 5) % q;
    noisy[1] = (noisy[1] + q - 5) % q;
    let noisy_poly = Poly::from_coeffs(q, noisy);
    let down = round_down_poly(&noisy_poly, p);
    assert_eq!(down.coeffs, m.coeffs);
}

#[test]
fn prg_stream_is_deterministic_and_nontrivial() {
    let a = uniform_poly_from_seed(&seed(1), 64, 164737);
    let b = uniform_poly_from_seed(&seed(1), 64, 164737);
    let c = uniform_poly_from_seed(&seed(2), 64, 164737);
    assert_eq!(a.coeffs, b.coeffs);
    assert_ne!(a.coeffs, c.coeffs);
    // a degenerate stream (all zeros, or the seed echoed) would make the
    // coefficients constant; the keystream never does
    let first = a.coeffs[0];
    assert!(a.coeffs.iter().any(|&x| x != first));
}

#[test]
fn samplers_respect_bounds() {
    let q: u64 = 164737;
    let s = bounded_poly_from_seed(&seed(3), 64, q, 2);
    for &c in s.coeffs.iter() {
        assert!(c < 2 || c >= q - 2);
    }
    let e = noise_poly_from_seed(&seed(4), 64, q, 6);
    for &c in e.coeffs.iter() {
        assert!(c <= 6 || c >= q - 6);
    }
    let z = noise_poly_from_seed(&seed(5), 64, q, 0);
    assert!(z.coeffs.iter().all(|&c| c == 0));
}

#[test]
fn rlwe_round_trip_exact_without_noise() {
    let q: u64 = 164737;
    let d = 64usize;
    let s = bounded_poly_from_seed(&seed(6), d, q, 2);
    let mut mu_coeffs = vec![0u64; d];
    mu_coeffs[0] = 41184;
    mu_coeffs[5] = 123;
    let mu = Poly::from_coeffs(q, mu_coeffs.clone());
    let c0 = uniform_poly_from_seed(&seed(7), d, q);
    let zero = Poly::zero(d, q);
    let ct = encrypt_rlwe_with(&s, &mu, c0, &zero);
    let dec = decrypt_rlwe(&s, &ct);
    assert_eq!(dec.coeffs, mu_coeffs);
}

#[test]
fn seeded_rlwe_recovers_the_encryptor_mask() {
    let q: u64 = 164737;
    let d = 64usize;
    let s = bounded_poly_from_seed(&seed(8), d, q, 2);
    let mut mu_coeffs = vec![0u64; d];
    mu_coeffs[3] = 777;
    let mu = Poly::from_coeffs(q, mu_coeffs.clone());
    let ct = encrypt_rlwe_seeded(&s, &mu, seed(9), &seed(10), 0);
    // the server only sees (seed, c1) and must regenerate c0 bit-identically
    let recovered = rlwe_recover_from_seeded(&SeededRlwe { seed: ct.seed.clone(), c1: ct.c1.clone() });
    let dec = decrypt_rlwe(&s, &recovered);
    assert_eq!(dec.coeffs, mu_coeffs);
}

#[test]
fn gsw_select_chooses_branch() {
    let q: u64 = 164737;
    let d = 16usize;
    let p: u64 = 4;
    let s = bounded_poly_from_seed(&seed(11), d, q, 2);
    // two RLWE ciphertexts of plaintexts 1 and 3 (scaled), zero noise
    let m0 = Poly::from_coeffs(p, {
        let mut v = vec![0u64; d];
        v[0] = 1;
        v
    });
    let m1 = Poly::from_coeffs(p, {
        let mut v = vec![0u64; d];
        v[0] = 3;
        v
    });
    let zero = Poly::zero(d, q);
    let c0 = encrypt_rlwe_with(&s, &scale_up_poly(&m0, q), uniform_poly_from_seed(&seed(12), d, q), &zero);
    let c1 = encrypt_rlwe_with(&s, &scale_up_poly(&m1, q), uniform_poly_from_seed(&seed(13), d, q), &zero);
    // GSW bits, zero noise (t = 9, z = 4 covers q)
    let z = base_from_len(9, q);
    for bit in 0..2u64 {
        let g = encrypt_gsw_bit_seeded(&s, bit, z, 9, 0, &seed(14 + bit as u8));
        let sel = select_hom(&c0, &c1, &g, z, 9);
        let dec = decrypt_rlwe(&s, &sel);
        let msg = round_down_poly(&dec, p);
        let expected = if bit == 0 { 1 } else { 3 };
        assert_eq!(msg.coeffs[0], expected);
        assert!(msg.coeffs[1..].iter().all(|&x| x == 0));
    }
}

#[test]
fn vec_rlwe_round_trip_exact_without_noise() {
    let q: u64 = 164737;
    let d = 16usize;
    let s0 = bounded_poly_from_seed(&seed(31), d, q, 2);
    let s1 = bounded_poly_from_seed(&seed(32), d, q, 2);
    let mut m0 = vec![0u64; d];
    m0[0] = 100;
    let mut m1 = vec![0u64; d];
    m1[7] = 200;
    let s_vec = vec![s0, s1];
    let mu = vec![Poly::from_coeffs(q, m0.clone()), Poly::from_coeffs(q, m1.clone())];
    let e = vec![Poly::zero(d, q), Poly::zero(d, q)];
    let cr = uniform_poly_from_seed(&seed(33), d, q);
    let ct = encrypt_vec_rlwe_with(&s_vec, &mu, cr, &e);
    let dec = decrypt_vec_rlwe(&s_vec, &ct);
    assert_eq!(dec[0].coeffs, m0);
    assert_eq!(dec[1].coeffs, m1);
}

#[test]
fn ciphertext_subtraction_subtracts_messages() {
    let q: u64 = 164737;
    let d = 16usize;
    let s = bounded_poly_from_seed(&seed(41), d, q, 2);
    let mut ma = vec![0u64; d];
    ma[2] = 500;
    let mut mb = vec![0u64; d];
    mb[2] = 123;
    let zero = Poly::zero(d, q);
    let ca = encrypt_rlwe_with(&s, &Poly::from_coeffs(q, ma), uniform_poly_from_seed(&seed(42), d, q), &zero);
    let cb = encrypt_rlwe_with(&s, &Poly::from_coeffs(q, mb), uniform_poly_from_seed(&seed(43), d, q), &zero);
    let diff = ca.sub(&cb);
    let dec = decrypt_rlwe(&s, &diff);
    assert_eq!(dec.coeffs[2], 377);
    assert!(dec.coeffs.iter().enumerate().all(|(i, &x)| i == 2 || x == 0));
}
