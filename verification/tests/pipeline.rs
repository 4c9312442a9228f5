//! End-to-end protocol runs at test-sized dimensions (the working ring is
//! kept small so the schoolbook ring products stay fast), plus parameter
//! validation and the record-shape errors.
use respire::params::{FactoryParams, RecordBytesImpl, RespireError, RespireParams};
use respire::respire::RespireImpl;

fn seed(tag: u8) -> Vec<u8> {
    let mut s = vec![0u8; 32];
    s[0] = tag;
    s
}

/// A small instance: 32 records of 4 bytes, ring dimension 64,
/// noiseless errors so the runs are exact and deterministic.
fn test_params(batch_size: usize) -> RespireParams {
    RespireParams {
        Q1A: 257,
        Q1B: 641,
        D1: 64,
        T_GSW: 9,
        T_PROJ_SHORT: 6,
        T_PROJ_LONG: 9,
        T_RLWE_TO_GSW: 9,
        T_VECTORIZE: 9,
        BATCH_SIZE: batch_size,
        N_VEC: 1,
        ERROR_WIDTH_MILLIONTHS: 0,
        ERROR_WIDTH_VEC_MILLIONTHS: 0,
        ERROR_WIDTH_COMPRESS_MILLIONTHS: 0,
        SECRET_BOUND: 2,
        SECRET_WIDTH_VEC_MILLIONTHS: 0,
        SECRET_WIDTH_COMPRESS_MILLIONTHS: 0,
        P: 4,
        D3: 16,
        NU1: 2,
        NU2: 1,
        Q3: 256,
        Q2: 12289,
        D2: 32,
    }
}

fn instance(batch_size: usize) -> RespireImpl {
    RespireImpl::new(test_params(batch_size).expand()).unwrap()
}

fn run_single(ri: &RespireImpl, records: &Vec<Vec<u8>>, idx: usize, tag: u8) -> Vec<u8> {
    let (qk, pp) = ri.setup(&seed(tag));
    let db = ri.encode_db(records).unwrap();
    let q = ri.query_one(&qk, idx, &seed(tag.wrapping_add(1)));
    let ans = ri.answer_one(&pp, &db, &q);
    let chunk = vec![ans];
    let compressed = ri.answer_compress_chunk(&pp, &chunk);
    let recs = ri.extract_one(&qk, &compressed);
    recs[0].clone()
}

fn zero_db(n: usize, bytes: usize) -> Vec<Vec<u8>> {
    (0..n).map(|_| vec![0u8; bytes]).collect()
}

#[test]
fn retrieves_all_zero_record() {
    let ri = instance(1);
    let n = ri.num_records;
    let db = zero_db(n, 4);
    let got = run_single(&ri, &db, 0, 1);
    assert_eq!(got, vec![0u8; 4]);
}

#[test]
fn retrieves_all_ones_record() {
    let ri = instance(1);
    let n = ri.num_records;
    let mut db = zero_db(n, 4);
    db[0] = vec![0xFFu8; 4];
    let got = run_single(&ri, &db, 0, 3);
    assert_eq!(got, vec![0xFFu8; 4]);
}

fn indexed_db(n: usize) -> Vec<Vec<u8>> {
    (0..n).map(|i| (i as u32).to_le_bytes().to_vec()).collect()
}

#[test]
fn retrieves_indexed_record() {
    let ri = instance(1);
    let n = ri.num_records;
    let db = indexed_db(n);
    let idx = 23usize;
    let got = run_single(&ri, &db, idx, 5);
    assert_eq!(got, (idx as u32).to_le_bytes().to_vec());
}

#[test]
fn retrieves_first_and_last_record() {
    let ri = instance(1);
    let n = ri.num_records;
    let db = indexed_db(n);
    let got_last = run_single(&ri, &db, n - 1, 7);
    assert_eq!(got_last, ((n - 1) as u32).to_le_bytes().to_vec());
    let got_first = run_single(&ri, &db, 0, 9);
    assert_eq!(got_first, (0u32).to_le_bytes().to_vec());
}

#[test]
fn batch_of_equal_indices_agrees() {
    let ri = instance(2);
    let n = ri.num_records;
    let db_bytes = indexed_db(n);
    let (qk, pp) = ri.setup(&seed(11));
    let db = ri.encode_db(&db_bytes).unwrap();
    let queries = ri.query(&qk, &vec![7usize, 7usize], &seed(12));
    let responses = ri.answer(&pp, &db, &queries);
    let records = ri.extract(&qk, &responses);
    assert_eq!(records.len(), 2);
    assert_eq!(records[0], (7u32).to_le_bytes().to_vec());
    assert_eq!(records[1], records[0]);
}

#[test]
fn tampered_public_parameter_breaks_the_round_trip() {
    // adversarial behavior, not a promise of the core: flipping one
    // public-parameter coefficient corrupts the extracted record with
    // overwhelming probability
    let ri = instance(1);
    let n = ri.num_records;
    let db_bytes = indexed_db(n);
    let (qk, mut pp) = ri.setup(&seed(21));
    let db = ri.encode_db(&db_bytes).unwrap();
    let q1 = ri.params.Q1;
    let old = pp.auto_keys_long[0].w[0].c1.coeffs[0];
    pp.auto_keys_long[0].w[0].c1.coeffs[0] = (old + q1 / 2) % q1;
    let q = ri.query_one(&qk, 23, &seed(22));
    let ans = ri.answer_one(&pp, &db, &q);
    let chunk = vec![ans];
    let compressed = ri.answer_compress_chunk(&pp, &chunk);
    let recs = ri.extract_one(&qk, &compressed);
    assert_ne!(recs[0], (23u32).to_le_bytes().to_vec());
}

#[test]
fn parameter_validation_rejects_bad_sets() {
    // non-power-of-two ring dimension
    let mut p = test_params(1);
    p.D1 = 48;
    assert!(matches!(RespireImpl::new(p.expand()), Err(RespireError::Params)));
    // moduli not congruent to 1 mod 2*D1
    let mut p2 = test_params(1);
    p2.Q1A = 263;
    assert!(matches!(RespireImpl::new(p2.expand()), Err(RespireError::Params)));
    // plaintext modulus not a supported power of two
    let mut p3 = test_params(1);
    p3.P = 6;
    assert!(matches!(RespireImpl::new(p3.expand()), Err(RespireError::Params)));
}

#[test]
fn record_shape_errors_are_reported() {
    let ri = instance(1);
    let n = ri.num_records;
    // wrong record count
    let too_few = zero_db(n - 1, 4);
    assert!(matches!(ri.encode_db(&too_few), Err(RespireError::RecordShape)));
    // wrong record length
    let mut bad_len = zero_db(n, 4);
    bad_len[3] = vec![0u8; 5];
    assert!(matches!(ri.encode_db(&bad_len), Err(RespireError::RecordShape)));
    // correct shape passes
    assert!(ri.encode_db(&zero_db(n, 4)).is_ok());
}

#[test]
fn presets_validate() {
    let single = FactoryParams::single_record_32(9, 6);
    assert_eq!(single.P, 4);
    assert_eq!(single.D3, 128);
    let rp = single.to_params();
    let ex = rp.expand();
    assert_eq!(ex.Q1, 268369921u64 * 249561089u64);
    assert_eq!(ex.BYTES_PER_RECORD, 32);
    let ri = RespireImpl::new(ex).unwrap();
    assert_eq!(ri.num_records, 1 << 19);
    assert_eq!(ri.pack_db, 16);

    let batch = FactoryParams::batch_32(4, 2, 6, 3);
    let ex2 = batch.to_params().expand();
    assert_eq!(ex2.BYTES_PER_RECORD, 32);
    let ri2 = RespireImpl::new(ex2).unwrap();
    assert_eq!(ri2.pack_resp, 16);
}

#[test]
fn record_bytes_wrapper_checks_length() {
    let r = RecordBytesImpl::from_bytes(&vec![1, 2, 3, 4], 4);
    assert!(r.is_some());
    assert_eq!(r.unwrap().as_bytes(), &vec![1, 2, 3, 4]);
    assert!(RecordBytesImpl::from_bytes(&vec![1, 2, 3], 4).is_none());
    let z = RecordBytesImpl::zero_record(4);
    assert_eq!(z.as_bytes(), &vec![0u8; 4]);
}
