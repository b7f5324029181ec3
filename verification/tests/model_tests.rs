use fedavg::aggregate::{federated_averaging, AveragingError, PendingUpdate};
use fedavg::model::LinearModel;

fn mk_model(input_dim: usize, output_dim: usize, fill: f32) -> LinearModel {
    let weights: Vec<u32> = std::iter::repeat(fill.to_bits())
        .take(output_dim * input_dim)
        .collect();
    let bias: Vec<u32> = std::iter::repeat(fill.to_bits()).take(output_dim).collect();
    LinearModel::from_bits(input_dim, output_dim, weights, bias).unwrap()
}

#[test]
fn round_trip_is_exact() {
    let weights = vec![1.5f32.to_bits(), (-0.25f32).to_bits()];
    let bias = vec![3.75f32.to_bits()];
    let m = LinearModel::from_bits(2, 1, weights.clone(), bias.clone()).unwrap();
    let bytes = m.serialize();
    let back = LinearModel::deserialize(&bytes).unwrap();
    assert_eq!(back.input_dim, 2);
    assert_eq!(back.output_dim, 1);
    assert_eq!(back.weights, weights);
    assert_eq!(back.bias, bias);
}

#[test]
fn round_trip_odd_bit_patterns() {
    // NaN payloads and negative zero must survive bit-for-bit.
    let weights = vec![f32::NAN.to_bits() | 0x1234, (-0.0f32).to_bits()];
    let bias = vec![f32::INFINITY.to_bits(), f32::MIN_POSITIVE.to_bits()];
    let m = LinearModel::from_bits(1, 2, weights.clone(), bias.clone()).unwrap();
    let back = LinearModel::deserialize(&m.serialize()).unwrap();
    assert_eq!(back.weights, weights);
    assert_eq!(back.bias, bias);
}

#[test]
fn serialize_layout_is_little_endian() {
    let m = LinearModel::from_bits(1, 1, vec![1.0f32.to_bits()], vec![2.0f32.to_bits()]).unwrap();
    let bytes = m.serialize();
    let mut expected: Vec<u8> = Vec::new();
    expected.extend_from_slice(&1u64.to_le_bytes());
    expected.extend_from_slice(&1u64.to_le_bytes());
    expected.extend_from_slice(&1.0f32.to_bits().to_le_bytes());
    expected.extend_from_slice(&2.0f32.to_bits().to_le_bytes());
    assert_eq!(bytes, expected);
}

#[test]
fn round_trip_empty_model() {
    let m = LinearModel::from_bits(0, 0, vec![], vec![]).unwrap();
    let bytes = m.serialize();
    assert_eq!(bytes.len(), 16);
    let back = LinearModel::deserialize(&bytes).unwrap();
    assert_eq!(back.input_dim, 0);
    assert_eq!(back.output_dim, 0);
    assert!(back.weights.is_empty());
    assert!(back.bias.is_empty());
}

#[test]
fn deserialize_rejects_malformed() {
    assert!(LinearModel::deserialize(&[]).is_err());
    assert!(LinearModel::deserialize(&[0u8; 15]).is_err());
    // A valid encoding with a trailing byte no longer matches its length
    // equation.
    let mut bytes = mk_model(2, 1, 1.0).serialize();
    bytes.push(0);
    assert!(LinearModel::deserialize(&bytes).is_err());
    // A header promising more words than the payload carries.
    let mut short = Vec::new();
    short.extend_from_slice(&2u64.to_le_bytes());
    short.extend_from_slice(&1u64.to_le_bytes());
    short.extend_from_slice(&0u32.to_le_bytes());
    assert!(LinearModel::deserialize(&short).is_err());
    // A header with absurd dimensions.
    let mut huge = Vec::new();
    huge.extend_from_slice(&u64::MAX.to_le_bytes());
    huge.extend_from_slice(&u64::MAX.to_le_bytes());
    huge.extend_from_slice(&[0u8; 32]);
    assert!(LinearModel::deserialize(&huge).is_err());
}

#[test]
fn from_bits_checks_lengths() {
    assert!(LinearModel::from_bits(2, 1, vec![0, 0, 0], vec![0]).is_none());
    assert!(LinearModel::from_bits(2, 1, vec![0, 0], vec![0, 0]).is_none());
    assert!(LinearModel::from_bits(2, 1, vec![0, 0], vec![0]).is_some());
}

#[test]
fn new_model_is_zeroed() {
    let m = LinearModel::new(3, 2);
    assert_eq!(m.input_dim, 3);
    assert_eq!(m.output_dim, 2);
    assert_eq!(m.weights, vec![0u32; 6]);
    assert_eq!(m.bias, vec![0u32; 2]);
    assert_eq!(m.weights[0], 0.0f32.to_bits());
}

#[test]
fn averaging_rejects_empty_input() {
    match federated_averaging(Vec::new()) {
        Err(AveragingError::EmptyInput) => {},
        _ => panic!("empty input must yield EmptyInput"),
    }
}

#[test]
fn averaging_rejects_shape_mismatch() {
    let a = PendingUpdate { worker_id: String::from("a"), model: mk_model(2, 1, 1.0), sample_count: 1 };
    let b = PendingUpdate { worker_id: String::from("b"), model: mk_model(3, 1, 1.0), sample_count: 1 };
    match federated_averaging(vec![a, b]) {
        Err(AveragingError::ShapeMismatch) => {},
        _ => panic!("differing shapes must yield ShapeMismatch"),
    }
}

#[test]
fn averaging_totals_sample_counts() {
    let ups = vec![
        PendingUpdate { worker_id: String::from("a"), model: mk_model(2, 2, 1.0), sample_count: 2 },
        PendingUpdate { worker_id: String::from("b"), model: mk_model(2, 2, 4.0), sample_count: 3 },
        PendingUpdate { worker_id: String::from("c"), model: mk_model(2, 2, 7.0), sample_count: 5 },
    ];
    let plan = federated_averaging(ups).unwrap();
    assert_eq!(plan.total_weight, 10);
    assert_eq!(plan.input_dim, 2);
    assert_eq!(plan.output_dim, 2);
    assert_eq!(plan.updates.len(), 3);
    assert_eq!(plan.updates[0].worker_id, "a");
    assert_eq!(plan.updates[1].sample_count, 3);
    assert_eq!(plan.updates[2].model.weights[0], 7.0f32.to_bits());
}

#[test]
fn wire_words_round_trip() {
    let mut buf: Vec<u8> = Vec::new();
    fedavg::wire::push_u64_le(&mut buf, 0x0123_4567_89ab_cdef);
    assert_eq!(buf, vec![0xef, 0xcd, 0xab, 0x89, 0x67, 0x45, 0x23, 0x01]);
    assert_eq!(fedavg::wire::read_u64_le(&buf, 0), 0x0123_4567_89ab_cdef);
    let words = vec![0u32, u32::MAX, 0xdead_beef];
    let mut wbuf: Vec<u8> = Vec::new();
    fedavg::wire::push_words_le(&mut wbuf, &words);
    assert_eq!(wbuf.len(), 12);
    for (i, w) in words.iter().enumerate() {
        assert_eq!(fedavg::wire::read_u32_le(&wbuf, 4 * i), *w);
    }
}
