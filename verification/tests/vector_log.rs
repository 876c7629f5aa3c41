use review_search::error::StoreError;
use review_search::vector_log::{decode_log, encode_log, encode_vector};

fn bits(values: &[f32]) -> Vec<u32> {
    values.iter().map(|x| x.to_bits()).collect()
}

#[test]
fn encode_vector_writes_count_then_components_little_endian() {
    let v = bits(&[1.0, -2.5]);
    let bytes = encode_vector(&v).unwrap();
    assert_eq!(
        bytes,
        vec![2, 0, 0, 0, 0x00, 0x00, 0x80, 0x3f, 0x00, 0x00, 0x20, 0xc0]
    );
}

#[test]
fn encode_vector_matches_std_byte_order() {
    let values = [0.1f32, 3.25, -7.0e-12, 1.0e30];
    let v = bits(&values);
    let mut expected: Vec<u8> = Vec::new();
    expected.extend_from_slice(&(values.len() as u32).to_le_bytes());
    for x in values {
        expected.extend_from_slice(&x.to_le_bytes());
    }
    assert_eq!(encode_vector(&v).unwrap(), expected);
}

#[test]
fn encode_empty_vector_is_a_bare_count() {
    assert_eq!(encode_vector(&Vec::new()).unwrap(), vec![0, 0, 0, 0]);
}

#[test]
fn decode_empty_file_yields_nothing() {
    assert_eq!(decode_log(&[]), Vec::<Vec<u32>>::new());
}

#[test]
fn decode_reads_records_in_order() {
    let a = bits(&[1.0, 2.0, 3.0]);
    let b = bits(&[-1.0]);
    let mut file = encode_vector(&a).unwrap();
    file.extend(encode_vector(&b).unwrap());
    assert_eq!(decode_log(&file), vec![a, b]);
}

#[test]
fn round_trip_is_bit_identical() {
    let special = vec![
        0x0000_0000u32,
        0x8000_0000,
        0x7f80_0000,
        0xff80_0000,
        0x7fc0_0001,
        0xffff_ffff,
        0x0000_0001,
        0x3f80_0000,
    ];
    let vs = vec![special.clone(), Vec::new(), bits(&[0.25, -0.75])];
    let file = encode_log(&vs).unwrap();
    let back = decode_log(&file);
    assert_eq!(back, vs);
    let floats: Vec<f32> = back[0].iter().map(|b| f32::from_bits(*b)).collect();
    for (x, b) in floats.iter().zip(special.iter()) {
        assert_eq!(x.to_bits(), *b);
    }
}

#[test]
fn encode_log_is_the_records_one_after_the_other() {
    let a = bits(&[1.5]);
    let b = bits(&[2.5, 3.5]);
    let mut expected = encode_vector(&a).unwrap();
    expected.extend(encode_vector(&b).unwrap());
    assert_eq!(encode_log(&vec![a, b]).unwrap(), expected);
    assert_eq!(encode_log(&Vec::new()).unwrap(), Vec::<u8>::new());
}

#[test]
fn trailing_partial_record_is_dropped() {
    let a = bits(&[1.0, 2.0]);
    let b = bits(&[3.0, 4.0, 5.0]);
    let whole = encode_vector(&b).unwrap();
    for cut in 0..whole.len() {
        let mut file = encode_vector(&a).unwrap();
        file.extend_from_slice(&whole[..cut]);
        assert_eq!(decode_log(&file), vec![a.clone()], "cut at {}", cut);
    }
}

#[test]
fn count_larger_than_the_file_stops_the_reader() {
    let file = vec![0xff, 0xff, 0xff, 0xff, 1, 2, 3, 4, 5, 6, 7, 8];
    assert_eq!(decode_log(&file), Vec::<Vec<u32>>::new());
}

#[test]
fn zero_length_records_are_read() {
    let file = vec![0, 0, 0, 0, 0, 0, 0, 0, 1, 0, 0, 0, 9, 0, 0, 0];
    assert_eq!(decode_log(&file), vec![vec![], vec![], vec![9]]);
}

#[test]
fn store_error_variants_compare() {
    assert_eq!(StoreError::VectorTooLong, StoreError::VectorTooLong);
    assert_ne!(StoreError::VectorTooLong, StoreError::RatingOutOfRange);
}
