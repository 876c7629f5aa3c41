use review_search::ranking::{key_of, top_k};

fn bits(values: &[f32]) -> Vec<u32> {
    values.iter().map(|x| x.to_bits()).collect()
}

#[test]
fn knn_with_k_zero_is_empty() {
    assert_eq!(top_k(&bits(&[0.3, 0.9, 0.1]), 0), Vec::new());
    assert_eq!(top_k(&Vec::new(), 0), Vec::new());
}

#[test]
fn knn_on_empty_index_is_empty() {
    assert_eq!(top_k(&Vec::new(), 5), Vec::new());
}

#[test]
fn knn_orders_by_descending_score() {
    let scores = bits(&[0.3, 0.9, -0.2, 0.5]);
    let r = top_k(&scores, 3);
    assert_eq!(
        r,
        vec![(1, 0.9f32.to_bits()), (3, 0.5f32.to_bits()), (0, 0.3f32.to_bits())]
    );
}

#[test]
fn knn_with_k_beyond_size_returns_all_sorted() {
    let scores = bits(&[0.0, 1.0, -1.0]);
    let r = top_k(&scores, 10);
    assert_eq!(
        r,
        vec![(1, 1.0f32.to_bits()), (0, 0.0f32.to_bits()), (2, (-1.0f32).to_bits())]
    );
}

#[test]
fn knn_breaks_ties_by_ascending_position() {
    let scores = bits(&[0.5, 0.7, 0.5, 0.7, 0.5]);
    let positions: Vec<usize> = top_k(&scores, 5).iter().map(|e| e.0).collect();
    assert_eq!(positions, vec![1, 3, 0, 2, 4]);
    let positions: Vec<usize> = top_k(&scores, 3).iter().map(|e| e.0).collect();
    assert_eq!(positions, vec![1, 3, 0]);
}

#[test]
fn knn_treats_both_zeros_as_equal() {
    let scores = bits(&[-0.0, 0.0, -0.0]);
    let positions: Vec<usize> = top_k(&scores, 3).iter().map(|e| e.0).collect();
    assert_eq!(positions, vec![0, 1, 2]);
}

#[test]
fn knn_ranks_not_a_number_last() {
    let scores = vec![f32::NAN.to_bits(), f32::NEG_INFINITY.to_bits(), 0.1f32.to_bits()];
    let positions: Vec<usize> = top_k(&scores, 3).iter().map(|e| e.0).collect();
    assert_eq!(positions, vec![2, 1, 0]);
}

#[test]
fn knn_agrees_with_a_stable_sort() {
    let mut state: u32 = 12345;
    let mut values: Vec<f32> = Vec::new();
    for _ in 0..200 {
        state = state.wrapping_mul(1664525).wrapping_add(1013904223);
        values.push(((state >> 8) % 41) as f32 / 20.0 - 1.0);
    }
    let scores = bits(&values);
    let mut expected: Vec<(usize, f32)> = values.iter().cloned().enumerate().collect();
    expected.sort_by(|a, b| b.1.partial_cmp(&a.1).unwrap());
    for k in [0usize, 1, 7, 199, 200, 500] {
        let got: Vec<usize> = top_k(&scores, k).iter().map(|e| e.0).collect();
        let want: Vec<usize> = expected.iter().take(k).map(|e| e.0).collect();
        assert_eq!(got, want, "k = {}", k);
    }
}

#[test]
fn key_of_exact_values() {
    assert_eq!(key_of(0x0000_0000), 0);
    assert_eq!(key_of(0x8000_0000), 0);
    assert_eq!(key_of(0x3f80_0000), 0x3f80_0000);
    assert_eq!(key_of(0xbf80_0000), -0x3f80_0000);
    assert_eq!(key_of(0x7f80_0000), 0x7f80_0000);
    assert_eq!(key_of(0xff80_0000), -0x7f80_0000);
    assert_eq!(key_of(0x7fc0_0000), -0x7f80_0001);
    assert_eq!(key_of(0xffc0_0000), -0x7f80_0001);
}

#[test]
fn key_of_orders_as_the_numbers_do() {
    let samples = [
        f32::NEG_INFINITY,
        -1.0e30,
        -1.0,
        -1.0e-40,
        -0.0,
        0.0,
        1.0e-40,
        0.5,
        1.0,
        1.0000001,
        3.4e38,
        f32::INFINITY,
    ];
    for a in samples {
        for b in samples {
            let ka = key_of(a.to_bits());
            let kb = key_of(b.to_bits());
            assert_eq!(ka < kb, a < b, "{} < {}", a, b);
            assert_eq!(ka == kb, a == b, "{} == {}", a, b);
        }
    }
}
