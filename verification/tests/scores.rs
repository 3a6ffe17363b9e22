use keypoint_grid::keypoint::Keypoint;
use keypoint_grid::ranking::sort_by_score;
use keypoint_grid::response::{odd_kernel_size, validate_sigma, ResponseError};
use keypoint_grid::score::{score_is_nan, score_le, score_rank};

fn samples() -> Vec<f32> {
    vec![
        f32::NEG_INFINITY,
        -3.5e10,
        -255.0,
        -1.0,
        -f32::MIN_POSITIVE,
        -1.0e-45,
        -0.0,
        0.0,
        1.0e-45,
        f32::MIN_POSITIVE,
        0.5,
        1.0,
        39.0,
        40.0,
        255.0,
        f32::MAX,
        f32::INFINITY,
    ]
}

#[test]
fn score_rank_orders_bit_patterns_as_the_numbers_they_encode() {
    let values = samples();
    for a in &values {
        for b in &values {
            let (ra, rb) = (score_rank(a.to_bits()), score_rank(b.to_bits()));
            assert_eq!(ra < rb, a < b, "{} < {}", a, b);
            assert_eq!(ra == rb, a == b, "{} == {}", a, b);
            assert_eq!(score_le(a.to_bits(), b.to_bits()), a <= b, "{} <= {}", a, b);
        }
    }
}

#[test]
fn score_rank_of_given_patterns() {
    assert_eq!(score_rank(0), 0);
    assert_eq!(score_rank(0x8000_0000), 0);
    assert_eq!(score_rank(1.0f32.to_bits()), 0x3F80_0000);
    assert_eq!(score_rank((-1.0f32).to_bits()), -0x3F80_0000);
    assert_eq!(score_rank(255.0f32.to_bits()), 0x437F_0000);
}

#[test]
fn score_is_nan_tells_numbers_from_nans() {
    for v in samples() {
        assert!(!score_is_nan(v.to_bits()));
    }
    assert!(score_is_nan(f32::NAN.to_bits()));
    assert!(score_is_nan((-f32::NAN).to_bits()));
    assert!(score_is_nan(0x7F80_0001));
    assert!(score_is_nan(0xFFFF_FFFF));
    assert!(!score_is_nan(0x7F80_0000));
    assert!(!score_is_nan(0xFF80_0000));
}

#[test]
fn sort_by_score_is_ascending_and_keeps_ties_in_order() {
    let input = vec![
        Keypoint::new(0, 0, 30.0f32.to_bits()),
        Keypoint::new(1, 0, 10.0f32.to_bits()),
        Keypoint::new(2, 0, 30.0f32.to_bits()),
        Keypoint::new(3, 0, 20.0f32.to_bits()),
        Keypoint::new(4, 0, 10.0f32.to_bits()),
        Keypoint::new(5, 0, (-0.0f32).to_bits()),
        Keypoint::new(6, 0, 0.0f32.to_bits()),
    ];
    let sorted = sort_by_score(&input);
    let xs: Vec<u32> = sorted.iter().map(|k| k.x).collect();
    assert_eq!(xs, vec![5, 6, 1, 4, 3, 0, 2]);

    let mut by_std = input.clone();
    by_std.sort_by(|a, b| {
        f32::from_bits(a.score_bits).partial_cmp(&f32::from_bits(b.score_bits)).unwrap()
    });
    assert_eq!(sorted, by_std);
}

#[test]
fn sort_by_score_of_nothing_and_of_one() {
    assert_eq!(sort_by_score(&Vec::new()), Vec::new());
    let one = vec![Keypoint::new(7, 8, 9.0f32.to_bits())];
    assert_eq!(sort_by_score(&one), one);
}

#[test]
fn validate_sigma_accepts_exactly_the_positive_numbers() {
    for v in samples() {
        let expected = if v > 0.0 { Ok(()) } else { Err(ResponseError::InvalidParameter) };
        assert_eq!(validate_sigma(v.to_bits()), expected, "{}", v);
    }
    assert_eq!(validate_sigma(f32::NAN.to_bits()), Err(ResponseError::InvalidParameter));
    assert_eq!(validate_sigma(0.5f32.to_bits()), Ok(()));
}

#[test]
fn odd_kernel_size_for_given_sigmas() {
    let raw = |sigma: f32| (2.0 * 4.0 * sigma + 1.0) as usize;
    assert_eq!(odd_kernel_size(raw(0.5)), 5);
    assert_eq!(odd_kernel_size(raw(1.0)), 9);
    assert_eq!(odd_kernel_size(raw(0.4)), 5);
    assert_eq!(odd_kernel_size(raw(1.6)), 13);
    assert_eq!(odd_kernel_size(0), 1);
    assert_eq!(odd_kernel_size(1), 1);
    assert_eq!(odd_kernel_size(usize::MAX), usize::MAX);
    assert_eq!(odd_kernel_size(usize::MAX - 1), usize::MAX);
}
