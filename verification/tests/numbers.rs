//! Tests of exact numbers, bit patterns and draws.

use rand::rngs::StdRng;
use rand::SeedableRng;
use vtc::draws::{
    bounded_i64, clamp_i16, clamp_i32, half_double, half_single, largest_dim, largest_value,
    numeric_dtype, random_axes, random_dim, random_index, random_matrix_shape,
    random_reshape_shape, random_shape, reshape_candidates, selected_axes, tensor_data_for_shape,
};
use vtc::float::{from_int64, is_finite32, is_finite64, is_nan64, widen32};
use vtc::{DType, Dim, GenConfig, IrError, Rational, Shape, Tensor, TensorData, TensorF64};

fn shape(dims: &[usize]) -> Shape {
    Shape::new(dims.iter().copied().map(Dim::new).collect())
}

#[test]
fn rationals_are_kept_in_lowest_terms() {
    let half = Rational::new(-3, -6);
    assert_eq!(half, Rational::new(1, 2));
    assert_eq!(half.numer_bytes(), &vec![1u8]);
    assert_eq!(half.denom_bytes(), &vec![2u8]);
    assert_eq!(Rational::new(3, -6).to_text(), "-1/2");
    assert_eq!(Rational::new(8, 4).to_text(), "2");
    assert_eq!(Rational::from_integer(-300).numer_bytes(), &vec![0xd4u8, 0xfe]);
}

#[test]
fn rational_arithmetic_is_exact() {
    let third = Rational::new(1, 3);
    let half = Rational::new(1, 2);
    assert_eq!(third.plus(&half), Rational::new(5, 6));
    assert_eq!(third.minus(&half), Rational::new(-1, 6));
    assert_eq!(third.times(&half), Rational::new(1, 6));
    assert_eq!(half.negated(), Rational::new(-1, 2));
    assert!(half.positive());
    assert!(!half.negated().positive());
    assert!(!Rational::from_integer(0).positive());
    assert!(half.same(&Rational::new(2, 4)));
    assert!(!half.same(&third));
    assert!(!half.is_integer());
    assert!(Rational::new(4, 2).is_integer());
}

#[test]
fn rationals_become_integers_where_they_fit() {
    let max = Rational::from_integer(i64::MAX);
    let one = Rational::from_integer(1);
    assert_eq!(max.to_i64(), Some(i64::MAX));
    assert_eq!(max.plus(&one).to_i64(), None);
    assert_eq!(max.plus(&one).to_text(), "9223372036854775808");
    assert_eq!(Rational::from_integer(i64::MIN).to_i64(), Some(i64::MIN));
    assert_eq!(Rational::new(1, 2).to_i64(), None);
}

#[test]
fn doubles_lift_to_their_exact_numbers() {
    let bits = [0.1_f64, -0.0, 5e-324, f64::MAX, -1.5].map(f64::to_bits);
    let tensor = Tensor::from_f64(shape(&[5]), &bits).expect("finite floats lift");
    assert_eq!(
        tensor.data()[0].to_text(),
        "3602879701896397/36028797018963968"
    );
    assert_eq!(tensor.data()[1], Rational::from_integer(0));
    assert!(tensor.data()[2].positive());
    assert!(tensor.data()[3].is_integer());
    assert_eq!(tensor.data()[4], Rational::new(-3, 2));
}

#[test]
fn integers_round_to_the_nearest_double() {
    for v in [
        0,
        1,
        -7,
        (1 << 53) + 1,
        (1 << 53) + 3,
        -((1 << 54) + 2),
        i64::MAX,
        i64::MIN,
        0x7fff_ffff_ffff_fbff,
    ] {
        assert_eq!(from_int64(v), (v as f64).to_bits());
    }
}

#[test]
fn singles_widen_without_change() {
    for x in [0.0_f32, -0.0, 1.5, -3.25, 1e-45, f32::MAX, 0.1] {
        assert_eq!(widen32(x.to_bits()), f64::from(x).to_bits());
    }
    assert!(is_finite32(1.0_f32.to_bits()));
    assert!(!is_finite32(f32::INFINITY.to_bits()));
    assert!(is_finite64(1e300_f64.to_bits()));
    assert!(!is_finite64(f64::NEG_INFINITY.to_bits()));
    assert!(is_nan64(f64::NAN.to_bits()));
    assert!(!is_nan64(f64::INFINITY.to_bits()));
}

#[test]
fn halves_are_exact() {
    for v in [0, 1, -1, 7, -32768, 40000, i64::from(i32::MIN), 1 << 40] {
        assert_eq!(half_double(v), (f64::from(clamp_i32(v)) / 2.0).to_bits());
        assert_eq!(half_single(v), (f32::from(clamp_i16(v)) / 2.0).to_bits());
    }
    assert_eq!(clamp_i16(40000), i16::MAX);
    assert_eq!(clamp_i16(-40000), i16::MIN);
    assert_eq!(clamp_i32(1 << 40), i32::MAX);
    assert_eq!(clamp_i32(-(1 << 40)), i32::MIN);
}

#[test]
fn draws_stay_in_range_and_vary() {
    let mut rng = StdRng::seed_from_u64(1);
    let cfg = GenConfig::default();
    let values = (0..200).map(|_| bounded_i64(-3, &mut rng)).collect::<Vec<_>>();
    assert!(values.iter().all(|v| (-3..=3).contains(v)));
    assert!((-3..=3).all(|v| values.contains(&v)));
    assert_eq!(bounded_i64(0, &mut rng), 0);
    let dims = (0..200).map(|_| random_dim(&cfg, &mut rng)).collect::<Vec<_>>();
    assert!((1..=4).all(|d| dims.contains(&d)) && dims.iter().all(|d| (1..=4).contains(d)));
    let places = (0..200).map(|_| random_index(3, &mut rng)).collect::<Vec<_>>();
    assert!((0..3).all(|i| places.contains(&i)) && places.iter().all(|&i| i < 3));
    let ranks = (0..200)
        .map(|_| random_shape(&cfg, &mut rng).rank())
        .collect::<Vec<_>>();
    assert!((1..=3).all(|r| ranks.contains(&r)) && ranks.iter().all(|r| (1..=3).contains(r)));
    assert_eq!(random_matrix_shape(&cfg, &mut rng).rank(), 2);
    let axes = (0..200).map(|_| random_axes(2, &mut rng)).collect::<Vec<_>>();
    for want in [vec![], vec![0], vec![1], vec![0, 1]] {
        assert!(axes.contains(&want));
    }
    let narrow = GenConfig { max_dim: 0, ..cfg };
    assert_eq!(random_dim(&narrow, &mut rng), 1);
}

#[test]
fn reshapes_keep_the_element_count() {
    let candidates = reshape_candidates(&shape(&[2, 3]));
    let expected = [
        shape(&[6]),
        shape(&[1, 6]),
        shape(&[6, 1]),
        shape(&[1, 6]),
        shape(&[2, 3]),
        shape(&[3, 2]),
        shape(&[6, 1]),
    ];
    assert_eq!(candidates, expected);
    assert_eq!(reshape_candidates(&shape(&[usize::MAX, 2])).len(), 4);
    let mut rng = StdRng::seed_from_u64(2);
    for _ in 0..50 {
        let drawn = random_reshape_shape(&shape(&[4, 3]), &mut rng);
        assert_eq!(drawn.numel(), Ok(12));
    }
}

#[test]
fn payloads_fill_their_shapes() {
    let mut rng = StdRng::seed_from_u64(3);
    for dtype in [DType::F32, DType::F64, DType::I32, DType::I64, DType::Bool] {
        let data = tensor_data_for_shape(dtype, &shape(&[2, 5]), 4, &mut rng).expect("count fits");
        assert_eq!(data.len(), 10);
        assert_eq!(data.dtype(), numeric_dtype(dtype));
        if let TensorData::F32(values) = &data {
            assert!(values.iter().all(|&v| f32::from_bits(v).abs() <= 2.0));
        }
    }
    let overflow = tensor_data_for_shape(DType::I64, &shape(&[usize::MAX, 2]), 4, &mut rng);
    assert!(matches!(overflow, Err(IrError::ShapeOverflow)));
}

#[test]
fn bit_equality_is_an_equivalence_on_samples() {
    let tensor = |v: f64| TensorF64::from_f64(shape(&[1]), &[v.to_bits()]).expect("one element");
    let samples = [
        tensor(0.0),
        tensor(-0.0),
        tensor(f64::NAN),
        tensor(f64::from_bits(0xfff8_0000_0000_0007)),
        tensor(1.0),
    ];
    for a in &samples {
        assert!(a.bit_eq(a));
        for b in &samples {
            assert_eq!(a.bit_eq(b), b.bit_eq(a));
            for c in &samples {
                assert!(!(a.bit_eq(b) && b.bit_eq(c)) || a.bit_eq(c));
            }
        }
    }
    assert!(samples[2].bit_eq(&samples[3]));
    assert!(!samples[0].bit_eq(&samples[1]));
}

#[test]
fn draws_use_the_documented_limits() {
    assert_eq!(largest_value(5), 5);
    assert_eq!(largest_value(-5), 5);
    assert_eq!(largest_value(i64::MIN), i64::MAX);
    let cfg = GenConfig::default();
    assert_eq!(largest_dim(&cfg), 4);
    assert_eq!(largest_dim(&GenConfig { max_dim: 0, ..cfg }), 1);
    assert_eq!(selected_axes(&vec![true, false, true]), [0, 2]);
    assert!(selected_axes(&vec![false, false]).is_empty());
}
