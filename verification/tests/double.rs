use pilisp_jit::double::{
    double_eq, double_is_nan, double_lt, double_of_bool, double_of_int, double_whole,
};

fn sample_doubles() -> Vec<f64> {
    vec![
        0.0,
        -0.0,
        1.0,
        -1.0,
        0.5,
        -0.5,
        1.5,
        2.0,
        3.25,
        -7.0,
        1e-300,
        5e-324,
        -5e-324,
        2.2250738585072014e-308,
        1e15,
        1e15 + 0.5,
        4503599627370496.0,
        4503599627370495.5,
        9007199254740992.0,
        9007199254740993.0,
        9223372036854774784.0,
        9223372036854775808.0,
        -9223372036854774784.0,
        -9223372036854775808.0,
        1e19,
        1e300,
        -1e300,
        f64::MAX,
        f64::MIN,
        f64::INFINITY,
        f64::NEG_INFINITY,
        f64::NAN,
        -f64::NAN,
    ]
}

fn sample_ints() -> Vec<i64> {
    let mut ints: Vec<i64> = vec![0, i64::MAX, i64::MIN, i64::MIN + 1, i64::MAX - 1];
    for n in -300..300 {
        ints.push(n);
    }
    for shift in 0..63 {
        let p = 1i64 << shift;
        for near in [-3i64, -2, -1, 0, 1, 2, 3] {
            ints.push(p.wrapping_add(near));
            ints.push((p | (p >> 1)).wrapping_add(near));
            ints.push(p.wrapping_neg().wrapping_add(near));
            ints.push((p | (p >> 53) | (p >> 54)).wrapping_add(near));
        }
    }
    ints
}

#[test]
fn ints_convert_as_the_hardware_does() {
    for n in sample_ints() {
        assert_eq!(double_of_int(n), (n as f64).to_bits(), "{}", n);
    }
}

#[test]
fn int_conversion_has_exact_patterns() {
    assert_eq!(double_of_int(0), 0);
    assert_eq!(double_of_int(1), 0x3ff0_0000_0000_0000);
    assert_eq!(double_of_int(-2), 0xc000_0000_0000_0000);
    assert_eq!(double_of_int(3), 0x4008_0000_0000_0000);
    // A tie goes to the even neighbour, down and up.
    assert_eq!(double_of_int(9007199254740993), 0x4340_0000_0000_0000);
    assert_eq!(double_of_int(9007199254740995), 0x4340_0000_0000_0002);
    assert_eq!(double_of_int(i64::MAX), 0x43e0_0000_0000_0000);
    assert_eq!(double_of_int(i64::MIN), 0xc3e0_0000_0000_0000);
}

#[test]
fn small_ints_are_found_again() {
    for n in [0i64, 1, -1, 42, -1000, 9007199254740991, -9007199254740992, 9007199254740992] {
        assert_eq!(double_whole(double_of_int(n)), Some(n));
    }
    // Beyond 53 bits the neighbour may come back.
    assert_eq!(double_whole(double_of_int(9007199254740993)), Some(9007199254740992));
}

#[test]
fn no_double_is_nearer_than_the_converted_one() {
    let n: i64 = 9007199254740995;
    let bits = double_of_int(n);
    let best = (double_whole(bits).unwrap() - n).abs();
    for other in [bits - 2, bits - 1, bits + 1, bits + 2] {
        let there = double_whole(other).unwrap();
        assert!((there - n).abs() >= best);
    }
}

#[test]
fn whole_numbers_are_recognised() {
    for f in sample_doubles() {
        let expected = if f.fract() == 0.0 && f.abs() < i64::MAX as f64 {
            Some(f as i64)
        } else {
            None
        };
        assert_eq!(double_whole(f.to_bits()), expected, "{}", f);
    }
}

#[test]
fn whole_has_exact_values() {
    assert_eq!(double_whole((-0.0f64).to_bits()), Some(0));
    assert_eq!(double_whole(2.5f64.to_bits()), None);
    assert_eq!(double_whole((-7.0f64).to_bits()), Some(-7));
    assert_eq!(double_whole(9223372036854775808.0f64.to_bits()), None);
    assert_eq!(double_whole(9223372036854774784.0f64.to_bits()), Some(9223372036854774784));
    assert_eq!(double_whole(f64::NAN.to_bits()), None);
    assert_eq!(double_whole(f64::INFINITY.to_bits()), None);
}

#[test]
fn comparisons_agree_with_the_hardware() {
    for a in sample_doubles() {
        assert_eq!(double_is_nan(a.to_bits()), a.is_nan());
        for b in sample_doubles() {
            assert_eq!(double_eq(a.to_bits(), b.to_bits()), a == b, "{} {}", a, b);
            assert_eq!(double_lt(a.to_bits(), b.to_bits()), a < b, "{} {}", a, b);
        }
    }
}

#[test]
fn a_larger_pattern_is_a_larger_number() {
    let mut previous: u64 = 0;
    for bits in [1u64, 2, 0x000f_ffff_ffff_ffff, 0x0010_0000_0000_0000, 0x3ff0_0000_0000_0000, 0x7fef_ffff_ffff_ffff] {
        assert!(double_lt(previous, bits));
        previous = bits;
    }
}

#[test]
fn truth_values_are_one_and_zero() {
    assert_eq!(double_of_bool(true), 1.0f64.to_bits());
    assert_eq!(double_of_bool(false), 0.0f64.to_bits());
    assert_eq!(double_of_bool(true), double_of_int(1));
    assert_eq!(double_of_bool(false), double_of_int(0));
}

#[test]
fn only_zero_has_the_empty_pattern() {
    for n in sample_ints() {
        assert_eq!(double_of_int(n) == 0, n == 0);
    }
}
