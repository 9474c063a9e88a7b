use calc::float::{apply, option_equals, Float, Op};
use calc::float::{E_BITS, LARGE_BITS, ONE_BITS, PI_BITS, SMALL_BITS, THREE_BITS, TWO_BITS, ZERO_BITS};
use calc::integer::Integer;

fn fl(x: f64) -> Float {
    Float::from_bits(x.to_bits())
}

fn val(x: Float) -> f64 {
    f64::from_bits(x.to_bits())
}

fn fpu(op: Op, a: Float, b: Float) -> Float {
    let x = val(a);
    let y = val(b);
    fl(match op {
        Op::Add => x + y,
        Op::Sub => x - y,
        Op::Mul => x * y,
        Op::Div => x / y,
        Op::Pow => x.powf(y),
        Op::Sin => x.sin(),
        Op::Cos => x.cos(),
        Op::Tan => x.tan(),
        Op::Asin => x.asin(),
        Op::Acos => x.acos(),
        Op::Atan => x.atan(),
    })
}

fn samples() -> Vec<f64> {
    let mut v = vec![
        0.0, -0.0, 1.0, -1.0, 0.5, -0.5, 1.5, 2.0, 3.0, 0.999999, 1e-300, 5e-324, -5e-324, 1e300,
        4503599627370496.0, 4503599627370497.0, 4503599627370495.5, 9007199254740992.0, 9007199254740993.0,
        9223372036854775807.0, 9223372036854775808.0, -9223372036854775808.0, -9223372036854777856.0,
        18446744073709551615.0, 18446744073709551616.0, 36893488147419103232.0, 1e19, -1e19, 123456.789,
        -123456.789, 2147483648.0, 4294967296.0, 0.001, 1e10, f64::MAX, f64::MIN, f64::MIN_POSITIVE,
        f64::INFINITY, f64::NEG_INFINITY, f64::NAN, -f64::NAN, f64::EPSILON, 1023.9999999, 1024.0,
    ];
    let mut x = 1.0f64;
    for _ in 0..70 {
        v.push(x);
        v.push(-x);
        v.push(x + 0.5);
        v.push(x - 1.0);
        x *= 2.0;
    }
    v
}

#[test]
fn constants_are_the_doubles_they_stand_for() {
    assert_eq!(ZERO_BITS, 0.0f64.to_bits());
    assert_eq!(ONE_BITS, 1.0f64.to_bits());
    assert_eq!(TWO_BITS, 2.0f64.to_bits());
    assert_eq!(THREE_BITS, 3.0f64.to_bits());
    assert_eq!(E_BITS, std::f64::consts::E.to_bits());
    assert_eq!(PI_BITS, std::f64::consts::PI.to_bits());
    assert_eq!(SMALL_BITS, 0.001f64.to_bits());
    assert_eq!(LARGE_BITS, 10_000_000_000.0f64.to_bits());
}

#[test]
fn predicates_agree_with_the_hardware() {
    for x in samples() {
        let f = fl(x);
        assert_eq!(f.nan(), x.is_nan(), "{x}");
        assert_eq!(f.finite(), x.is_finite(), "{x}");
        assert_eq!(f.zero(), x == 0.0, "{x}");
        assert_eq!(f.below_zero(), x < 0.0, "{x}");
        assert_eq!(f.whole(), x.fract() == 0.0, "{x}");
        assert_eq!(f.to_i64(), x as i64, "{x}");
        assert_eq!(f.abs_to_u64(), x.abs() as u64, "{x}");
        assert_eq!(f.to_bits(), x.to_bits());
    }
}

#[test]
fn equality_is_that_of_the_hardware() {
    for x in samples() {
        for y in samples() {
            assert_eq!(fl(x).equals(&fl(y)), x == y, "{x} {y}");
            assert_eq!(fl(x) == fl(y), x == y, "{x} {y}");
            assert_eq!(option_equals(&Some(fl(x)), &Some(fl(y))), Some(x) == Some(y));
        }
        assert!(!option_equals(&Some(fl(x)), &None));
        assert!(!option_equals(&None, &Some(fl(x))));
    }
    assert!(option_equals(&None, &None));
}

#[test]
fn integers_convert_as_the_hardware_converts_them() {
    let mut cases: Vec<i64> = vec![
        0, 1, -1, 2, 3, 10, -10, 255, 4503599627370496, 4503599627370497, 9007199254740992,
        9007199254740993, 9007199254740994, 9007199254740995, -9007199254740993, 18014398509481985,
        18014398509481986, 18014398509481987, i64::MAX, i64::MAX - 1, i64::MIN, i64::MIN + 1,
        9223372036854775295, 9223372036854774784, 1234567890123456789, -1234567890123456789,
    ];
    let mut x: i64 = 1;
    for _ in 0..62 {
        cases.push(x);
        cases.push(x + 1);
        cases.push(x - 1);
        cases.push(-x);
        cases.push(x + x / 2);
        cases.push(x + x / 3);
        x *= 2;
    }
    for n in cases {
        assert_eq!(Float::from_i64(n).to_bits(), (n as f64).to_bits(), "{n}");
        assert_eq!(val(Integer::dec(n).as_units_number().value), n as f64);
    }
}

#[test]
fn apply_hands_the_arguments_over_in_their_order() {
    assert_eq!(val(apply(&fpu, Op::Sub, fl(5.0), fl(3.0), false)), 2.0);
    assert_eq!(val(apply(&fpu, Op::Sub, fl(5.0), fl(3.0), true)), -2.0);
    assert_eq!(val(apply(&fpu, Op::Div, fl(1.0), fl(4.0), false)), 0.25);
    assert_eq!(val(apply(&fpu, Op::Div, fl(1.0), fl(4.0), true)), 4.0);
}

#[test]
fn integer_division_gives_a_number() {
    let q = Integer::dec(1).div(&Integer::dec(4), &fpu);
    assert_eq!(val(q.value), 0.25);
    assert!(q.is_dimensionless());
    let q = Integer::dec(1).div(&Integer::dec(0), &fpu);
    assert_eq!(val(q.value), f64::INFINITY);
}
