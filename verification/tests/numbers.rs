use fusion::binary64::{Binary64, ONE, TAU, ZERO};
use fusion::text::{count_text, decimal_text, padded_text, signed_text};

fn number(value: f64) -> Binary64 {
    Binary64 {
        bits: value.to_bits(),
    }
}

#[test]
fn constants_encode_what_they_say() {
    assert_eq!(f64::from_bits(ZERO), 0.0);
    assert_eq!(f64::from_bits(ONE), 1.0);
    assert_eq!(f64::from_bits(TAU), std::f64::consts::TAU);
}

#[test]
fn encodings_compare_like_the_numbers() {
    let values = [
        0.0,
        -0.0,
        1.0,
        -1.0,
        f64::MIN_POSITIVE,
        -f64::MIN_POSITIVE,
        5e-324,
        -5e-324,
        f64::MAX,
        f64::MIN,
        f64::INFINITY,
        f64::NEG_INFINITY,
        f64::NAN,
        -f64::NAN,
        0.1,
        -2.5,
    ];
    for a in values {
        assert_eq!(number(a).is_nan(), a.is_nan());
        assert_eq!(number(a).is_finite(), a.is_finite());
        assert_eq!(number(a).is_positive(), a > 0.0);
        assert_eq!(number(a).is_nonnegative(), a >= 0.0);
        assert_eq!(number(a).is_probability(), (0.0..=1.0).contains(&a));
        for b in values {
            assert_eq!(number(a).less_than(number(b)), a < b, "{a} < {b}");
            assert_eq!(number(a).at_most(number(b)), a <= b, "{a} <= {b}");
            let larger = f64::from_bits(number(a).max(number(b)).bits);
            assert!(larger == a.max(b) || (larger.is_nan() && a.is_nan() && b.is_nan()));
        }
    }
}

#[test]
fn numbers_in_decimal() {
    assert_eq!(decimal_text(0), "0");
    assert_eq!(decimal_text(1_234_567_890), "1234567890");
    assert_eq!(decimal_text(u64::MAX), u64::MAX.to_string());
    assert_eq!(count_text(usize::MAX), usize::MAX.to_string());
    assert_eq!(signed_text(-42), "-42");
    assert_eq!(signed_text(i64::MIN), i64::MIN.to_string());
    assert_eq!(signed_text(i64::MAX), i64::MAX.to_string());
    assert_eq!(padded_text(7, 3), "007");
    assert_eq!(padded_text(1234, 3), "1234");
    assert_eq!(padded_text(0, 10), "0000000000");
    assert_eq!(padded_text(5, 0), "5");
}
