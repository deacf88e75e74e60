use rylang::binary64::{compare_bits, f64_bits_of, f64_bits_to_i64, is_zero_bits, small_integral_bits};
use rylang::numbers::{i64_text, is_float_literal, parse_i64, u64_text};
use rylang::utf8_text::decode_utf8;

fn chars(s: &str) -> Vec<char> {
    s.chars().collect()
}

#[test]
fn integer_to_binary64_matches_std() {
    let samples: [i64; 12] = [
        0,
        1,
        -1,
        42,
        (1 << 53) + 1,
        (1 << 53) + 3,
        -((1 << 54) + 6),
        i64::MAX,
        i64::MIN,
        i64::MIN + 1,
        0x7fff_ffff_ffff_fdff,
        123_456_789_012_345_678,
    ];
    for v in samples {
        let neg = v < 0;
        let mag = v.unsigned_abs();
        assert_eq!(f64_bits_of(neg, mag), (v as f64).to_bits(), "{}", v);
    }
}

#[test]
fn binary64_to_integer_matches_std() {
    let samples = [0.0f64, -0.0, 1.9, -1.9, 1e300, -1e300, f64::NAN, f64::INFINITY, f64::NEG_INFINITY, 9.3e18, -9.3e18, 4503599627370497.5];
    for x in samples {
        assert_eq!(f64_bits_to_i64(x.to_bits()), x as i64, "{}", x);
    }
}

#[test]
fn small_whole_numbers() {
    assert!(small_integral_bits(3.0f64.to_bits()));
    assert!(small_integral_bits((-999_999_999_999_999.0f64).to_bits()));
    assert!(!small_integral_bits(1e15f64.to_bits()));
    assert!(!small_integral_bits(2.5f64.to_bits()));
    assert!(!small_integral_bits(f64::NAN.to_bits()));
    assert!(is_zero_bits((-0.0f64).to_bits()));
    assert!(!is_zero_bits(f64::MIN_POSITIVE.to_bits()));
}

#[test]
fn comparisons_match_std() {
    let vals = [-1.5f64, -0.0, 0.0, 2.0, f64::NAN, f64::INFINITY];
    for a in vals {
        for b in vals {
            assert_eq!(compare_bits(a.to_bits(), b.to_bits(), &chars("<")), a < b);
            assert_eq!(compare_bits(a.to_bits(), b.to_bits(), &chars("<=")), a <= b);
            assert_eq!(compare_bits(a.to_bits(), b.to_bits(), &chars(">")), a > b);
            assert_eq!(compare_bits(a.to_bits(), b.to_bits(), &chars(">=")), a >= b);
            assert_eq!(compare_bits(a.to_bits(), b.to_bits(), &chars("==")), a == b);
            assert_eq!(compare_bits(a.to_bits(), b.to_bits(), &chars("!=")), a != b);
        }
    }
}

#[test]
fn integer_text_round_trip() {
    for v in [0i64, 7, -7, i64::MAX, i64::MIN] {
        let t = i64_text(v);
        assert_eq!(t.iter().collect::<String>(), v.to_string());
        assert_eq!(parse_i64(&t), Some(v));
    }
    assert_eq!(u64_text(u64::MAX).iter().collect::<String>(), u64::MAX.to_string());
}

#[test]
fn integer_parsing_matches_std() {
    for s in ["+5", "-0", "", "-", "12a", "9223372036854775808", "-9223372036854775809", " 1", "007"] {
        assert_eq!(parse_i64(&chars(s)), s.parse::<i64>().ok(), "{}", s);
    }
}

#[test]
fn float_syntax_matches_std() {
    for s in ["1", "1.", ".1", ".", "-.5e-3", "1e", "1E5", "INF", "-nan", "Infinity", "infin", "1e+", "+", "1.2.3", "e1"] {
        assert_eq!(is_float_literal(&chars(s)), s.parse::<f64>().is_ok(), "{}", s);
    }
}

#[test]
fn utf8_decoding_matches_std() {
    let samples: [&[u8]; 6] = [b"abc", &[0xc3, 0xa9], &[0xe2, 0x82], &[0xff, 0x41], &[0xed, 0xa0, 0x80], &[0xf0, 0x9f, 0x98, 0x80]];
    for b in samples {
        let got = decode_utf8(&b.to_vec());
        match std::str::from_utf8(b) {
            Ok(s) => assert_eq!(got, Ok(s.chars().collect::<Vec<char>>())),
            Err(e) => assert_eq!(got, Err((e.valid_up_to(), e.error_len().map(|n| n as u8)))),
        }
    }
}
