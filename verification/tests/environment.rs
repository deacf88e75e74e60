use rylang::environment::{ConvertError, Type, Value, Variable};

#[test]
fn int_roundtrip() {
    let v = Variable::from_int("x", -42);
    assert_eq!(v.data.len(), 9);
    assert_eq!(
        v.to_value().unwrap(),
        Value::Numeric { bits: (-42.0f64).to_bits(), is_integer: true }
    );
    assert_eq!(v.to_string(), Some("-42".to_string()));
}

#[test]
fn float_roundtrip() {
    let v = Variable::from_float_bits("pi", std::f64::consts::PI.to_bits());
    assert_eq!(v.data.len(), 9);
    assert_eq!(
        v.to_value().unwrap(),
        Value::Numeric { bits: std::f64::consts::PI.to_bits(), is_integer: false }
    );
}

#[test]
fn integer_displays_without_decimal() {
    assert_eq!(Variable::from_int("n", 7).to_string(), Some("7".to_string()));
}

#[test]
fn string_roundtrip() {
    let v = Variable::from_string("greeting", "hello");
    assert_eq!(v.to_value().unwrap(), Value::String("hello".into()));
}

#[test]
fn vector_roundtrip() {
    let v = Variable::from_vector("row", &["a", "b", "c"]);
    assert_eq!(
        v.to_value().unwrap(),
        Value::Vector(vec!["a".into(), "b".into(), "c".into()])
    );
}

#[test]
fn bool_roundtrip() {
    assert_eq!(Variable::from_bool("t", true).to_value().unwrap(), Value::Bool(true));
    assert_eq!(Variable::from_bool("f", false).to_value().unwrap(), Value::Bool(false));
}

#[test]
fn null_roundtrip() {
    let v = Variable::null("nothing");
    assert!(v.data.is_empty());
    assert_eq!(v.to_value().unwrap(), Value::Null);
}

#[test]
fn invalid_bool_byte() {
    let v = Variable { var_type: Type::Bool, data: vec![2], name: "bad".into() };
    assert!(matches!(v.to_value(), Err(ConvertError::InvalidBool(2))));
}

#[test]
fn invalid_numeric_discriminant() {
    let mut data = vec![0xFF];
    data.extend_from_slice(&0f64.to_le_bytes());
    let v = Variable { var_type: Type::Numeric, data, name: "bad".into() };
    assert!(matches!(v.to_value(), Err(ConvertError::InvalidDiscriminant(0xFF))));
}

#[test]
fn infer_type_numeric() {
    assert_eq!(Type::infer_type("42"), Type::Numeric);
    assert_eq!(Type::infer_type("3.14"), Type::Numeric);
    assert_eq!(Type::infer_type("-7"), Type::Numeric);
}

#[test]
fn infer_type_other_kinds() {
    assert_eq!(Type::infer_type("  NULL "), Type::Null);
    assert_eq!(Type::infer_type(""), Type::Null);
    assert_eq!(Type::infer_type("True"), Type::Bool);
    assert_eq!(Type::infer_type("1e5"), Type::Numeric);
    assert_eq!(Type::infer_type("-inf"), Type::Numeric);
    assert_eq!(Type::infer_type(".5"), Type::Numeric);
    assert_eq!(Type::infer_type("a,b"), Type::Vector);
    assert_eq!(Type::infer_type("'hi'"), Type::String);
    assert_eq!(Type::infer_type("`x`"), Type::String);
    assert_eq!(Type::infer_type("\"x'"), Type::Unknown);
    assert_eq!(Type::infer_type("hello"), Type::Unknown);
    assert_eq!(Type::infer_type("1.2.3"), Type::Unknown);
    assert_eq!(Type::infer_type("e5"), Type::Unknown);
}

#[test]
fn type_names() {
    assert_eq!(Type::Numeric.as_str(), "numeric");
    assert_eq!(Type::Vector.as_str(), "vector");
    assert_eq!(Type::Unknown.debug_name(), "Unknown");
}

#[test]
fn display_of_each_kind() {
    assert_eq!(Variable::from_bool("b", true).to_string(), Some("true".to_string()));
    assert_eq!(Variable::null("n").to_string(), Some("null".to_string()));
    assert_eq!(
        Variable::from_vector("v", &["a", "b"]).to_string(),
        Some("a, b".to_string())
    );
    assert_eq!(Variable::unknown("u", vec![1, 2, 255]).to_string(), Some("[1, 2, 255]".to_string()));
    assert_eq!(Variable::from_int("big", i64::MIN).to_string(), Some(i64::MIN.to_string()));
    let f = Variable::from_float_bits("f", 1.5f64.to_bits());
    assert_eq!(f.to_string(), None);
    assert_eq!(f.float_bits(), Some(1.5f64.to_bits()));
    let shown: String = f.render(&"1.5".chars().collect()).into_iter().collect();
    assert_eq!(shown, "1.5");
}

#[test]
fn int_conversion_matches_as_f64() {
    for v in [0i64, 1, -1, 7, 1 << 53, (1 << 53) + 1, i64::MAX, i64::MIN, 123456789012345678] {
        let var = Variable::from_int("x", v);
        assert_eq!(
            var.to_value().unwrap(),
            Value::Numeric { bits: (v as f64).to_bits(), is_integer: true }
        );
        assert_eq!(var.to_string(), Some(((v as f64) as i64).to_string()));
    }
}

#[test]
fn error_texts() {
    let v = Variable { var_type: Type::Numeric, data: vec![0, 1], name: "bad".into() };
    assert!(matches!(v.to_value(), Err(ConvertError::InvalidLength { expected: 9, got: 2 })));
    assert_eq!(v.to_string(), Some("<error: expected 9 bytes, got 2>".to_string()));
    let d = Variable { var_type: Type::Numeric, data: vec![5, 0, 0, 0, 0, 0, 0, 0, 0], name: "d".into() };
    assert_eq!(d.to_string(), Some("<error: invalid numeric discriminant: 0x05>".to_string()));
    assert_eq!(ConvertError::InvalidBool(7).to_string(), "invalid bool byte: 7");
}

#[test]
fn utf8_errors_match_std() {
    let cases: Vec<Vec<u8>> = vec![
        vec![0x61, 0xff],
        vec![0xe2, 0x82],
        vec![0xe0, 0x80, 0x80],
        vec![0xed, 0xa0, 0x80],
        vec![0xf0, 0x9f, 0x98, 0x41],
        vec![0x61, 0xc3],
        "héllo".as_bytes().to_vec(),
    ];
    for bytes in cases {
        let v = Variable { var_type: Type::String, data: bytes.clone(), name: "s".into() };
        match (std::str::from_utf8(&bytes), v.to_value()) {
            (Ok(s), Ok(Value::String(t))) => assert_eq!(s, t),
            (Err(e), Err(ConvertError::InvalidUtf8 { valid_up_to, error_len })) => {
                assert_eq!(e.valid_up_to(), valid_up_to);
                assert_eq!(e.error_len().map(|n| n as u8), error_len);
                assert_eq!(v.to_string(), Some(format!("<error: invalid UTF-8: {}>", e)));
            }
            other => panic!("mismatch: {:?}", other),
        }
    }
}

#[test]
fn float_displays_with_decimal() {
    let v = Variable::from_float_bits("f", 1.5f64.to_bits());
    assert_eq!(v.to_string(), None);
    let bits = v.float_bits().unwrap();
    let text: Vec<char> = format!("{}", f64::from_bits(bits)).chars().collect();
    let s: String = v.render(&text).into_iter().collect();
    assert!(s.contains('.'), "expected decimal point in '{s}'");
}
