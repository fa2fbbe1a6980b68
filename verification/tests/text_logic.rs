use vectx::fbits::{f32_bits_eq, f32_bits_lt, f64_bits_le, f64_bits_lt};
use vectx::fconv::{f64_bits_of_i64, f64_bits_of_u64};
use vectx::filter::{contains_sub, Filter, FilterCondition, PayloadFilter};
use vectx::json::JsonValue;
use vectx::point::{Point, PointId, Vector};
use vectx::schema::generate_trigrams;
use vectx::text::{parse_u64, u64_to_string};
use vectx::tokenize::tokenize;

#[test]
fn test_decimal_round_trip() {
    assert_eq!(u64_to_string(0), "0");
    assert_eq!(u64_to_string(12345), "12345");
    assert_eq!(u64_to_string(u64::MAX), format!("{}", u64::MAX));
    assert_eq!(parse_u64("123"), Some(123));
    assert_eq!(parse_u64("+5"), Some(5));
    assert_eq!(parse_u64("abc"), None);
    assert_eq!(parse_u64(""), None);
    assert_eq!(parse_u64("18446744073709551615"), Some(u64::MAX));
    assert_eq!(parse_u64("18446744073709551616"), None);
}

#[test]
fn test_float_bit_ordering_matches_hardware() {
    let samples: Vec<f32> = vec![-5.5, -0.0, 0.0, 0.25, 1.0, 3.5, f32::INFINITY, f32::NEG_INFINITY];
    for &a in samples.iter() {
        for &b in samples.iter() {
            assert_eq!(f32_bits_lt(a.to_bits(), b.to_bits()), a < b, "lt {} {}", a, b);
            assert_eq!(f32_bits_eq(a.to_bits(), b.to_bits()), a == b, "eq {} {}", a, b);
        }
    }
    let nan = f32::NAN.to_bits();
    assert!(!f32_bits_lt(nan, 1.0f32.to_bits()));
    assert!(!f32_bits_lt(1.0f32.to_bits(), nan));
    assert!(!f32_bits_eq(nan, nan));

    let d: Vec<f64> = vec![-2.5, 0.0, 1.5, 1e300];
    for &a in d.iter() {
        for &b in d.iter() {
            assert_eq!(f64_bits_lt(a.to_bits(), b.to_bits()), a < b);
            assert_eq!(f64_bits_le(a.to_bits(), b.to_bits()), a <= b);
        }
    }
}

#[test]
fn test_integer_to_double_rounding_matches_casts() {
    let u_samples: Vec<u64> = vec![
        0,
        1,
        2,
        1023,
        (1u64 << 52) - 1,
        1u64 << 52,
        (1u64 << 53) - 1,
        1u64 << 53,
        (1u64 << 53) + 1,
        (1u64 << 53) + 2,
        (1u64 << 53) + 3,
        u64::MAX,
        u64::MAX - 1023,
    ];
    for &n in u_samples.iter() {
        assert_eq!(f64_bits_of_u64(n), (n as f64).to_bits(), "u64 {}", n);
    }
    let i_samples: Vec<i64> = vec![0, 1, -1, -1023, i64::MAX, i64::MIN, -(1i64 << 53) - 1];
    for &n in i_samples.iter() {
        assert_eq!(f64_bits_of_i64(n), (n as f64).to_bits(), "i64 {}", n);
    }
}

#[test]
fn test_tokenizer() {
    let tokens = tokenize("Hello, World! a Tes-t");
    assert_eq!(tokens, vec!["hello", "world", "tes"]);
    assert_eq!(tokenize(""), Vec::<String>::new());
    assert_eq!(tokenize("  .  "), Vec::<String>::new());
    assert_eq!(tokenize("Topic topic TOPIC"), vec!["topic", "topic", "topic"]);
}

#[test]
fn test_trigram_generation() {
    let tris = generate_trigrams("ab");
    // Padded to "  ab  ": four distinct windows.
    assert_eq!(tris.len(), 4);
    assert!(tris.contains(&"  a".to_string()));
    assert!(tris.contains(&" ab".to_string()));
    assert!(tris.contains(&"ab ".to_string()));
    assert!(tris.contains(&"b  ".to_string()));
    // Repeated windows are reported once.
    let repeated = generate_trigrams("aaaa");
    assert!(repeated.contains(&"aaa".to_string()));
    let unique: std::collections::HashSet<&String> = repeated.iter().collect();
    assert_eq!(unique.len(), repeated.len());
}

#[test]
fn test_substring_search() {
    assert!(contains_sub("hello world", "o w"));
    assert!(contains_sub("hello", ""));
    assert!(!contains_sub("hello", "world"));
    assert!(contains_sub("abc", "abc"));
    assert!(!contains_sub("ab", "abc"));
}

#[test]
fn test_json_equality_and_lookup() {
    let a = JsonValue::Object(vec![
        ("x".to_string(), JsonValue::NumU(1)),
        ("y".to_string(), JsonValue::Str("s".to_string())),
    ]);
    let b = JsonValue::Object(vec![
        ("x".to_string(), JsonValue::NumU(1)),
        ("y".to_string(), JsonValue::Str("s".to_string())),
    ]);
    assert!(a.json_eq(&b));
    assert!(matches!(a.get("x"), Some(JsonValue::NumU(1))));
    assert!(a.get("z").is_none());
    let f = JsonValue::NumF(1.5f64.to_bits());
    assert!(f.json_eq(&JsonValue::NumF(1.5f64.to_bits())));
    assert!(!f.json_eq(&JsonValue::NumU(1)));
}

#[test]
fn test_filter_conditions() {
    let payload = JsonValue::Object(vec![
        ("age".to_string(), JsonValue::NumU(30)),
        ("name".to_string(), JsonValue::Str("walter".to_string())),
    ]);
    let point = Point::new(
        PointId::Integer(1),
        Vector::new(vec![0f32.to_bits()]),
        Some(payload),
    );

    let gt = PayloadFilter::new(FilterCondition::GreaterThan {
        field: "age".to_string(),
        value: 25.0f64.to_bits(),
    });
    let lt = PayloadFilter::new(FilterCondition::LessThan {
        field: "age".to_string(),
        value: 25.0f64.to_bits(),
    });
    let contains = PayloadFilter::new(FilterCondition::Contains {
        field: "name".to_string(),
        value: "alt".to_string(),
    });
    let missing_neq = PayloadFilter::new(FilterCondition::NotEquals {
        field: "city".to_string(),
        value: JsonValue::Str("x".to_string()),
    });
    let missing_gt = PayloadFilter::new(FilterCondition::GreaterThan {
        field: "city".to_string(),
        value: 0.0f64.to_bits(),
    });
    assert!(gt.matches(&point));
    assert!(!lt.matches(&point));
    assert!(contains.matches(&point));
    assert!(missing_neq.matches(&point));
    assert!(!missing_gt.matches(&point));

    let both = PayloadFilter::new(FilterCondition::And(vec![
        FilterCondition::GreaterThan { field: "age".to_string(), value: 25.0f64.to_bits() },
        FilterCondition::Contains { field: "name".to_string(), value: "wal".to_string() },
    ]));
    assert!(both.matches(&point));
    let negated = PayloadFilter::new(FilterCondition::Not(Box::new(FilterCondition::Equals {
        field: "age".to_string(),
        value: JsonValue::NumU(30),
    })));
    assert!(!negated.matches(&point));
}
