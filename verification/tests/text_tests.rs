use appconfig::decimal::i64_string;
use appconfig::decimal::parse_i64;
use appconfig::directives::field_from_attrs;
use appconfig::directives::parse_attrs;
use appconfig::schema::FieldRule;
use appconfig::schema::ScalarType;
use appconfig::text::upper_string;

#[test]
fn uppercases_ascii_letters_only() {
    assert_eq!(upper_string("field"), "FIELD");
    assert_eq!(upper_string("abc_dEf9"), "ABC_DEF9");
    assert_eq!(upper_string(""), "");
    assert_eq!(upper_string("ALREADY"), "ALREADY");
    // characters outside the ASCII letters are left alone
    assert_eq!(upper_string("café-9"), "CAFé-9");
}

#[test]
fn parses_plain_decimals() {
    assert_eq!(parse_i64("0"), Some(0));
    assert_eq!(parse_i64("42"), Some(42));
    assert_eq!(parse_i64("007"), Some(7));
    assert_eq!(parse_i64("+7"), Some(7));
    assert_eq!(parse_i64("-9"), Some(-9));
    assert_eq!(parse_i64("-0"), Some(0));
}

#[test]
fn parses_the_64_bit_bounds() {
    assert_eq!(parse_i64("9223372036854775807"), Some(i64::MAX));
    assert_eq!(parse_i64("-9223372036854775808"), Some(i64::MIN));
    assert_eq!(parse_i64("9223372036854775808"), None);
    assert_eq!(parse_i64("-9223372036854775809"), None);
    assert_eq!(parse_i64("99999999999999999999999999"), None);
}

#[test]
fn rejects_malformed_decimals() {
    assert_eq!(parse_i64(""), None);
    assert_eq!(parse_i64("abc"), None);
    assert_eq!(parse_i64("12x"), None);
    assert_eq!(parse_i64("-"), None);
    assert_eq!(parse_i64("+"), None);
    assert_eq!(parse_i64("1 2"), None);
    assert_eq!(parse_i64(" 1"), None);
}

#[test]
fn serializes_decimals() {
    assert_eq!(i64_string(0), "0");
    assert_eq!(i64_string(42), "42");
    assert_eq!(i64_string(-5), "-5");
    assert_eq!(i64_string(i64::MAX), "9223372036854775807");
    assert_eq!(i64_string(i64::MIN), "-9223372036854775808");
}

#[test]
fn serialization_round_trips() {
    for v in [0i64, 1, -1, 10, 99, -100, 123456789, i64::MIN, i64::MAX] {
        assert_eq!(parse_i64(&i64_string(v)), Some(v));
    }
}

#[test]
fn parses_flags_and_values() {
    let d = parse_attrs("skip").unwrap();
    assert_eq!(d.get("skip").unwrap().as_str(), "");
    assert!(d.get("nested").is_none());

    let d = parse_attrs("nested, prefix = \"nested_\"").unwrap();
    assert_eq!(d.get("nested").unwrap().as_str(), "");
    assert_eq!(d.get("prefix").unwrap().as_str(), "nested_");

    let d = parse_attrs("default = 4").unwrap();
    assert_eq!(d.get("default").unwrap().as_str(), "4");

    let d = parse_attrs("default_fn = return_four").unwrap();
    assert_eq!(d.get("default_fn").unwrap().as_str(), "return_four");
}

#[test]
fn parses_commas_inside_quotes() {
    let d = parse_attrs("default = \"a, b\", name = \"attr_field\"").unwrap();
    assert_eq!(d.get("default").unwrap().as_str(), "a, b");
    assert_eq!(d.get("name").unwrap().as_str(), "attr_field");
}

#[test]
fn tolerates_stray_commas_and_blank_text() {
    let d = parse_attrs("").unwrap();
    assert!(d.get("skip").is_none());

    let d = parse_attrs("skip,,nested, ").unwrap();
    assert_eq!(d.get("skip").unwrap().as_str(), "");
    assert_eq!(d.get("nested").unwrap().as_str(), "");
}

#[test]
fn later_directive_overrides_earlier() {
    let d = parse_attrs("name = a, name = b").unwrap();
    assert_eq!(d.get("name").unwrap().as_str(), "b");
}

#[test]
fn rejects_malformed_directives() {
    assert!(parse_attrs("=").is_err());
    assert!(parse_attrs("3x").is_err());
    assert!(parse_attrs("name =").is_err());
    assert!(parse_attrs("name = @").is_err());
    assert!(parse_attrs("name = \"unclosed").is_err());
    assert!(parse_attrs("skip extra").is_err());
}

#[test]
fn builds_a_scalar_descriptor_from_attrs() {
    let fd = field_from_attrs(
        "field",
        ScalarType::Text,
        "default = \"default\", name = \"attr_field\"",
        None,
        None,
    )
    .unwrap();
    assert_eq!(fd.ident, "field");
    match fd.rule {
        FieldRule::Scalar { ty, rename, default_text, provider } => {
            assert!(matches!(ty, ScalarType::Text));
            assert_eq!(rename.unwrap(), "attr_field");
            assert_eq!(default_text.unwrap(), "default");
            assert!(provider.is_none());
        },
        _ => panic!("expected a scalar rule"),
    }
}

#[test]
fn skip_wins_over_other_directives() {
    let fd = field_from_attrs("field", ScalarType::Text, "skip, name = other", None, None).unwrap();
    match fd.rule {
        FieldRule::Skip { rename } => assert_eq!(rename.unwrap(), "other"),
        _ => panic!("expected a skip rule"),
    }
}

#[test]
fn nested_directive_needs_a_schema() {
    assert!(field_from_attrs("field", ScalarType::Text, "nested", None, None).is_err());
}

#[test]
fn default_fn_directive_needs_a_provider() {
    assert!(field_from_attrs("field", ScalarType::Int, "default_fn = f", None, None).is_err());
}
