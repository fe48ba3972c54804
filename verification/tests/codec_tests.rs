use libfunk::from_json;
use libfunk::metadata::EngineMetadata;
use libfunk::metadata::MetaError;
use libfunk::to_json;

const TEMPLATE_JSON: &str =
    "{\"display_name\":\"Template\",\"source_code\":null,\"website\":null,\"authors\":null}";

#[test]
fn default_record_is_template() {
    let m = EngineMetadata::default();
    assert_eq!(m.display_name, "Template");
    assert_eq!(m.source_code, None);
    assert_eq!(m.website, None);
    assert_eq!(m.authors, None);
}

#[test]
fn to_json_default_is_canonical() {
    let m = EngineMetadata::default();
    assert_eq!(to_json(&m), TEMPLATE_JSON);
}

#[test]
fn round_trip_default() {
    let m = EngineMetadata::default();
    let back = from_json(&to_json(&m)).unwrap();
    assert_eq!(back, m);
}

#[test]
fn round_trip_full_record() {
    let m = EngineMetadata {
        display_name: String::from("My \"Engine\"\\ v2\n\u{1}"),
        source_code: Some(String::from("https://example.org/src")),
        website: None,
        authors: Some(String::from("A, B")),
    };
    let text = to_json(&m);
    let back = from_json(&text).unwrap();
    assert_eq!(back, m);
}

#[test]
fn to_json_escapes() {
    let m = EngineMetadata {
        display_name: String::from("a\"b\\c\nd\u{1}"),
        source_code: None,
        website: None,
        authors: None,
    };
    let text = to_json(&m);
    assert_eq!(
        text,
        "{\"display_name\":\"a\\\"b\\\\c\\nd\\u0001\",\"source_code\":null,\"website\":null,\"authors\":null}"
    );
}

#[test]
fn parses_partial_record() {
    let m = from_json("{\"display_name\":\"Beta\",\"authors\":\"Team B\"}").unwrap();
    assert_eq!(m.display_name, "Beta");
    assert_eq!(m.authors.as_deref(), Some("Team B"));
    assert_eq!(m.source_code, None);
    assert_eq!(m.website, None);
}

#[test]
fn parses_null_optionals() {
    let m = from_json("{\"display_name\":\"X\",\"website\":null,\"source_code\":null}").unwrap();
    assert_eq!(m.display_name, "X");
    assert_eq!(m.website, None);
    assert_eq!(m.source_code, None);
}

#[test]
fn ignores_unknown_keys() {
    let m = from_json(
        "{\"version\":3,\"display_name\":\"X\",\"extra\":{\"a\":[1,2,{\"b\":null}],\"c\":\"s\"},\"flag\":true,\"none\":false}",
    )
    .unwrap();
    assert_eq!(m.display_name, "X");
}

#[test]
fn accepts_whitespace() {
    let m = from_json(" {\n\t\"display_name\" :\t\"X\" ,\r\n \"authors\" : null } ").unwrap();
    assert_eq!(m.display_name, "X");
    assert_eq!(m.authors, None);
}

#[test]
fn decodes_escapes() {
    let m = from_json("{\"display_name\":\"a\\n\\\"\\\\\\/\\t\\u0041\\u007e\"}").unwrap();
    assert_eq!(m.display_name, "a\n\"\\/\tA~");
}

#[test]
fn rejects_missing_display_name() {
    assert_eq!(from_json("{}"), Err(MetaError::Malformed));
    assert_eq!(from_json("{\"authors\":\"a\"}"), Err(MetaError::Malformed));
}

#[test]
fn rejects_invalid_json() {
    assert_eq!(from_json(""), Err(MetaError::Malformed));
    assert_eq!(from_json("{\"display_name\":"), Err(MetaError::Malformed));
    assert_eq!(from_json("[1,2]"), Err(MetaError::Malformed));
    assert_eq!(from_json("{\"display_name\":\"X\"} x"), Err(MetaError::Malformed));
    assert_eq!(from_json("{\"display_name\":\"X\",}"), Err(MetaError::Malformed));
    assert_eq!(from_json("{\"display_name\":\"X\""), Err(MetaError::Malformed));
}

#[test]
fn rejects_wrong_display_name_type() {
    assert_eq!(from_json("{\"display_name\":null}"), Err(MetaError::Malformed));
    assert_eq!(from_json("{\"display_name\":3}"), Err(MetaError::Malformed));
}

#[test]
fn rejects_duplicate_keys() {
    assert_eq!(
        from_json("{\"display_name\":\"X\",\"display_name\":\"Y\"}"),
        Err(MetaError::Malformed)
    );
    assert_eq!(
        from_json("{\"display_name\":\"X\",\"authors\":null,\"authors\":null}"),
        Err(MetaError::Malformed)
    );
}

#[test]
fn rejects_raw_control_character() {
    assert_eq!(from_json("{\"display_name\":\"a\u{1}b\"}"), Err(MetaError::Malformed));
}

#[test]
fn skips_number_values() {
    let m = from_json(
        "{\"n\":-1.5e+10,\"display_name\":\"X\",\"z\":0,\"a\":-0.25,\"b\":3E-2,\"c\":12e4}",
    )
    .unwrap();
    assert_eq!(m.display_name, "X");
}

#[test]
fn rejects_malformed_numbers() {
    assert_eq!(from_json("{\"display_name\":\"X\",\"k\":-}"), Err(MetaError::Malformed));
    assert_eq!(from_json("{\"display_name\":\"X\",\"k\":01}"), Err(MetaError::Malformed));
    assert_eq!(from_json("{\"display_name\":\"X\",\"k\":1.}"), Err(MetaError::Malformed));
    assert_eq!(from_json("{\"display_name\":\"X\",\"k\":.5}"), Err(MetaError::Malformed));
    assert_eq!(from_json("{\"display_name\":\"X\",\"k\":+1}"), Err(MetaError::Malformed));
    assert_eq!(from_json("{\"display_name\":\"X\",\"k\":1e}"), Err(MetaError::Malformed));
    assert_eq!(from_json("{\"display_name\":\"X\",\"k\":1e+}"), Err(MetaError::Malformed));
    assert_eq!(from_json("{\"display_name\":\"X\",\"k\":--1}"), Err(MetaError::Malformed));
}

#[test]
fn decodes_unicode_escapes() {
    let m = from_json("{\"display_name\":\"\\u0416 \\u00e9 \\uD83D\\uDE00\"}").unwrap();
    assert_eq!(m.display_name, "\u{416} \u{e9} \u{1F600}");
}

#[test]
fn rejects_lone_surrogates() {
    assert_eq!(from_json("{\"display_name\":\"\\uD800\"}"), Err(MetaError::Malformed));
    assert_eq!(from_json("{\"display_name\":\"\\uDC00\"}"), Err(MetaError::Malformed));
    assert_eq!(
        from_json("{\"display_name\":\"\\uD83D\\u0041\"}"),
        Err(MetaError::Malformed)
    );
}

#[test]
fn unknown_string_values_may_hold_braces() {
    let m = from_json("{\"display_name\":\"X\",\"k\":\"}{[,]\",\"j\":[\"{\",\"}\"]}").unwrap();
    assert_eq!(m.display_name, "X");
}

#[test]
fn key_order_does_not_matter() {
    let m = from_json("{\"authors\":\"a\",\"website\":\"w\",\"source_code\":\"s\",\"display_name\":\"X\"}")
        .unwrap();
    assert_eq!(m.display_name, "X");
    assert_eq!(m.authors.as_deref(), Some("a"));
    assert_eq!(m.website.as_deref(), Some("w"));
    assert_eq!(m.source_code.as_deref(), Some("s"));
}

#[test]
fn rejects_unbalanced_unknown_value() {
    assert_eq!(
        from_json("{\"display_name\":\"X\",\"k\":[1,2}"),
        Err(MetaError::Malformed)
    );
    assert_eq!(
        from_json("{\"display_name\":\"X\",\"k\":{\"a\":1}"),
        Err(MetaError::Malformed)
    );
}
