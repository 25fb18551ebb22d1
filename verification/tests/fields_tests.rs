use skill_translator::fields::{get_field, get_string_field, FieldValue};
use skill_translator::parser::ContentParser;

fn fields_of(header: &str) -> Vec<(String, FieldValue)> {
    ContentParser::new().parse(&format!("---\n{}\n---\n", header)).frontmatter_dict
}

#[test]
fn scalars_keep_their_types() {
    let fields = fields_of("s: text\nq: \"quoted\"\nb: true\nn: ~\ni: -12\nbig: 18446744073709551615\nf: 1.5\ninf: .inf\nnan: .nan");
    assert!(matches!(get_field(&fields, "s"), Some(FieldValue::String(s)) if s == "text"));
    assert!(matches!(get_field(&fields, "q"), Some(FieldValue::String(s)) if s == "quoted"));
    assert!(matches!(get_field(&fields, "b"), Some(FieldValue::Bool(true))));
    assert!(matches!(get_field(&fields, "n"), Some(FieldValue::Null)));
    assert!(matches!(get_field(&fields, "i"), Some(FieldValue::Integer(-12))));
    assert!(matches!(
        get_field(&fields, "big"),
        Some(FieldValue::Float(bits)) if f64::from_bits(*bits) == 18446744073709551615.0
    ));
    assert!(matches!(
        get_field(&fields, "f"),
        Some(FieldValue::Float(bits)) if f64::from_bits(*bits) == 1.5
    ));
    assert!(matches!(get_field(&fields, "inf"), Some(FieldValue::Null)));
    assert!(matches!(get_field(&fields, "nan"), Some(FieldValue::Null)));
    assert!(get_field(&fields, "absent").is_none());
}

#[test]
fn sequences_and_mappings_nest() {
    let fields = fields_of("tags: [a, 2, [x]]\nmeta:\n  emoji: e\n  3: dropped\n  inner: {k: v}");
    match get_field(&fields, "tags") {
        Some(FieldValue::Array(items)) => {
            assert_eq!(items.len(), 3);
            assert!(matches!(&items[0], FieldValue::String(s) if s == "a"));
            assert!(matches!(&items[1], FieldValue::Integer(2)));
            assert!(matches!(&items[2], FieldValue::Array(inner) if inner.len() == 1));
        }
        other => panic!("expected an array, got {:?}", other),
    }
    match get_field(&fields, "meta") {
        Some(FieldValue::Object(entries)) => {
            assert_eq!(entries.len(), 2);
            assert_eq!(entries[0].0, "emoji");
            assert_eq!(entries[1].0, "inner");
            assert!(matches!(
                get_field(entries, "inner"),
                Some(FieldValue::Object(inner)) if inner.len() == 1 && inner[0].0 == "k"
            ));
        }
        other => panic!("expected an object, got {:?}", other),
    }
}

#[test]
fn tagged_values_lose_their_tags() {
    let fields = fields_of("a: !!str 12\nb: !custom [1]\n!k c: 1");
    assert_eq!(get_string_field(&fields, "a"), Some("12".to_string()));
    assert!(matches!(get_field(&fields, "b"), Some(FieldValue::Array(items)) if items.len() == 1));
}

#[test]
fn fields_with_other_keys_than_strings_are_dropped() {
    let fields = fields_of("1: one\ntrue: yes\nname: x\n[a]: list");
    assert_eq!(fields.len(), 1);
    assert_eq!(fields[0].0, "name");
}

#[test]
fn string_field_is_absent_for_other_types() {
    let fields = fields_of("name: x\ncount: 3\nlist: [a]");
    assert_eq!(get_string_field(&fields, "name"), Some("x".to_string()));
    assert_eq!(get_string_field(&fields, "count"), None);
    assert_eq!(get_string_field(&fields, "list"), None);
    assert_eq!(get_string_field(&fields, "none"), None);
}
