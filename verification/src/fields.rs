//! The fields of a metadata header: reading them from YAML text, and the
//! generic values they hold.

use serde_yaml_neo::Value;
use vstd::prelude::*;

verus! {

/// A YAML value as `serde_yaml_neo` reads it.
#[derive(Debug)]
pub enum YamlNode {
    Null,
    Bool(bool),
    /// A number: as a signed integer where it is one that fits, and the bits
    /// of the double nearest to it.
    Number(Option<i64>, Option<u64>),
    String(String),
    Sequence(Vec<YamlNode>),
    /// The entries of a mapping, in the order of the text.
    Mapping(Vec<(YamlNode, YamlNode)>),
    /// A value with a tag; the tag itself is not kept.
    Tagged(Box<YamlNode>),
}

/// The value of a header field.
#[derive(Debug)]
pub enum FieldValue {
    Null,
    Bool(bool),
    Integer(i64),
    /// A finite floating-point number, as the bits of a double.
    Float(u64),
    String(String),
    Array(Vec<FieldValue>),
    /// The entries of a mapping by name, in the order of the text.
    Object(Vec<(String, FieldValue)>),
}

/// `serde_yaml_neo::Value`, of which nothing is known here.
#[verifier::external_type_specification]
#[verifier::external_body]
pub struct ExYamlValue(serde_yaml_neo::Value);

/// The YAML value that `text` holds, as `serde_yaml_neo` reads it; `None`
/// where it rejects the text.
pub uninterp spec fn yaml_document(text: Seq<char>) -> Option<YamlNode>;

/// Takes a `serde_yaml_neo::Value` apart, variant by variant. A number is
/// taken by `Number::as_i64` and by the bits of `Number::as_f64`, a tagged
/// value by its value.
#[verifier::external_body]
fn yaml_node(value: serde_yaml_neo::Value) -> YamlNode {
    match value {
        Value::Null => YamlNode::Null,
        Value::Bool(b) => YamlNode::Bool(b),
        Value::Number(n) => YamlNode::Number(n.as_i64(), n.as_f64().map(|x| x.to_bits())),
        Value::String(s) => YamlNode::String(s),
        Value::Sequence(v) => YamlNode::Sequence(v.into_iter().map(yaml_node).collect()),
        Value::Mapping(m) => YamlNode::Mapping(
            m.into_iter().map(|(k, v)| (yaml_node(k), yaml_node(v))).collect(),
        ),
        Value::Tagged(t) => YamlNode::Tagged(Box::new(yaml_node(t.value))),
    }
}

/// `serde_yaml_neo::from_str` with `serde_yaml_neo::Value` as its target.
#[verifier::external_body]
fn read_yaml(text: &str) -> (r: Option<YamlNode>)
    ensures
        r == yaml_document(text@),
{
    serde_yaml_neo::from_str::<serde_yaml_neo::Value>(text).ok().map(yaml_node)
}

/// Whether the bits are those of a finite double: one whose exponent is not
/// all ones.
pub open spec fn is_finite_double(bits: u64) -> bool {
    (bits / 0x10_0000_0000_0000) % 0x800 != 0x7ff
}

/// The node under its tags.
pub open spec fn untagged(node: YamlNode) -> YamlNode
    decreases node,
{
    match node {
        YamlNode::Tagged(inner) => untagged(*inner),
        other => other,
    }
}

/// The text of a node that is a string under its tags.
pub open spec fn key_text(node: YamlNode) -> Option<Seq<char>> {
    match untagged(node) {
        YamlNode::String(s) => Some(s@),
        _ => None,
    }
}

/// Whether `value` is the field value for `node`: the same value without
/// tags. A number is an integer where it is one that fits `i64`, else a
/// double, and null where that is not finite. Of a mapping the entries whose
/// key is a string are kept.
pub open spec fn converts(node: YamlNode, value: FieldValue) -> bool
    decreases node, 0nat,
{
    match node {
        YamlNode::Null => value is Null,
        YamlNode::Bool(b) => value == FieldValue::Bool(b),
        YamlNode::Number(Some(n), _) => value == FieldValue::Integer(n),
        YamlNode::Number(None, Some(bits)) => if is_finite_double(bits) {
            value == FieldValue::Float(bits)
        } else {
            value is Null
        },
        YamlNode::Number(None, None) => value is Null,
        YamlNode::String(s) => value matches FieldValue::String(t) && t@ == s@,
        YamlNode::Sequence(items) => {
            &&& value matches FieldValue::Array(out)
            &&& out.len() == items.len()
            &&& forall|i: int|
                0 <= i < items.len() ==> converts(#[trigger] items[i], out[i])
        },
        YamlNode::Mapping(entries) => {
            &&& value matches FieldValue::Object(out)
            &&& entries_convert(entries@, out@)
        },
        YamlNode::Tagged(inner) => converts(*inner, value),
    }
}

/// Whether `out` holds the field values for the entries with a string as
/// their key, under those strings and in the same order.
pub open spec fn entries_convert(
    entries: Seq<(YamlNode, YamlNode)>,
    out: Seq<(String, FieldValue)>,
) -> bool
    decreases entries, 1nat,
{
    if entries.len() == 0 {
        out.len() == 0
    } else {
        let front = entries.drop_last();
        match key_text(entries.last().0) {
            Some(name) => {
                &&& out.len() > 0
                &&& out.last().0@ == name
                &&& converts(entries.last().1, out.last().1)
                &&& entries_convert(front, out.drop_last())
            },
            None => entries_convert(front, out),
        }
    }
}

/// The text of a node that is a string under its tags.
pub fn key_of(node: &YamlNode) -> (r: Option<String>)
    ensures
        match r {
            Some(name) => key_text(*node) == Some(name@),
            None => key_text(*node) is None,
        },
    decreases node,
{
    match node {
        YamlNode::Tagged(inner) => key_of(inner),
        YamlNode::String(s) => Some(s.clone()),
        _ => None,
    }
}

/// The field value for a YAML value.
pub fn yaml_to_json_value(node: &YamlNode) -> (value: FieldValue)
    ensures
        converts(*node, value),
    decreases node,
{
    match node {
        YamlNode::Null => FieldValue::Null,
        YamlNode::Bool(b) => FieldValue::Bool(*b),
        YamlNode::Number(Some(n), _) => FieldValue::Integer(*n),
        YamlNode::Number(None, Some(bits)) => {
            if (*bits / 0x10_0000_0000_0000) % 0x800 != 0x7ff {
                FieldValue::Float(*bits)
            } else {
                FieldValue::Null
            }
        },
        YamlNode::Number(None, None) => FieldValue::Null,
        YamlNode::String(s) => FieldValue::String(s.clone()),
        YamlNode::Sequence(items) => {
            let out = sequence_values(items);
            FieldValue::Array(out)
        },
        YamlNode::Mapping(entries) => {
            let out = mapping_fields(entries);
            FieldValue::Object(out)
        },
        YamlNode::Tagged(inner) => yaml_to_json_value(inner),
    }
}

/// The field values for the items of a sequence.
pub fn sequence_values(items: &Vec<YamlNode>) -> (out: Vec<FieldValue>)
    ensures
        out.len() == items.len(),
        forall|j: int| 0 <= j < items.len() ==> converts(#[trigger] items[j], out[j]),
    decreases items,
{
    let mut out: Vec<FieldValue> = Vec::new();
    let mut i: usize = 0;
    while i < items.len()
        invariant
            i <= items.len(),
            out.len() == i,
            forall|j: int| 0 <= j < i ==> converts(#[trigger] items[j], out[j]),
        decreases items.len() - i,
    {
        let value = yaml_to_json_value(&items[i]);
        out.push(value);
        i = i + 1;
    }
    out
}

/// The fields of a mapping: its entries with a string as their key.
pub fn mapping_fields(entries: &Vec<(YamlNode, YamlNode)>) -> (out: Vec<(String, FieldValue)>)
    ensures
        entries_convert(entries@, out@),
    decreases entries,
{
    let mut out: Vec<(String, FieldValue)> = Vec::new();
    let mut i: usize = 0;
    while i < entries.len()
        invariant
            i <= entries.len(),
            entries_convert(entries@.take(i as int), out@),
        decreases entries.len() - i,
    {
        let ghost before = out@;
        let ghost upto = entries@.take(i + 1);
        assert(upto.drop_last() == entries@.take(i as int));
        assert(upto.last() == entries@[i as int]);
        match key_of(&entries[i].0) {
            Some(name) => {
                let value = yaml_to_json_value(&entries[i].1);
                out.push((name, value));
                assert(out@.drop_last() == before);
            },
            None => {},
        }
        i = i + 1;
    }
    assert(entries@.take(entries.len() as int) == entries@);
    out
}

/// Whether `fields` are the fields that the header text `inner` gives: those
/// of the mapping it holds, and none where it holds anything else or is no
/// YAML.
pub open spec fn fields_of(inner: Seq<char>, fields: Seq<(String, FieldValue)>) -> bool {
    match yaml_document(inner) {
        Some(YamlNode::Mapping(entries)) => entries_convert(entries@, fields),
        _ => fields.len() == 0,
    }
}

/// Reads the fields of a header from the text between its delimiters.
pub fn parse_yaml_frontmatter(inner: &str) -> (fields: Vec<(String, FieldValue)>)
    ensures
        fields_of(inner@, fields@),
{
    match read_yaml(inner) {
        Some(YamlNode::Mapping(entries)) => mapping_fields(&entries),
        _ => Vec::new(),
    }
}

/// The value of the field `name`: that of the last entry with the name.
pub open spec fn field_named(fields: Seq<(String, FieldValue)>, name: Seq<char>) -> Option<
    FieldValue,
>
    decreases fields.len(),
{
    if fields.len() == 0 {
        None
    } else if fields.last().0@ == name {
        Some(fields.last().1)
    } else {
        field_named(fields.drop_last(), name)
    }
}

/// The text of the field `name`, if the field is there and holds a string.
pub open spec fn string_field(fields: Seq<(String, FieldValue)>, name: Seq<char>) -> Option<
    Seq<char>,
> {
    match field_named(fields, name) {
        Some(FieldValue::String(text)) => Some(text@),
        _ => None,
    }
}

/// Looks up the field `name`.
pub fn get_field<'a>(fields: &'a Vec<(String, FieldValue)>, name: &str) -> (r: Option<
    &'a FieldValue,
>)
    ensures
        match r {
            Some(value) => field_named(fields@, name@) == Some(*value),
            None => field_named(fields@, name@) is None,
        },
{
    let wanted = name.to_owned();
    let mut i: usize = fields.len();
    assert(fields@.take(i as int) == fields@);
    while i > 0
        invariant
            i <= fields.len(),
            wanted@ == name@,
            field_named(fields@, name@) == field_named(fields@.take(i as int), name@),
        decreases i,
    {
        let ghost upto = fields@.take(i as int);
        assert(upto.last() == fields@[i - 1]);
        assert(upto.drop_last() == fields@.take(i - 1));
        if fields[i - 1].0 == wanted {
            return Some(&fields[i - 1].1);
        }
        i = i - 1;
    }
    None
}

/// The text of the field `name`, if the field is there and holds a string;
/// a field of any other type counts as absent.
pub fn get_string_field(fields: &Vec<(String, FieldValue)>, name: &str) -> (r: Option<String>)
    ensures
        match r {
            Some(text) => string_field(fields@, name@) == Some(text@),
            None => string_field(fields@, name@) is None,
        },
{
    match get_field(fields, name) {
        Some(FieldValue::String(text)) => Some(text.clone()),
        _ => None,
    }
}

impl FieldValue {
    /// The text of a value that is a string.
    pub fn as_str(&self) -> (r: Option<&str>)
        ensures
            match r {
                Some(text) => *self matches FieldValue::String(s) && s@ == text@,
                None => !(*self is String),
            },
    {
        match self {
            FieldValue::String(s) => Some(s.as_str()),
            _ => None,
        }
    }
}

} // verus!
