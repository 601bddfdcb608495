use socketioxide::value::{count_attachments, extract, fill, Value};

fn nested(a: &[u8], b: &[u8], c: &[u8]) -> Value {
    Value::Array(vec![
        Value::Str("upload".to_string()),
        Value::Bytes(a.to_vec()),
        Value::Object {
            keys: vec!["files".to_string(), "note".to_string()],
            values: vec![
                Value::Array(vec![Value::Bytes(b.to_vec()), Value::Int(-1)]),
                Value::Null,
            ],
        },
        Value::Array(vec![Value::Array(vec![Value::Bytes(c.to_vec())]), Value::Float(0x3ff8000000000000)]),
        Value::Bool(true),
    ])
}

fn nested_skeleton(first: u64) -> Value {
    Value::Array(vec![
        Value::Str("upload".to_string()),
        Value::Placeholder(first),
        Value::Object {
            keys: vec!["files".to_string(), "note".to_string()],
            values: vec![
                Value::Array(vec![Value::Placeholder(first + 1), Value::Int(-1)]),
                Value::Null,
            ],
        },
        Value::Array(vec![
            Value::Array(vec![Value::Placeholder(first + 2)]),
            Value::Float(0x3ff8000000000000),
        ]),
        Value::Bool(true),
    ])
}

#[test]
fn blobs_are_taken_out_in_walk_order() {
    let value = nested(b"A", b"BB", b"CCC");
    let mut out = Vec::new();
    let skeleton = extract(&value, &mut out);
    assert_eq!(skeleton, nested_skeleton(0));
    assert_eq!(out, vec![b"A".to_vec(), b"BB".to_vec(), b"CCC".to_vec()]);
}

#[test]
fn attachments_return_to_their_places() {
    let value = nested(b"A", b"BB", b"CCC");
    let mut out = Vec::new();
    let skeleton = extract(&value, &mut out);
    assert_eq!(fill(&skeleton, &out), Some(value));
}

#[test]
fn attachments_in_another_order_land_elsewhere() {
    let skeleton = nested_skeleton(0);
    let swapped = vec![b"CCC".to_vec(), b"BB".to_vec(), b"A".to_vec()];
    assert_eq!(fill(&skeleton, &swapped), Some(nested(b"CCC", b"BB", b"A")));
}

#[test]
fn placeholders_are_numbered_after_what_is_there() {
    let value = nested(b"A", b"BB", b"CCC");
    let mut out = vec![b"first".to_vec(), b"second".to_vec()];
    let skeleton = extract(&value, &mut out);
    assert_eq!(skeleton, nested_skeleton(2));
    assert_eq!(out.len(), 5);
    assert_eq!(out[0], b"first");
    assert_eq!(out[4], b"CCC");
    assert_eq!(fill(&skeleton, &out), Some(value));
}

#[test]
fn the_count_is_the_number_of_blobs() {
    assert_eq!(count_attachments(&nested(b"A", b"BB", b"CCC")), Some(3));
    assert_eq!(count_attachments(&nested_skeleton(0)), Some(0));
    assert_eq!(count_attachments(&Value::Bytes(vec![])), Some(1));
    assert_eq!(count_attachments(&Value::Null), Some(0));
    assert_eq!(count_attachments(&Value::Array(vec![])), Some(0));
}

#[test]
fn a_placeholder_without_its_attachment_cannot_be_filled() {
    let skeleton = nested_skeleton(0);
    assert_eq!(fill(&skeleton, &vec![b"A".to_vec(), b"BB".to_vec()]), None);
    assert_eq!(fill(&Value::Placeholder(0), &vec![]), None);
    assert_eq!(fill(&Value::Placeholder(u64::MAX), &vec![vec![1]]), None);
}

#[test]
fn a_value_without_placeholders_is_filled_as_it_is() {
    let value = nested(b"A", b"BB", b"CCC");
    assert_eq!(fill(&value, &vec![]), Some(nested(b"A", b"BB", b"CCC")));
}

#[test]
fn a_value_without_blobs_is_its_own_skeleton() {
    let value = Value::Object {
        keys: vec!["a".to_string()],
        values: vec![Value::Array(vec![Value::Int(i64::MIN), Value::Str(String::new())])],
    };
    let mut out = Vec::new();
    let skeleton = extract(&value, &mut out);
    assert_eq!(skeleton, value);
    assert!(out.is_empty());
}

#[test]
fn a_single_blob_becomes_a_single_placeholder() {
    let mut out = Vec::new();
    assert_eq!(extract(&Value::Bytes(vec![1, 2, 3]), &mut out), Value::Placeholder(0));
    assert_eq!(out, vec![vec![1, 2, 3]]);
    assert_eq!(fill(&Value::Placeholder(0), &out), Some(Value::Bytes(vec![1, 2, 3])));
}
