use graphscope::value::{id_to_string, value_to_string, InternalId, NodeValue, RelValue, Value};

#[test]
fn id_renders_in_canonical_form() {
    assert_eq!(id_to_string(&InternalId { table_id: 0, offset: 0 }), "0:0");
    assert_eq!(id_to_string(&InternalId { table_id: 3, offset: 17 }), "3:17");
    assert_eq!(
        id_to_string(&InternalId { table_id: u64::MAX, offset: 1 }),
        "18446744073709551615:1"
    );
}

#[test]
fn scalars_render_as_their_text() {
    assert_eq!(value_to_string(&Value::Text(String::from("hello"))), "hello");
    assert_eq!(value_to_string(&Value::Int8(-5)), "-5");
    assert_eq!(value_to_string(&Value::Int16(300)), "300");
    assert_eq!(value_to_string(&Value::Int32(-70000)), "-70000");
    assert_eq!(value_to_string(&Value::Int64(1234567890123)), "1234567890123");
    assert_eq!(value_to_string(&Value::Boolean(true)), "true");
    assert_eq!(value_to_string(&Value::Boolean(false)), "false");
}

#[test]
fn carried_text_renders_verbatim() {
    assert_eq!(value_to_string(&Value::Float32Text(String::from("1.5"))), "1.5");
    assert_eq!(value_to_string(&Value::Float64Text(String::from("2.25"))), "2.25");
    assert_eq!(value_to_string(&Value::Other(String::from("opaque"))), "opaque");
}

#[test]
fn entity_values_render_by_identifier_or_label() {
    assert_eq!(value_to_string(&Value::Id(InternalId { table_id: 1, offset: 2 })), "1:2");
    let node = NodeValue {
        id: InternalId { table_id: 4, offset: 9 },
        label: String::from("Person"),
        props: vec![],
    };
    assert_eq!(value_to_string(&Value::Node(node)), "4:9");
    let rel = RelValue {
        label: String::from("KNOWS"),
        src: InternalId { table_id: 0, offset: 0 },
        dst: InternalId { table_id: 0, offset: 1 },
    };
    assert_eq!(value_to_string(&Value::Rel(rel)), "KNOWS");
}
