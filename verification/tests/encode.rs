use xml_serde::{from_str, to_events, to_string, to_string_custom, Options, Shape, Value};

fn text(v: &str) -> Value {
    Value::Text(v.to_string())
}

fn rec(pairs: Vec<(&str, Value)>) -> Value {
    Value::Pairs(pairs.into_iter().map(|(k, v)| (k.to_string(), v)).collect())
}

fn record_shape(fields: Vec<&str>, shapes: Vec<Shape>) -> Shape {
    Shape::Record { fields: fields.into_iter().map(str::to_string).collect(), shapes }
}

#[test]
fn encode() {
    let message = rec(vec![(
        "{urn:ietf:params:xml:ns:epp-1.0}epp",
        Value::Choice(
            "{urn:ietf:params:xml:ns:epp-1.0}command".to_string(),
            Box::new(rec(vec![
                ("$valueRaw", text("&")),
                (
                    "{urn:ietf:params:xml:ns:epp-1.0}clTRID",
                    Value::Present(Box::new(text("&"))),
                ),
            ])),
        ),
    )]);

    let encoded = to_string(&message).expect("Encode to XML");
    println!("{:?}", encoded);
}

#[test]
fn scalar_field_round_trip() {
    let v = rec(vec![("{urn:foo}foo:bar", text("baz"))]);
    let shape = record_shape(vec!["{urn:foo}foo:bar"], vec![Shape::Text]);
    let encoded = to_string(&v).unwrap();
    assert!(encoded.contains("<foo:bar"));
    assert!(encoded.contains("baz</foo:bar>"));
    let decoded = from_str(&encoded, &shape).unwrap();
    assert_eq!(decoded, v);
}

#[test]
fn attribute_and_child_round_trip() {
    let v = rec(vec![(
        "e",
        rec(vec![("$attr:a", text("v")), ("x", text("1"))]),
    )]);
    let shape = record_shape(
        vec!["e"],
        vec![record_shape(vec!["$attr:a", "x"], vec![Shape::Text, Shape::Text])],
    );
    let encoded = to_string(&v).unwrap();
    assert!(encoded.contains(r#"a="v""#));
    let decoded = from_str(&encoded, &shape).unwrap();
    assert_eq!(decoded, v);
}

#[test]
fn sequence_members_reuse_the_declared_name() {
    let v = rec(vec![(
        "root",
        rec(vec![(
            "item",
            Value::Items(vec![Value::Signed(1), Value::Signed(2)]),
        )]),
    )]);
    let encoded = to_string(&v).unwrap();
    assert!(encoded.contains("<item>1</item><item>2</item>"));
}

#[test]
fn absent_optional_emits_nothing() {
    let v = rec(vec![("e", rec(vec![("x", Value::Absent), ("y", text("1"))]))]);
    let encoded = to_string(&v).unwrap();
    assert!(!encoded.contains("<x"));
    assert!(encoded.contains("<y>1</y>"));
}

#[test]
fn document_declaration_toggle() {
    let v = rec(vec![("e", text("1"))]);
    let with_decl = to_string(&v).unwrap();
    assert!(with_decl.starts_with("<?xml"));
    let opts = Options {
        pretty: false,
        write_document_declaration: false,
        normalize_empty_elements: true,
        cdata_to_characters: false,
        pad_self_closing: false,
        indent: "  ".to_string(),
    };
    let without = to_string_custom(&v, &opts).unwrap();
    assert!(!without.starts_with("<?xml"));
    assert!(without.starts_with("<e>"));
}

#[test]
fn empty_element_is_normalized() {
    let v = rec(vec![("e", text(""))]);
    let encoded = to_string(&v).unwrap();
    assert!(encoded.contains("<e/>"));
}

#[test]
fn booleans_and_numbers_spelled_as_text() {
    let v = rec(vec![
        ("b", Value::Boolean(true)),
        ("i", Value::Signed(-42)),
        ("u", Value::Unsigned(10500)),
        ("c", Value::Character('x')),
    ]);
    let encoded = to_string(&v).unwrap();
    assert!(encoded.contains("<b>true</b>"));
    assert!(encoded.contains("<i>-42</i>"));
    assert!(encoded.contains("<u>10500</u>"));
    assert!(encoded.contains("<c>x</c>"));
}

#[test]
fn raw_xml_round_trip() {
    let raw = r#"<a xmlns="u"><b/></a>"#;
    let v = rec(vec![("root", rec(vec![("$valueRaw", text(raw))]))]);
    let encoded = to_string(&v).unwrap();
    assert!(encoded.contains(r#"<a xmlns="u"><b/></a>"#));

    let shape = record_shape(vec!["root"], vec![record_shape(vec!["$value"], vec![Shape::Text])]);
    let decoded = from_str(&encoded, &shape).unwrap();
    assert_eq!(
        decoded,
        rec(vec![("root", rec(vec![("$value", text(raw))]))])
    );
}

#[test]
fn document_round_trip_keeps_the_tree() {
    // encode(decode(doc)) yields the same element tree and attribute
    // sets; decoding both sides again gives identical values. The root
    // element's own name is consumed by the decode, so it is restored
    // around the re-encoded children.
    let doc = r#"<?xml version="1.0"?><root><a>x</a><b k="v"></b></root>"#;
    let first = from_str(doc, &Shape::Dynamic).unwrap();
    let wrapped = rec(vec![("root", from_str(doc, &Shape::Dynamic).unwrap())]);
    let encoded = to_string(&wrapped).unwrap();
    let second = from_str(&encoded, &Shape::Dynamic).unwrap();
    assert_eq!(first, second);
}

#[test]
fn events_for_a_scalar_field() {
    let v = rec(vec![("e", text("hi"))]);
    let events = to_events(&v).unwrap();
    assert_eq!(events.len(), 3);
}

#[test]
fn unit_variant_encodes_as_empty_element() {
    let v = rec(vec![(
        "e",
        Value::Choice("chosen".to_string(), Box::new(Value::Unit)),
    )]);
    let encoded = to_string(&v).unwrap();
    assert!(encoded.contains("<e><chosen/></e>"));
}
