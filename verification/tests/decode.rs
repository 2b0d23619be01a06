use xml_serde::{from_events, from_str, Error, Event, Name, Shape, Value};

fn qname(ns: Option<&str>, prefix: Option<&str>, local: &str) -> Name {
    Name {
        namespace: ns.map(str::to_string),
        local: local.to_string(),
        prefix: prefix.map(str::to_string),
    }
}

fn text(v: &str) -> Value {
    Value::Text(v.to_string())
}

fn rec(pairs: Vec<(&str, Value)>) -> Value {
    Value::Pairs(pairs.into_iter().map(|(k, v)| (k.to_string(), v)).collect())
}

fn record_shape(fields: Vec<&str>, shapes: Vec<Shape>) -> Shape {
    Shape::Record { fields: fields.into_iter().map(str::to_string).collect(), shapes }
}

#[test]
fn deserialize_element_into_struct() {
    let shape = record_shape(vec!["{urn:foo}foo:bar"], vec![Shape::Text]);
    assert_eq!(
        from_str(
            r#"
<?xml version="1.0" encoding="utf-8" standalone="yes"?>
<foo:bar xmlns:foo="urn:foo">baz</foo:bar>
            "#,
            &shape
        )
        .unwrap(),
        rec(vec![("{urn:foo}foo:bar", text("baz"))])
    );
}

#[test]
fn deserialize_element_from_events_with_whitespaces() {
    let shape = record_shape(
        vec!["{urn:foo}foo:bar"],
        vec![record_shape(vec!["{urn:foo}foo:baz"], vec![Shape::Text])],
    );

    let events = vec![
        Event::StartDocument,
        Event::Whitespace("\n".to_string()),
        Event::StartElement {
            name: qname(Some("urn:foo"), Some("foo"), "bar"),
            attributes: vec![],
            namespaces: vec![],
        },
        Event::Whitespace("\n    ".to_string()),
        Event::StartElement {
            name: qname(Some("urn:foo"), Some("foo"), "baz"),
            attributes: vec![],
            namespaces: vec![],
        },
        Event::Characters("baz".to_string()),
        Event::EndElement { name: qname(Some("urn:foo"), Some("foo"), "baz") },
        Event::Whitespace("\n".to_string()),
        Event::EndElement { name: qname(Some("urn:foo"), Some("foo"), "bar") },
        Event::EndDocument,
    ];

    let result = from_events(events, &shape).unwrap();

    let expected = rec(vec![(
        "{urn:foo}foo:bar",
        rec(vec![("{urn:foo}foo:baz", text("baz"))]),
    )]);

    assert_eq!(result, expected);
}

#[test]
fn deserialize_element_with_processing_instruction_into_struct() {
    let shape = record_shape(vec!["{urn:foo}foo:bar"], vec![Shape::Text]);
    assert_eq!(
        from_str(
            r#"
<?xml version="1.0" encoding="utf-8" standalone="yes"?>
<?xml-stylesheet href='foo.xsl' type='text/xsl'?>
<foo:bar xmlns:foo="urn:foo">baz</foo:bar>
            "#,
            &shape
        )
        .unwrap(),
        rec(vec![("{urn:foo}foo:bar", text("baz"))])
    );
}

#[test]
fn bool_tokens() {
    let shape = record_shape(vec!["x"], vec![Shape::Boolean]);
    let yes = from_str(r#"<?xml version="1.0"?><x>YES</x>"#, &shape);
    assert!(matches!(yes, Err(Error::ExpectedBool)));
    assert_eq!(
        from_str(r#"<?xml version="1.0"?><x>y</x>"#, &shape).unwrap(),
        rec(vec![("x", Value::Boolean(true))])
    );
    assert_eq!(
        from_str(r#"<?xml version="1.0"?><x>0</x>"#, &shape).unwrap(),
        rec(vec![("x", Value::Boolean(false))])
    );
    assert_eq!(
        from_str(r#"<?xml version="1.0"?><x>TRUE</x>"#, &shape).unwrap(),
        rec(vec![("x", Value::Boolean(true))])
    );
}

#[test]
fn explicit_sequence_of_ints() {
    let shape = record_shape(
        vec!["root"],
        vec![record_shape(vec!["item"], vec![Shape::Sequence(Box::new(Shape::Int32))])],
    );
    let got = from_str(
        r#"<?xml version="1.0"?><root><item>1</item><item>2</item><item>3</item></root>"#,
        &shape,
    )
    .unwrap();
    let expected = rec(vec![(
        "root",
        rec(vec![(
            "item",
            Value::Items(vec![Value::Signed(1), Value::Signed(2), Value::Signed(3)]),
        )]),
    )]);
    assert_eq!(got, expected);
}

#[test]
fn different_siblings_not_coalesced() {
    // Implicit sequence detection compares qualified names: two
    // different siblings stay two separate pairs.
    let got = from_str(
        r#"<?xml version="1.0"?><root><item>1</item><other>2</other></root>"#,
        &Shape::Dynamic,
    )
    .unwrap();
    // the consumed root element exposes its children directly
    let expected = rec(vec![("item", text("1")), ("other", text("2"))]);
    assert_eq!(got, expected);
}

#[test]
fn implicit_sequence_detected_in_dynamic_shape() {
    let got = from_str(
        r#"<?xml version="1.0"?><root><item>1</item><item>2</item></root>"#,
        &Shape::Dynamic,
    )
    .unwrap();
    // the consumed root element exposes its children directly
    let expected = rec(vec![("item", Value::Items(vec![text("1"), text("2")]))]);
    assert_eq!(got, expected);
}

#[test]
fn attribute_field() {
    let shape = record_shape(
        vec!["e"],
        vec![record_shape(vec!["$attr:a", "x"], vec![Shape::UInt8, Shape::Text])],
    );
    let got = from_str(r#"<?xml version="1.0"?><e a="5"><x>hi</x></e>"#, &shape).unwrap();
    let expected = rec(vec![(
        "e",
        rec(vec![("$attr:a", Value::Unsigned(5)), ("x", text("hi"))]),
    )]);
    assert_eq!(got, expected);
}

#[test]
fn value_sink_absorbs_foreign_subtree() {
    let shape = record_shape(vec!["e"], vec![record_shape(vec!["$value"], vec![Shape::Text])]);
    let got = from_str(
        r#"<?xml version="1.0"?><e><unknown>txt</unknown></e>"#,
        &shape,
    )
    .unwrap();
    let expected = rec(vec![("e", rec(vec![("$value", text("<unknown>txt</unknown>"))]))]);
    assert_eq!(got, expected);
}

#[test]
fn value_sinks_handed_out_in_order() {
    let shape = record_shape(
        vec!["e"],
        vec![record_shape(vec!["$value1", "$value2"], vec![Shape::Text, Shape::Text])],
    );
    let got = from_str(r#"<?xml version="1.0"?><e><p>1</p><q>2</q></e>"#, &shape).unwrap();
    let expected = rec(vec![(
        "e",
        rec(vec![("$value1", text("<p>1</p>")), ("$value2", text("<q>2</q>"))]),
    )]);
    assert_eq!(got, expected);
}

#[test]
fn unit_variant_as_element() {
    let shape = record_shape(
        vec!["e"],
        vec![Shape::Choice {
            variants: vec!["a".to_string(), "b".to_string()],
            payloads: vec![Shape::Unit, Shape::Unit],
        }],
    );
    let got = from_str(r#"<?xml version="1.0"?><e><b/></e>"#, &shape).unwrap();
    let expected = rec(vec![(
        "e",
        Value::Choice("b".to_string(), Box::new(Value::Unit)),
    )]);
    assert_eq!(got, expected);
}

#[test]
fn unit_variant_spelled_as_text() {
    let shape = record_shape(
        vec!["e"],
        vec![Shape::Choice {
            variants: vec!["a".to_string(), "b".to_string()],
            payloads: vec![Shape::Unit, Shape::Unit],
        }],
    );
    let got = from_str(r#"<?xml version="1.0"?><e>b</e>"#, &shape).unwrap();
    let expected = rec(vec![(
        "e",
        Value::Choice("b".to_string(), Box::new(Value::Unit)),
    )]);
    assert_eq!(got, expected);
}

#[test]
fn optional_present_and_absent() {
    let inner = record_shape(vec!["x"], vec![Shape::Optional(Box::new(Shape::Text))]);
    let shape = record_shape(vec!["e"], vec![inner]);
    let present = from_str(r#"<?xml version="1.0"?><e><x>hi</x></e>"#, &shape).unwrap();
    assert_eq!(
        present,
        rec(vec![("e", rec(vec![("x", Value::Present(Box::new(text("hi"))))]))])
    );
    let absent = from_str(r#"<?xml version="1.0"?><e><x/></e>"#, &shape).unwrap();
    assert_eq!(absent, rec(vec![("e", rec(vec![("x", Value::Absent)]))]));
}

#[test]
fn integer_widths() {
    let shape8 = record_shape(vec!["n"], vec![Shape::UInt8]);
    let shape16 = record_shape(vec!["n"], vec![Shape::UInt16]);
    let doc = r#"<?xml version="1.0"?><n>300</n>"#;
    assert!(matches!(from_str(doc, &shape8), Err(Error::ExpectedInt)));
    assert_eq!(
        from_str(doc, &shape16).unwrap(),
        rec(vec![("n", Value::Unsigned(300))])
    );
    let neg = r#"<?xml version="1.0"?><n>-42</n>"#;
    let shape_i8 = record_shape(vec!["n"], vec![Shape::Int8]);
    assert_eq!(
        from_str(neg, &shape_i8).unwrap(),
        rec(vec![("n", Value::Signed(-42))])
    );
    let junk = r#"<?xml version="1.0"?><n>abc</n>"#;
    assert!(matches!(from_str(junk, &shape16), Err(Error::ExpectedInt)));
}

#[test]
fn character_must_be_single() {
    let shape = record_shape(vec!["c"], vec![Shape::Character]);
    assert!(matches!(
        from_str(r#"<?xml version="1.0"?><c>ab</c>"#, &shape),
        Err(Error::ExpectedChar)
    ));
    assert_eq!(
        from_str(r#"<?xml version="1.0"?><c>&#248;</c>"#, &shape).unwrap(),
        rec(vec![("c", Value::Character('\u{f8}'))])
    );
}

#[test]
fn bytes_are_unsupported() {
    let shape = record_shape(vec!["b"], vec![Shape::Bytes]);
    assert!(matches!(
        from_str(r#"<?xml version="1.0"?><b>x</b>"#, &shape),
        Err(Error::Unsupported)
    ));
}

#[test]
fn parser_error_is_wrapped() {
    assert!(matches!(
        from_str("<unclosed", &Shape::Dynamic),
        Err(Error::ParserError(_))
    ));
}

#[test]
fn malformed_field_tag_fails_loudly() {
    let shape = record_shape(vec!["e"], vec![record_shape(vec!["{unclosed"], vec![Shape::Text])]);
    assert!(matches!(
        from_str(r#"<?xml version="1.0"?><e><x>1</x></e>"#, &shape),
        Err(Error::Custom(_))
    ));
}

#[test]
fn empty_event_stream_is_expected_element() {
    assert!(matches!(
        from_events(vec![], &Shape::Text),
        Err(Error::ExpectedElement)
    ));
}

#[test]
fn empty_element_is_empty_string() {
    let shape = record_shape(vec!["x"], vec![Shape::Text]);
    assert_eq!(
        from_str(r#"<?xml version="1.0"?><x></x>"#, &shape).unwrap(),
        rec(vec![("x", text(""))])
    );
}

#[test]
fn cdata_is_text() {
    let shape = record_shape(vec!["x"], vec![Shape::Text]);
    assert_eq!(
        from_str(r#"<?xml version="1.0"?><x><![CDATA[a<b]]></x>"#, &shape).unwrap(),
        rec(vec![("x", text("a<b"))])
    );
}

#[test]
fn attribute_beside_text_content() {
    let shape = record_shape(
        vec!["e"],
        vec![record_shape(vec!["$attr:a", "$value"], vec![Shape::Text, Shape::Text])],
    );
    let got = from_str(r#"<?xml version="1.0"?><e a="1">txt</e>"#, &shape).unwrap();
    let expected = rec(vec![(
        "e",
        rec(vec![("$attr:a", text("1")), ("$value", text("txt"))]),
    )]);
    assert_eq!(got, expected);
}

#[test]
fn unknown_variant_is_an_error() {
    let shape = record_shape(
        vec!["e"],
        vec![Shape::Choice { variants: vec!["a".to_string()], payloads: vec![Shape::Unit] }],
    );
    assert!(matches!(
        from_str(r#"<?xml version="1.0"?><e><z/></e>"#, &shape),
        Err(Error::Custom(_))
    ));
}
