use xml_serde::{
    parse_tag, u64_to_dec, Cursor, Event, FieldTableCache, Name, TagParts,
};

fn qname(ns: Option<&str>, local: &str) -> Name {
    Name { namespace: ns.map(str::to_string), local: local.to_string(), prefix: None }
}

fn decls(names: &[&str]) -> Vec<String> {
    names.iter().map(|s| s.to_string()).collect()
}

#[test]
fn peek_then_next_return_the_same_event() {
    let events = vec![
        Event::Characters("a".to_string()),
        Event::Characters("b".to_string()),
    ];
    let mut c = Cursor::new(events, false);
    let peeked = c.peek();
    let consumed = c.next().unwrap();
    assert_eq!(peeked, consumed);
    assert_eq!(consumed, Event::Characters("a".to_string()));
}

#[test]
fn peek_reset_peek_next_return_the_same_event() {
    let events = vec![
        Event::Characters("a".to_string()),
        Event::Characters("b".to_string()),
    ];
    let mut c = Cursor::new(events, false);
    let peeked = c.peek();
    c.reset_peek();
    let consumed = c.next().unwrap();
    assert_eq!(peeked, consumed);
}

#[test]
fn successive_peeks_see_successive_events() {
    let events = vec![
        Event::Characters("a".to_string()),
        Event::Characters("b".to_string()),
    ];
    let mut c = Cursor::new(events, false);
    assert_eq!(c.peek(), Event::Characters("a".to_string()));
    assert_eq!(c.peek(), Event::Characters("b".to_string()));
    assert_eq!(c.peek(), Event::EndDocument);
}

#[test]
fn cursor_filters_processing_instructions_and_whitespace() {
    let events = vec![
        Event::ProcessingInstruction,
        Event::Whitespace(" ".to_string()),
        Event::Characters("a".to_string()),
    ];
    let mut c = Cursor::new(events, true);
    assert_eq!(c.next().unwrap(), Event::Characters("a".to_string()));
}

#[test]
fn depth_tracks_starts_and_ends() {
    let events = vec![
        Event::StartElement { name: qname(None, "e"), attributes: vec![], namespaces: vec![] },
        Event::Characters("a".to_string()),
        Event::EndElement { name: qname(None, "e") },
    ];
    let mut c = Cursor::new(events, false);
    assert_eq!(c.depth, 0);
    c.next().unwrap();
    assert_eq!(c.depth, 1);
    c.next().unwrap();
    assert_eq!(c.depth, 1);
    c.next().unwrap();
    assert_eq!(c.depth, 0);
}

#[test]
fn field_table_lookups_are_stable() {
    let mut cache = FieldTableCache::new();
    let list = decls(&["a", "$attr:b", "{urn:x}c"]);
    let t1 = cache.for_field_list(&list).unwrap();
    let n = cache.entries.len();
    let t2 = cache.for_field_list(&list).unwrap();
    assert_eq!(t1, t2);
    assert_eq!(cache.entries.len(), n);
}

#[test]
fn match_element_prefers_declared_names() {
    let mut cache = FieldTableCache::new();
    let list = decls(&["a", "$attr:b", "{urn:x}c"]);
    let mut table = cache.for_field_list(&list).unwrap();
    assert_eq!(table.match_element(&qname(None, "a")), "a");
    assert_eq!(table.match_element(&qname(Some("urn:x"), "c")), "{urn:x}c");
    // the attribute field does not match an element of the same name
    assert_eq!(table.match_element(&qname(None, "b")), "b");
    // namespace must agree
    assert_eq!(table.match_element(&qname(Some("urn:y"), "a")), "{urn:y}a");
}

#[test]
fn match_element_hands_out_sinks_in_order() {
    let mut cache = FieldTableCache::new();
    let list = decls(&["a", "$value1", "$value2"]);
    let mut table = cache.for_field_list(&list).unwrap();
    assert_eq!(table.match_element(&qname(None, "z")), "$value1");
    assert_eq!(table.match_element(&qname(None, "z")), "$value2");
    // sinks exhausted: synthetic names from here on
    assert_eq!(table.match_element(&qname(None, "z")), "z");
}

#[test]
fn single_sink_is_unnumbered() {
    let mut cache = FieldTableCache::new();
    let list = decls(&["a", "$value"]);
    let mut table = cache.for_field_list(&list).unwrap();
    assert_eq!(table.match_element(&qname(None, "z")), "$value");
}

#[test]
fn match_attribute_wraps_names() {
    let mut cache = FieldTableCache::new();
    let list = decls(&["a", "$attr:b", "$attr:{urn:x}c"]);
    let table = cache.for_field_list(&list).unwrap();
    assert_eq!(table.match_attribute(&qname(None, "b")), "$attr:b");
    assert_eq!(table.match_attribute(&qname(Some("urn:x"), "c")), "$attr:{urn:x}c");
    assert_eq!(table.match_attribute(&qname(None, "z")), "$attr:z");
    assert_eq!(table.match_attribute(&qname(Some("u"), "z")), "$attr:{u}z");
}

#[test]
fn tag_parser_reads_all_forms() {
    let t: TagParts = parse_tag("{urn:foo}foo:bar").unwrap();
    assert_eq!(t.namespace.as_deref(), Some("urn:foo"));
    assert_eq!(t.prefix.as_deref(), Some("foo"));
    assert_eq!(t.local, "bar");

    let t = parse_tag("{urn:foo}bar").unwrap();
    assert_eq!(t.namespace.as_deref(), Some("urn:foo"));
    assert_eq!(t.prefix.as_deref(), None);
    assert_eq!(t.local, "bar");

    let t = parse_tag("foo:bar").unwrap();
    assert_eq!(t.namespace.as_deref(), None);
    assert_eq!(t.prefix.as_deref(), Some("foo"));
    assert_eq!(t.local, "bar");

    let t = parse_tag("bar").unwrap();
    assert_eq!(t.namespace.as_deref(), None);
    assert_eq!(t.prefix.as_deref(), None);
    assert_eq!(t.local, "bar");

    assert!(parse_tag("{unclosed").is_err());
}

#[test]
fn decimal_notation_is_exact() {
    assert_eq!(u64_to_dec(0), "0");
    assert_eq!(u64_to_dec(7), "7");
    assert_eq!(u64_to_dec(10500), "10500");
    assert_eq!(u64_to_dec(u64::MAX), "18446744073709551615");
}
