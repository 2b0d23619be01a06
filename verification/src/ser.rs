use vstd::prelude::*;

use crate::de::Value;
use crate::error::Error;
use crate::events::{Attribute, Event, Name, NsBinding};
use crate::fields::{dec_of, digit_char, u64_to_dec};
use crate::text::{all_digits, dec_val, digit_val, falsy, is_digit, lower_str, truthy};
use crate::tag::parse_tag;

verus! {

/// Output settings for the pull emitter, mapped one for one onto its
/// configuration.
#[derive(Debug)]
pub struct Options {
    pub pretty: bool,
    pub write_document_declaration: bool,
    pub normalize_empty_elements: bool,
    pub cdata_to_characters: bool,
    pub pad_self_closing: bool,
    pub indent: String,
}

impl Options {
    /// The default wire behavior: a document declaration, no
    /// indentation, empty elements written as `<x/>`.
    pub fn new() -> (r: Options)
        ensures
            !r.pretty,
            r.write_document_declaration,
            r.normalize_empty_elements,
            !r.cdata_to_characters,
            !r.pad_self_closing,
            r.indent@ == "  "@,
    {
        Options {
            pretty: false,
            write_document_declaration: true,
            normalize_empty_elements: true,
            cdata_to_characters: false,
            pad_self_closing: false,
            indent: String::from_str("  "),
        }
    }
}

/// The decimal notation of a signed number.
pub open spec fn dec_of_int(n: int) -> Seq<char> {
    if n >= 0 {
        dec_of(n as nat)
    } else {
        seq!['-'] + dec_of((-n) as nat)
    }
}

/// Writes a signed number in decimal.
pub fn i64_to_dec(v: i64) -> (r: String)
    ensures
        r@ == dec_of_int(v as int),
{
    if v >= 0 {
        u64_to_dec(v as u64)
    } else {
        let m: u64 = if v == i64::MIN {
            9223372036854775808u64
        } else {
            (-v) as u64
        };
        let mut s = String::from_str("-");
        s.append(u64_to_dec(m).as_str());
        proof {
            reveal_strlit("-");
            assert(s@ =~= seq!['-'] + dec_of(m as nat));
        }
        s
    }
}

/// Relies on char::to_string: the one-character string of `c`.
#[verifier::external_body]
fn char_to_string(c: char) -> (r: String)
    ensures
        r@ =~= seq![c],
{
    c.to_string()
}

/// The text a scalar value is spelled as, when it can be: booleans as
/// `true`/`false`, numbers in decimal, text and characters as
/// themselves, a unit variant as its name, a present optional as its
/// content. Structure cannot be spelled as text.
pub open spec fn scalar_text_of(v: Value) -> Option<Seq<char>>
    decreases v,
{
    match v {
        Value::Text(t) => Some(t@),
        Value::Boolean(b) => Some(
            if b {
                "true"@
            } else {
                "false"@
            },
        ),
        Value::Signed(n) => Some(dec_of_int(n as int)),
        Value::Unsigned(n) => Some(dec_of(n as nat)),
        Value::Character(c) => Some(seq![c]),
        Value::Choice(nm, p) => if *p == Value::Unit {
            Some(nm@)
        } else {
            None
        },
        Value::Present(inner) => scalar_text_of(*inner),
        _ => None,
    }
}

/// The text a scalar value contributes to an element or attribute,
/// exactly per `scalar_text_of`.
pub fn value_text(v: &Value) -> (r: Result<String, Error>)
    ensures
        match r {
            Ok(s) => scalar_text_of(*v) == Some(s@),
            Err(e) => scalar_text_of(*v) is None && e is Unsupported,
        },
    decreases *v,
{
    match v {
        Value::Text(t) => Ok(t.clone()),
        Value::Boolean(b) => if *b {
            Ok(String::from_str("true"))
        } else {
            Ok(String::from_str("false"))
        },
        Value::Signed(n) => Ok(i64_to_dec(*n)),
        Value::Unsigned(n) => Ok(u64_to_dec(*n)),
        Value::Character(c) => Ok(char_to_string(*c)),
        Value::Choice(name, payload) => match &**payload {
            Value::Unit => Ok(name.clone()),
            _ => Err(Error::Unsupported),
        },
        Value::Present(inner) => value_text(inner),
        _ => Err(Error::Unsupported),
    }
}

/// A value the encoder spells as element text.
pub open spec fn scalar_value(v: Value) -> bool {
    v is Boolean || v is Signed || v is Unsigned || v is Character || v is Text
}

/// The name a plain element key (no `$attr:` or `$value` marker)
/// parses to; nothing for marked or malformed keys.
pub open spec fn plain_elem_key(key: Seq<char>) -> Option<crate::events::NameV> {
    if !crate::fields::is_attr_decl(key) && !crate::fields::is_value_decl(key) {
        match crate::tag::parse_tag_spec(key) {
            Some(tp) => Some(
                crate::events::NameV { namespace: tp.0, local: tp.2, prefix: tp.1 },
            ),
            None => None,
        }
    } else {
        None
    }
}

/// The namespace bindings a lone element name needs: its own, under
/// its declared prefix or the default.
pub open spec fn binding_of(n: crate::events::NameV) -> Seq<crate::events::NsBindingV> {
    match n.namespace {
        Some(u) => seq![
            crate::events::NsBindingV {
                prefix: match n.prefix {
                    Some(p) => p,
                    None => Seq::empty(),
                },
                uri: u,
            },
        ],
        None => Seq::empty(),
    }
}

/// The events a scalar member emits under an element name: the
/// element, its text (nothing when empty), and its end.
pub open spec fn scalar_events(n: crate::events::NameV, t: Seq<char>) -> Seq<
    crate::events::EventV,
> {
    seq![
        crate::events::EventV::StartElement {
            name: n,
            attributes: Seq::empty(),
            namespaces: binding_of(n),
        },
    ] + (if t.len() > 0 {
        seq![crate::events::EventV::Characters(t)]
    } else {
        Seq::empty()
    }) + seq![crate::events::EventV::EndElement { name: n }]
}

/// One parsed field context on the emitting side: the element or
/// attribute name a value is written under.
struct WriteName {
    name: Name,
    attr: bool,
    value_sink: bool,
    raw_sink: bool,
}

/// Parses a declared key into its write context: `$attr:` marks an
/// attribute, `$value`/`$valueN` a text sink, `$valueRaw` the raw-XML
/// sink, anything else a child element name.
fn parse_write_name(key: &String) -> (r: Result<WriteName, Error>)
    ensures
        (plain_elem_key(key@) is Some) ==> (r matches Ok(wn) && !wn.attr && !wn.value_sink
            && !wn.raw_sink && wn.name@ == plain_elem_key(key@).unwrap()),
{
    let is_attr = crate::fields::starts_with_attr(key.as_str());
    let n = key.as_str().unicode_len();
    let inner = if is_attr {
        key.as_str().substring_char(6, n)
    } else {
        key.as_str()
    };
    let sink = crate::fields::starts_with_value(inner);
    let raw = if sink {
        let m = inner.unicode_len();
        let rest = inner.substring_char(6, m);
        rest.to_owned().eq(&String::from_str("Raw"))
    } else {
        false
    };
    match parse_tag(inner) {
        Ok(t) => Ok(
            WriteName {
                name: Name { namespace: t.namespace, local: t.local, prefix: t.prefix },
                attr: is_attr,
                value_sink: sink,
                raw_sink: raw,
            },
        ),
        Err(e) => Err(e),
    }
}

/// The namespace bindings a start element must carry so that its own
/// name and its attributes' names resolve: one binding per namespaced
/// name, the element's under its declared prefix (or the default).
fn bindings_for(name: &Name, attrs: &Vec<Attribute>) -> (r: Vec<NsBinding>)
    ensures
        attrs@.len() == 0 ==> r@.map_values(|b: NsBinding| b@) == binding_of(name@),
{
    let mut out: Vec<NsBinding> = Vec::new();
    match (&name.namespace, &name.prefix) {
        (Some(u), Some(p)) => out.push(NsBinding { prefix: p.clone(), uri: u.clone() }),
        (Some(u), None) => out.push(NsBinding { prefix: String::new(), uri: u.clone() }),
        _ => {},
    }
    proof {
        assert(out@.map_values(|b: NsBinding| b@) =~= binding_of(name@) || attrs@.len() > 0);
    }
    let mut i: usize = 0;
    while i < attrs.len()
        invariant
            attrs@.len() == 0 ==> out@.map_values(|b: NsBinding| b@) == binding_of(name@),
        decreases attrs.len() - i,
    {
        match (&attrs[i].name.namespace, &attrs[i].name.prefix) {
            (Some(u), Some(p)) => out.push(NsBinding { prefix: p.clone(), uri: u.clone() }),
            _ => {},
        }
        i = i + 1;
    }
    out
}

/// The serializing driver: the events emitted so far.
pub struct Serializer {
    pub output: Vec<Event>,
}

impl Serializer {
    pub fn new() -> (r: Serializer)
        ensures
            r.output@.len() == 0,
    {
        Serializer { output: Vec::new() }
    }

    /// Collects the attributes a record contributes to its enclosing
    /// element: every `$attr:` pair whose value is present, with the
    /// value spelled as text.
    fn collect_attrs(&mut self, pairs: &Vec<(String, Value)>) -> (r: Result<Vec<Attribute>, Error>)
        ensures
            pairs@.len() == 0 ==> (r matches Ok(out) && out@.len() == 0),
            (forall|i: int|
                0 <= i < pairs@.len() ==> !crate::fields::is_attr_decl(
                    (#[trigger] pairs@[i]).0@,
                )) ==> (r matches Ok(out) && out@.len() == 0),
            *final(self) == *old(self),
    {
        let mut out: Vec<Attribute> = Vec::new();
        let mut i: usize = 0;
        while i < pairs.len()
            invariant
                0 <= i <= pairs@.len(),
                pairs@.len() == 0 ==> out@.len() == 0,
                (forall|k: int|
                    0 <= k < pairs@.len() ==> !crate::fields::is_attr_decl(
                        (#[trigger] pairs@[k]).0@,
                    )) ==> out@.len() == 0,
                *self == *old(self),
            decreases pairs.len() - i,
        {
            let key = &pairs[i].0;
            if crate::fields::starts_with_attr(key.as_str()) {
                let skip_absent = match &pairs[i].1 {
                    Value::Absent => true,
                    _ => false,
                };
                if !skip_absent {
                    let wn = match parse_write_name(key) {
                        Ok(wn) => wn,
                        Err(e) => {
                            return Err(e);
                        },
                    };
                    let text = match value_text(&pairs[i].1) {
                        Ok(t) => t,
                        Err(e) => {
                            return Err(e);
                        },
                    };
                    out.push(Attribute { name: wn.name, value: text });
                }
            }
            i = i + 1;
        }
        Ok(out)
    }

    /// Emits the body of a record: its text sinks, raw sinks and child
    /// elements, in declaration order; `$attr:` pairs were already
    /// drained into the enclosing start element.
    fn encode_pairs_body(&mut self, pairs: &Vec<(String, Value)>, fuel: u64) -> (r: Result<
        (),
        Error,
    >)
        requires
            fuel >= 1,
        ensures
            pairs@.len() == 0 ==> (r is Ok && final(self).output == old(self).output),
            ({
                let p0 = pairs@[0];
                (fuel >= 2 && pairs@.len() == 1 && plain_elem_key(p0.0@) is Some && scalar_value(p0.1)) ==> (r is Ok && final(self).output@.map_values(|e: Event| e@) == old(self).output@.map_values(|e: Event| e@) + scalar_events(
                    plain_elem_key(p0.0@).unwrap(),
                    scalar_text_of(p0.1).unwrap(),
                ))
            }),
        decreases fuel, 0int,
    {
        let ghost hyp_one = fuel >= 2 && pairs@.len() == 1 && plain_elem_key(pairs@[0].0@)
            is Some && scalar_value(pairs@[0].1);
        let mut i: usize = 0;
        while i < pairs.len()
            invariant
                fuel >= 1,
                pairs@.len() == 0 ==> self.output == old(self).output,
                hyp_one == (fuel >= 2 && pairs@.len() == 1 && plain_elem_key(pairs@[0].0@)
                    is Some && scalar_value(pairs@[0].1)),
                hyp_one ==> (if i == 0 {
                    self.output == old(self).output
                } else {
                    self.output@.map_values(|e: Event| e@) == old(self).output@.map_values(
                        |e: Event| e@,
                    ) + scalar_events(
                        plain_elem_key(pairs@[0].0@).unwrap(),
                        scalar_text_of(pairs@[0].1).unwrap(),
                    )
                }),
            decreases pairs.len() - i,
        {
            let key = &pairs[i].0;
            if !crate::fields::starts_with_attr(key.as_str()) {
                let wn = match parse_write_name(key) {
                    Ok(wn) => wn,
                    Err(e) => {
                        return Err(e);
                    },
                };
                if wn.raw_sink {
                    match self.encode_raw(&pairs[i].1) {
                        Ok(u) => {},
                        Err(e) => {
                            return Err(e);
                        },
                    }
                } else if wn.value_sink {
                    let skip_absent = match &pairs[i].1 {
                        Value::Absent => true,
                        _ => false,
                    };
                    if !skip_absent {
                        let text = match value_text(&pairs[i].1) {
                            Ok(t) => t,
                            Err(e) => {
                                return Err(e);
                            },
                        };
                        if text.as_str().unicode_len() > 0 {
                            self.output.push(Event::Characters(text));
                        }
                    }
                } else {
                    match self.encode_value(&pairs[i].1, Some(&wn), fuel - 1) {
                        Ok(u) => {},
                        Err(e) => {
                            return Err(e);
                        },
                    }
                }
            }
            i = i + 1;
        }
        Ok(())
    }

    /// Emits pre-serialized raw XML verbatim: the text is parsed and
    /// its element events re-streamed, so namespace declarations stay
    /// correct. Text that is not well-formed XML is written as plain
    /// character data instead.
    fn encode_raw(&mut self, v: &Value) -> (r: Result<(), Error>) {
        let text = match value_text(v) {
            Ok(t) => t,
            Err(e) => {
                return Err(e);
            },
        };
        let events = match crate::xml_io::parse_document(text.as_str()) {
            Ok(ev) => ev,
            Err(e) => {
                if text.as_str().unicode_len() > 0 {
                    self.output.push(Event::Characters(text));
                }
                return Ok(());
            },
        };
        let mut events = events;
        while events.len() > 0
            decreases events@.len(),
        {
            let e = events.remove(0);
            let keep = match &e {
                Event::StartDocument => false,
                Event::EndDocument => false,
                Event::ProcessingInstruction => false,
                Event::Whitespace(_) => false,
                _ => true,
            };
            if keep {
                self.output.push(e);
            }
        }
        Ok(())
    }

    /// Emits one value under the given write context. A scalar becomes
    /// an element holding its text (no text event when the text is
    /// empty); an absent optional emits nothing; sequence members each
    /// reuse the enclosing name; a record opens its element, drains its
    /// attribute pairs into the start event, then writes its body; a
    /// tagged alternative writes its variant element, wrapped in the
    /// field's element when one encloses it.
    fn encode_value(&mut self, v: &Value, ctx: Option<&WriteName>, fuel: u64) -> (r: Result<
        (),
        Error,
    >)
        ensures
            (fuel >= 1 && *v is Absent) ==> (r is Ok && final(self).output == old(self).output),
            (fuel >= 1 && ctx is None && (*v matches Value::Pairs(ps) && ps@.len() == 0)) ==> (r
                is Ok && final(self).output == old(self).output),
            ({
                (fuel >= 1 && scalar_value(*v) && (ctx matches Some(wn) && !wn.attr)) ==> (r is Ok
                    && final(self).output@.map_values(|e: Event| e@) == old(self).output@.map_values(|e: Event| e@) + scalar_events(ctx.unwrap().name@, scalar_text_of(*v).unwrap()))
            }),
            ({
                (fuel >= 2 && ctx is None && (*v matches Value::Pairs(ps) && ps@.len() == 1
                    && plain_elem_key(ps@[0].0@) is Some && scalar_value(ps@[0].1))) ==> (r is Ok
                    && final(self).output@.map_values(|e: Event| e@) == old(self).output@.map_values(|e: Event| e@) + scalar_events(plain_elem_key(v->Pairs_0@[0].0@).unwrap(), scalar_text_of(v->Pairs_0@[0].1).unwrap()))
            }),
        decreases fuel, 1int,
    {
        if fuel == 0 {
            return Err(Error::Custom(String::from_str("value nested too deeply")));
        }
        match v {
            Value::Absent => Ok(()),
            Value::Present(inner) => self.encode_value(inner, ctx, fuel - 1),
            Value::Items(items) => {
                let mut i: usize = 0;
                while i < items.len()
                    invariant
                        fuel >= 1,
                        *v is Items,
                    decreases items.len() - i,
                {
                    match self.encode_value(&items[i], ctx, fuel - 1) {
                        Ok(u) => {},
                        Err(e) => {
                            return Err(e);
                        },
                    }
                    i = i + 1;
                }
                Ok(())
            },
            Value::Pairs(pairs) => {
                let attrs = match self.collect_attrs(pairs) {
                    Ok(a) => a,
                    Err(e) => {
                        return Err(e);
                    },
                };
                match ctx {
                    Some(wn) => {
                        let ns = bindings_for(&wn.name, &attrs);
                        self.output.push(
                            Event::StartElement {
                                name: wn.name.dup(),
                                attributes: attrs,
                                namespaces: ns,
                            },
                        );
                        match self.encode_pairs_body(pairs, fuel) {
                            Ok(u) => {},
                            Err(e) => {
                                return Err(e);
                            },
                        }
                        self.output.push(Event::EndElement { name: wn.name.dup() });
                        Ok(())
                    },
                    None => {
                        if attrs.len() > 0 {
                            return Err(Error::Custom(
                                String::from_str("attribute field outside an element"),
                            ));
                        }
                        self.encode_pairs_body(pairs, fuel)
                    },
                }
            },
            Value::Choice(vname, payload) => {
                let vn = match parse_write_name(vname) {
                    Ok(wn) => wn,
                    Err(e) => {
                        return Err(e);
                    },
                };
                match ctx {
                    Some(wn) => {
                        let ns = bindings_for(&wn.name, &Vec::new());
                        self.output.push(
                            Event::StartElement {
                                name: wn.name.dup(),
                                attributes: Vec::new(),
                                namespaces: ns,
                            },
                        );
                        match self.encode_variant(&vn, payload, fuel) {
                            Ok(u) => {},
                            Err(e) => {
                                return Err(e);
                            },
                        }
                        self.output.push(Event::EndElement { name: wn.name.dup() });
                        Ok(())
                    },
                    None => self.encode_variant(&vn, payload, fuel),
                }
            },
            Value::Unit => match ctx {
                Some(wn) => {
                    let ns = bindings_for(&wn.name, &Vec::new());
                    self.output.push(
                        Event::StartElement {
                            name: wn.name.dup(),
                            attributes: Vec::new(),
                            namespaces: ns,
                        },
                    );
                    self.output.push(Event::EndElement { name: wn.name.dup() });
                    Ok(())
                },
                None => Ok(()),
            },
            _ => {
                let ghost base = old(self).output@.map_values(|e: Event| e@);
                let text = match value_text(v) {
                    Ok(t) => t,
                    Err(e) => {
                        return Err(e);
                    },
                };
                match ctx {
                    Some(wn) => {
                        let empty_attrs: Vec<Attribute> = Vec::new();
                        let ns = bindings_for(&wn.name, &empty_attrs);
                        proof {
                            assert(empty_attrs@.map_values(|a: Attribute| a@)
                                =~= Seq::<crate::events::AttributeV>::empty());
                        }
                        self.output.push(
                            Event::StartElement {
                                name: wn.name.dup(),
                                attributes: empty_attrs,
                                namespaces: ns,
                            },
                        );
                        proof {
                            if scalar_value(*v) {
                                assert(self.output@.map_values(|e: Event| e@) =~= base.push(
                                    crate::events::EventV::StartElement {
                                        name: wn.name@,
                                        attributes: Seq::empty(),
                                        namespaces: binding_of(wn.name@),
                                    },
                                ));
                            }
                        }
                        if text.as_str().unicode_len() > 0 {
                            self.output.push(Event::Characters(text));
                        }
                        let ghost mid = self.output@.map_values(|e: Event| e@);
                        self.output.push(Event::EndElement { name: wn.name.dup() });
                        proof {
                            if scalar_value(*v) {
                                assert(self.output@.map_values(|e: Event| e@) =~= mid.push(
                                    crate::events::EventV::EndElement { name: wn.name@ },
                                ));
                                if scalar_text_of(*v).unwrap().len() > 0 {
                                    assert(mid =~= base.push(
                                        crate::events::EventV::StartElement {
                                            name: wn.name@,
                                            attributes: Seq::empty(),
                                            namespaces: binding_of(wn.name@),
                                        },
                                    ).push(
                                        crate::events::EventV::Characters(
                                            scalar_text_of(*v).unwrap(),
                                        ),
                                    ));
                                }
                                assert(self.output@.map_values(|e: Event| e@) =~= base
                                    + scalar_events(wn.name@, scalar_text_of(*v).unwrap()));
                            }
                        }
                        Ok(())
                    },
                    None => {
                        if text.as_str().unicode_len() > 0 {
                            self.output.push(Event::Characters(text));
                        }
                        Ok(())
                    },
                }
            },
        }
    }

    /// Emits one variant: a unit variant as an empty element named by
    /// the variant, any other payload under the variant's element.
    fn encode_variant(&mut self, vn: &WriteName, payload: &Value, fuel: u64) -> (r: Result<
        (),
        Error,
    >)
        requires
            fuel >= 1,
        decreases fuel, 0int,
    {
        let is_unit = match payload {
            Value::Unit => true,
            _ => false,
        };
        if is_unit {
            let ns = bindings_for(&vn.name, &Vec::new());
            self.output.push(
                Event::StartElement {
                    name: vn.name.dup(),
                    attributes: Vec::new(),
                    namespaces: ns,
                },
            );
            self.output.push(Event::EndElement { name: vn.name.dup() });
            Ok(())
        } else {
            self.encode_value(payload, Some(vn), fuel - 1)
        }
    }
}

/// Walks a value through the serializing driver and returns the event
/// stream it emits. A value that emits nothing (an absent optional, a
/// record of no fields) yields the empty stream.
pub fn to_events(value: &Value) -> (r: Result<Vec<Event>, Error>)
    ensures
        (*value is Absent || (*value matches Value::Pairs(ps) && ps@.len() == 0)) ==> (r matches Ok(evs) && evs@.len() == 0),
        ({
            (*value matches Value::Pairs(ps) && ps@.len() == 1 && plain_elem_key(ps@[0].0@)
                is Some && scalar_value(ps@[0].1)) ==> (r matches Ok(evs) && evs@.map_values(
                |e: Event| e@,
            ) == scalar_events(
                plain_elem_key(value->Pairs_0@[0].0@).unwrap(),
                scalar_text_of(value->Pairs_0@[0].1).unwrap(),
            ))
        }),
{
    to_events_custom(value, &Options::new())
}

/// As `to_events`; the options only affect the textual rendering, so
/// they are accepted for symmetry with `to_string_custom`.
pub fn to_events_custom(value: &Value, options: &Options) -> (r: Result<Vec<Event>, Error>)
    ensures
        (*value is Absent || (*value matches Value::Pairs(ps) && ps@.len() == 0)) ==> (r matches Ok(evs) && evs@.len() == 0),
        ({
            (*value matches Value::Pairs(ps) && ps@.len() == 1 && plain_elem_key(ps@[0].0@)
                is Some && scalar_value(ps@[0].1)) ==> (r matches Ok(evs) && evs@.map_values(
                |e: Event| e@,
            ) == scalar_events(
                plain_elem_key(value->Pairs_0@[0].0@).unwrap(),
                scalar_text_of(value->Pairs_0@[0].1).unwrap(),
            ))
        }),
{
    let mut ser = Serializer::new();
    match ser.encode_value(value, None, u64::MAX) {
        Ok(u) => {
            proof {
                assert(Seq::<crate::events::EventV>::empty() + scalar_events(
                    plain_elem_key(
                        match *value {
                            Value::Pairs(ps) => ps@[0].0@,
                            _ => Seq::empty(),
                        },
                    ).unwrap(),
                    scalar_text_of(
                        match *value {
                            Value::Pairs(ps) => ps@[0].1,
                            _ => Value::Unit,
                        },
                    ).unwrap(),
                ) =~= scalar_events(
                    plain_elem_key(
                        match *value {
                            Value::Pairs(ps) => ps@[0].0@,
                            _ => Seq::empty(),
                        },
                    ).unwrap(),
                    scalar_text_of(
                        match *value {
                            Value::Pairs(ps) => ps@[0].1,
                            _ => Value::Unit,
                        },
                    ).unwrap(),
                ));
            }
            Ok(ser.output)
        },
        Err(e) => Err(e),
    }
}

/// The emitter settings an options record stands for.
pub open spec fn settings_of(o: Options) -> (bool, bool, bool, bool, bool, Seq<char>) {
    (
        o.pretty,
        o.write_document_declaration,
        o.normalize_empty_elements,
        o.cdata_to_characters,
        o.pad_self_closing,
        o.indent@,
    )
}

/// Emits a value as XML text with the default options: a document
/// declaration, no indentation, empty elements normalized.
pub fn to_string(value: &Value) -> (r: Result<String, Error>)
    ensures
        (*value is Absent || (*value matches Value::Pairs(ps) && ps@.len() == 0)) ==> (r matches Ok(s) ==> s@ == crate::xml_io::rendered_text(
            Seq::<crate::events::EventV>::empty(),
            (false, true, true, false, false, "  "@),
        )),
        ({
            (*value matches Value::Pairs(ps) && ps@.len() == 1 && plain_elem_key(ps@[0].0@)
                is Some && scalar_value(ps@[0].1)) ==> (r matches Ok(s) ==> s@
                == crate::xml_io::rendered_text(
                crate::xml_io::written_of(
                    scalar_events(
                        plain_elem_key(value->Pairs_0@[0].0@).unwrap(),
                        scalar_text_of(value->Pairs_0@[0].1).unwrap(),
                    ),
                ),
                (false, true, true, false, false, "  "@),
            ))
        }),
{
    to_string_custom(value, &Options::new())
}

/// Emits a value as XML text with the given options: the text is the
/// pull emitter's rendering, under these options, of the events the
/// value encodes to.
pub fn to_string_custom(value: &Value, options: &Options) -> (r: Result<String, Error>)
    ensures
        (*value is Absent || (*value matches Value::Pairs(ps) && ps@.len() == 0)) ==> (r matches Ok(s) ==> s@ == crate::xml_io::rendered_text(
            Seq::<crate::events::EventV>::empty(),
            settings_of(*options),
        )),
        ({
            (*value matches Value::Pairs(ps) && ps@.len() == 1 && plain_elem_key(ps@[0].0@)
                is Some && scalar_value(ps@[0].1)) ==> (r matches Ok(s) ==> s@
                == crate::xml_io::rendered_text(
                crate::xml_io::written_of(
                    scalar_events(
                        plain_elem_key(value->Pairs_0@[0].0@).unwrap(),
                        scalar_text_of(value->Pairs_0@[0].1).unwrap(),
                    ),
                ),
                settings_of(*options),
            ))
        }),
{
    let events = match to_events_custom(value, options) {
        Ok(ev) => ev,
        Err(e) => {
            return Err(e);
        },
    };
    let out = crate::xml_io::emit_events(
        &events,
        options.pretty,
        options.write_document_declaration,
        options.normalize_empty_elements,
        options.cdata_to_characters,
        options.pad_self_closing,
        options.indent.as_str(),
    );
    proof {
        if events@.len() == 0 {
            assert(crate::xml_io::written_of(events@.map_values(|e: Event| e@))
                =~= Seq::<crate::events::EventV>::empty());
        }
    }
    out
}

/// Round-trip law, numeric half: the decimal notation the encoder
/// writes for a number is well-formed digit text, and the decoder's
/// digit reader maps it back to the same number.
pub proof fn lemma_decimal_round_trip(n: nat)
    ensures
        dec_of(n).len() >= 1,
        all_digits(dec_of(n)),
        dec_val(dec_of(n)) == n,
    decreases n,
{
    if n < 10 {
        assert(is_digit(digit_char(n)));
        assert(dec_of(n) == seq![digit_char(n)]);
        assert(dec_of(n).drop_last() =~= Seq::<char>::empty());
        assert(dec_of(n).last() == digit_char(n));
        assert(dec_val(Seq::<char>::empty()) == 0);
        assert(dec_val(dec_of(n)) == dec_val(dec_of(n).drop_last()) * 10 + digit_val(
            dec_of(n).last(),
        ));
        assert(dec_val(dec_of(n)) == digit_val(digit_char(n)));
        assert(digit_val(digit_char(n)) == n);
    } else {
        lemma_decimal_round_trip(n / 10);
        let d = dec_of(n / 10);
        assert(dec_of(n) == d.push(digit_char(n % 10)));
        assert(dec_of(n).drop_last() =~= d);
        assert(dec_of(n).last() == digit_char(n % 10));
        assert(forall|i: int| 0 <= i < dec_of(n).len() ==> is_digit(dec_of(n)[i])) by {
            assert(forall|i: int| 0 <= i < d.len() ==> is_digit(#[trigger] d[i]));
            assert(is_digit(digit_char(n % 10)));
        }
        assert(digit_val(digit_char(n % 10)) == n % 10);
        assert(dec_val(dec_of(n)) == dec_val(d) * 10 + n % 10);
        assert((n / 10) * 10 + n % 10 == n) by (nonlinear_arith);
    }
}

/// Round-trip law, boolean half: the tokens the encoder writes for the
/// two booleans are read back as exactly those booleans.
pub proof fn lemma_boolean_text_round_trip()
    ensures
        truthy("true"@) && !falsy("true"@),
        falsy("false"@) && !truthy("false"@),
{
    reveal_strlit("true");
    reveal_strlit("false");
    reveal_strlit("1");
    reveal_strlit("y");
    reveal_strlit("0");
    reveal_strlit("n");
    assert(lower_str("true"@) =~= "true"@);
    assert(lower_str("false"@) =~= "false"@);
}

} // verus!
