use vstd::prelude::*;

use xml::attribute::Attribute as XmlAttr;
use xml::name::Name as XmlName;

use crate::error::Error;
use crate::events::{Attribute, Event, Name, NsBinding};

verus! {

#[verifier::external_type_specification]
#[verifier::external_body]
pub struct ExXmlEvent(xml::reader::XmlEvent);

#[verifier::external_type_specification]
#[verifier::external_body]
pub struct ExOwnedName(xml::name::OwnedName);

#[verifier::external_type_specification]
#[verifier::external_body]
pub struct ExOwnedAttribute(xml::attribute::OwnedAttribute);

#[verifier::external_type_specification]
#[verifier::external_body]
pub struct ExNamespace(xml::namespace::Namespace);

#[verifier::external_type_specification]
#[verifier::external_body]
#[verifier::reject_recursive_types(W)]
pub struct ExEventWriter<W>(xml::writer::EventWriter<W>);

/// Relies on the field layout of xml::name::OwnedName: the three parts
/// are moved over one for one.
#[verifier::external_body]
fn conv_name(n: xml::name::OwnedName) -> Name {
    Name { namespace: n.namespace, local: n.local_name, prefix: n.prefix }
}

/// Relies on the field layout of xml::attribute::OwnedAttribute.
#[verifier::external_body]
fn conv_attr(a: xml::attribute::OwnedAttribute) -> Attribute {
    Attribute { name: conv_name(a.name), value: a.value }
}

/// Relies on xml::namespace::Namespace being a map from prefix to URI.
#[verifier::external_body]
fn conv_ns(ns: xml::namespace::Namespace) -> Vec<NsBinding> {
    ns.0.into_iter().map(|(p, u)| NsBinding { prefix: p, uri: u }).collect()
}

/// Relies on the variants of xml::reader::XmlEvent: each is moved over
/// one for one, with the fields the drivers never read left behind.
#[verifier::external_body]
fn conv_event(e: xml::reader::XmlEvent) -> Event {
    match e {
        xml::reader::XmlEvent::StartDocument { .. } => Event::StartDocument,
        xml::reader::XmlEvent::EndDocument => Event::EndDocument,
        xml::reader::XmlEvent::ProcessingInstruction { .. } => Event::ProcessingInstruction,
        xml::reader::XmlEvent::StartElement { name, attributes, namespace } => Event::StartElement {
            name: conv_name(name),
            attributes: attributes.into_iter().map(conv_attr).collect(),
            namespaces: conv_ns(namespace),
        },
        xml::reader::XmlEvent::EndElement { name } => Event::EndElement { name: conv_name(name) },
        xml::reader::XmlEvent::CData(s) => Event::CData(s),
        xml::reader::XmlEvent::Characters(s) => Event::Characters(s),
        xml::reader::XmlEvent::Comment(s) => Event::Comment(s),
        xml::reader::XmlEvent::Whitespace(s) => Event::Whitespace(s),
    }
}

/// The event sequence the pull parser yields for a document, with the
/// configuration below; nothing when the parse fails. The parse is a
/// function of the text alone.
pub uninterp spec fn doc_events_of(input: Seq<char>) -> Option<Seq<crate::events::EventV>>;

/// Relies on xml::reader::EventReader: pull-parses a whole document in
/// namespace-aware mode, with whitespace trimmed, whitespace-only text
/// turned into character events (and so dropped by the trimming), and
/// unknown entity references replaced. The first parse error ends the
/// stream and is reported as `ParserError`.
#[verifier::external_body]
pub(crate) fn parse_document(input: &str) -> (r: Result<Vec<Event>, Error>)
    ensures
        match r {
            Ok(evs) => doc_events_of(input@) == Some(evs@.map_values(|e: Event| e@)),
            Err(e) => doc_events_of(input@) is None && e is ParserError,
        },
{
    let config = xml::ParserConfig::new()
        .trim_whitespace(true)
        .whitespace_to_characters(true)
        .replace_unknown_entity_references(true);
    xml::reader::EventReader::new_with_config(input.as_bytes(), config)
        .into_iter()
        .map(|ev| match ev {
            Ok(e) => Ok(conv_event(e)),
            Err(e) => Err(Error::ParserError(format!("{}", e))),
        })
        .collect()
}

/// The events accepted by a writer so far.
pub uninterp spec fn writer_events(w: xml::writer::EventWriter<Vec<u8>>) -> Seq<
    crate::events::EventV,
>;

/// The six settings a writer was configured with.
pub uninterp spec fn writer_settings(w: xml::writer::EventWriter<Vec<u8>>) -> (
    bool,
    bool,
    bool,
    bool,
    bool,
    Seq<char>,
);

/// The text the pull emitter produces for an event sequence under the
/// given settings: a function of the two alone.
pub uninterp spec fn rendered_text(
    events: Seq<crate::events::EventV>,
    settings: (bool, bool, bool, bool, bool, Seq<char>),
) -> Seq<char>;

/// Relies on xml::EmitterConfig and EventWriter::new_with_config: the
/// six settings are handed through unchanged, onto an in-memory sink
/// that has accepted nothing yet.
#[verifier::external_body]
fn make_writer(
    pretty: bool,
    decl: bool,
    norm_empty: bool,
    cdata_chars: bool,
    pad: bool,
    indent: &str,
) -> (r: xml::writer::EventWriter<Vec<u8>>)
    ensures
        writer_events(r) == Seq::<crate::events::EventV>::empty(),
        writer_settings(r) == (pretty, decl, norm_empty, cdata_chars, pad, indent@),
{
    xml::EmitterConfig::new()
        .perform_indent(pretty)
        .write_document_declaration(decl)
        .normalize_empty_elements(norm_empty)
        .cdata_to_characters(cdata_chars)
        .pad_self_closing(pad)
        .indent_string(indent.to_owned())
        .keep_element_names_stack(false)
        .create_writer(Vec::new())
}

/// Relies on xml::namespace::Namespace being a map from prefix to URI.
#[verifier::external_body]
fn ns_map(ns: &Vec<NsBinding>) -> xml::namespace::Namespace {
    xml::namespace::Namespace(ns.iter().map(|b| (b.prefix.clone(), b.uri.clone())).collect())
}

/// Relies on EventWriter::write for a start element: name, attributes
/// and namespace bindings are borrowed one for one.
#[verifier::external_body]
fn write_start(
    w: &mut xml::writer::EventWriter<Vec<u8>>,
    name: &Name,
    attrs: &Vec<Attribute>,
    ns: &Vec<NsBinding>,
) -> (r: Result<(), Error>)
    ensures
        match r {
            Err(e) => e is EmitterError,
            _ => true,
        },
        r is Ok ==> writer_events(*final(w)) == writer_events(*old(w)).push(crate::events::EventV::StartElement {
            name: name@,
            attributes: attrs@.map_values(|a: Attribute| a@),
            namespaces: ns@.map_values(|n: NsBinding| n@),
        }),
        r is Ok ==> writer_settings(*final(w)) == writer_settings(*old(w)),
{
    let event = xml::writer::XmlEvent::StartElement {
        name: XmlName { local_name: &name.local, namespace: name.namespace.as_deref(), prefix: name.prefix.as_deref() },
        attributes: std::borrow::Cow::Owned(attrs.iter().map(|a| XmlAttr {
            name: XmlName { local_name: &a.name.local, namespace: a.name.namespace.as_deref(), prefix: a.name.prefix.as_deref() },
            value: &a.value,
        }).collect()),
        namespace: std::borrow::Cow::Owned(ns_map(ns)),
    };
    w.write(event).map_err(|e| Error::EmitterError(format!("{}", e)))
}

/// Relies on EventWriter::write for an end element.
#[verifier::external_body]
fn write_end(w: &mut xml::writer::EventWriter<Vec<u8>>, name: &Name) -> (r: Result<(), Error>)
    ensures
        match r {
            Err(e) => e is EmitterError,
            _ => true,
        },
        r is Ok ==> writer_events(*final(w)) == writer_events(*old(w)).push(crate::events::EventV::EndElement { name: name@ }),
        r is Ok ==> writer_settings(*final(w)) == writer_settings(*old(w)),
{
    let event = xml::writer::XmlEvent::EndElement {
        name: Some(XmlName { local_name: &name.local, namespace: name.namespace.as_deref(), prefix: name.prefix.as_deref() }),
    };
    w.write(event).map_err(|e| Error::EmitterError(format!("{}", e)))
}

/// Relies on EventWriter::write for character data, which the emitter
/// escapes as needed.
#[verifier::external_body]
fn write_characters(w: &mut xml::writer::EventWriter<Vec<u8>>, s: &str) -> (r: Result<(), Error>)
    ensures
        match r {
            Err(e) => e is EmitterError,
            _ => true,
        },
        r is Ok ==> writer_events(*final(w)) == writer_events(*old(w)).push(crate::events::EventV::Characters(s@)),
        r is Ok ==> writer_settings(*final(w)) == writer_settings(*old(w)),
{
    w.write(xml::writer::XmlEvent::Characters(s)).map_err(|e| Error::EmitterError(format!("{}", e)))
}

/// Relies on EventWriter::write for a CDATA section.
#[verifier::external_body]
fn write_cdata(w: &mut xml::writer::EventWriter<Vec<u8>>, s: &str) -> (r: Result<(), Error>)
    ensures
        match r {
            Err(e) => e is EmitterError,
            _ => true,
        },
        r is Ok ==> writer_events(*final(w)) == writer_events(*old(w)).push(crate::events::EventV::CData(s@)),
        r is Ok ==> writer_settings(*final(w)) == writer_settings(*old(w)),
{
    w.write(xml::writer::XmlEvent::CData(s)).map_err(|e| Error::EmitterError(format!("{}", e)))
}

/// Relies on EventWriter::write for a comment.
#[verifier::external_body]
fn write_comment(w: &mut xml::writer::EventWriter<Vec<u8>>, s: &str) -> (r: Result<(), Error>)
    ensures
        match r {
            Err(e) => e is EmitterError,
            _ => true,
        },
        r is Ok ==> writer_events(*final(w)) == writer_events(*old(w)).push(crate::events::EventV::Comment(s@)),
        r is Ok ==> writer_settings(*final(w)) == writer_settings(*old(w)),
{
    w.write(xml::writer::XmlEvent::Comment(s)).map_err(|e| Error::EmitterError(format!("{}", e)))
}

/// Relies on EventWriter::into_inner for the bytes written so far; the
/// emitter writes UTF-8, decoded back here. What comes out is the
/// rendering of the accepted events under the writer's settings.
#[verifier::external_body]
fn finish_writer(w: xml::writer::EventWriter<Vec<u8>>) -> (r: String)
    ensures
        r@ == rendered_text(writer_events(w), writer_settings(w)),
{
    String::from_utf8_lossy(&w.into_inner()).into_owned()
}

/// Whether the emitter is handed an event at all: document boundaries
/// and processing instructions carry nothing to write.
pub open spec fn writable(e: crate::events::EventV) -> bool {
    !(e is StartDocument || e is EndDocument || e is ProcessingInstruction)
}

/// The events actually handed to the emitter, in order. Whitespace is
/// written as character data, as the reader's own re-streaming does.
pub open spec fn written_of(s: Seq<crate::events::EventV>) -> Seq<crate::events::EventV>
    decreases s.len(),
{
    if s.len() == 0 {
        Seq::empty()
    } else {
        let front = written_of(s.drop_last());
        if writable(s.last()) {
            front.push(written_form(s.last()))
        } else {
            front
        }
    }
}

/// The form an event is written in: whitespace becomes character data.
pub open spec fn written_form(e: crate::events::EventV) -> crate::events::EventV {
    match e {
        crate::events::EventV::Whitespace(s) => crate::events::EventV::Characters(s),
        _ => e,
    }
}

/// Hands one of the library's events to the pull emitter. Document
/// boundaries and processing instructions carry nothing to write: the
/// emitter's own configuration decides the document declaration.
fn emit_one(w: &mut xml::writer::EventWriter<Vec<u8>>, e: &Event) -> (r: Result<(), Error>)
    ensures
        match r {
            Err(e) => e is EmitterError,
            _ => true,
        },
        r is Ok ==> writer_events(*final(w)) == (if writable(e@) {
            writer_events(*old(w)).push(written_form(e@))
        } else {
            writer_events(*old(w))
        }),
        r is Ok ==> writer_settings(*final(w)) == writer_settings(*old(w)),
{
    match e {
        Event::StartElement { name, attributes, namespaces } => write_start(
            w,
            name,
            attributes,
            namespaces,
        ),
        Event::EndElement { name } => write_end(w, name),
        Event::Characters(s) => write_characters(w, s.as_str()),
        Event::Whitespace(s) => write_characters(w, s.as_str()),
        Event::CData(s) => write_cdata(w, s.as_str()),
        Event::Comment(s) => write_comment(w, s.as_str()),
        Event::StartDocument => Ok(()),
        Event::EndDocument => Ok(()),
        Event::ProcessingInstruction => Ok(()),
    }
}

/// Streams a whole event sequence through the pull emitter with the
/// given settings and returns the text it produced; the first emitter
/// error is returned as `EmitterError`.
pub(crate) fn emit_events(
    events: &Vec<Event>,
    pretty: bool,
    decl: bool,
    norm_empty: bool,
    cdata_chars: bool,
    pad: bool,
    indent: &str,
) -> (r: Result<String, Error>)
    ensures
        match r {
            Err(e) => e is EmitterError,
            _ => true,
        },
        r matches Ok(t) ==> t@ == rendered_text(
            written_of(events@.map_values(|e: Event| e@)),
            (pretty, decl, norm_empty, cdata_chars, pad, indent@),
        ),
{
    let ghost full = events@.map_values(|e: Event| e@);
    let mut w = make_writer(pretty, decl, norm_empty, cdata_chars, pad, indent);
    let mut i: usize = 0;
    while i < events.len()
        invariant
            full == events@.map_values(|e: Event| e@),
            0 <= i <= events@.len(),
            writer_events(w) == written_of(full.take(i as int)),
            writer_settings(w) == (pretty, decl, norm_empty, cdata_chars, pad, indent@),
        decreases events.len() - i,
    {
        match emit_one(&mut w, &events[i]) {
            Ok(()) => {},
            Err(e) => {
                return Err(e);
            },
        }
        proof {
            assert(full.take(i + 1).drop_last() =~= full.take(i as int));
            assert(full.take(i + 1).last() == full[i as int]);
        }
        i = i + 1;
    }
    proof {
        assert(full.take(events@.len() as int) =~= full);
    }
    Ok(finish_writer(w))
}

} // verus!
