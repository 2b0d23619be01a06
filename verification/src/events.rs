use vstd::prelude::*;

verus! {

/// Mathematical image of a qualified name: namespace URI, local part and
/// serialization prefix, each as a sequence of characters.
pub struct NameV {
    pub namespace: Option<Seq<char>>,
    pub local: Seq<char>,
    pub prefix: Option<Seq<char>>,
}

impl NameV {
    /// The part of a name that decides equality of qualified names:
    /// the prefix is only a serialization hint and is ignored.
    pub open spec fn qkey(self) -> (Option<Seq<char>>, Seq<char>) {
        (self.namespace, self.local)
    }
}

/// A qualified XML name. Two names denote the same element or attribute
/// name when namespace and local part agree; the prefix never matters.
#[derive(Debug, PartialEq)]
pub struct Name {
    pub namespace: Option<String>,
    pub local: String,
    pub prefix: Option<String>,
}

pub open spec fn opt_str_view(o: Option<String>) -> Option<Seq<char>> {
    match o {
        Some(s) => Some(s@),
        None => None,
    }
}

impl View for Name {
    type V = NameV;

    open spec fn view(&self) -> NameV {
        NameV {
            namespace: opt_str_view(self.namespace),
            local: self.local@,
            prefix: opt_str_view(self.prefix),
        }
    }
}

/// Mathematical image of an attribute.
pub struct AttributeV {
    pub name: NameV,
    pub value: Seq<char>,
}

/// An attribute of a start-element event.
#[derive(Debug, PartialEq)]
pub struct Attribute {
    pub name: Name,
    pub value: String,
}

impl View for Attribute {
    type V = AttributeV;

    open spec fn view(&self) -> AttributeV {
        AttributeV { name: self.name@, value: self.value@ }
    }
}

/// Mathematical image of one namespace binding.
pub struct NsBindingV {
    pub prefix: Seq<char>,
    pub uri: Seq<char>,
}

/// One namespace binding in scope at a start-element event: the empty
/// prefix stands for the default namespace.
#[derive(Debug, PartialEq)]
pub struct NsBinding {
    pub prefix: String,
    pub uri: String,
}

impl View for NsBinding {
    type V = NsBindingV;

    open spec fn view(&self) -> NsBindingV {
        NsBindingV { prefix: self.prefix@, uri: self.uri@ }
    }
}

/// Mathematical image of an XML pull event.
pub enum EventV {
    StartDocument,
    StartElement { name: NameV, attributes: Seq<AttributeV>, namespaces: Seq<NsBindingV> },
    EndElement { name: NameV },
    Characters(Seq<char>),
    CData(Seq<char>),
    Comment(Seq<char>),
    Whitespace(Seq<char>),
    ProcessingInstruction,
    EndDocument,
}

/// One event of the XML pull stream, with all the data the drivers read.
#[derive(Debug, PartialEq)]
pub enum Event {
    StartDocument,
    StartElement { name: Name, attributes: Vec<Attribute>, namespaces: Vec<NsBinding> },
    EndElement { name: Name },
    Characters(String),
    CData(String),
    Comment(String),
    Whitespace(String),
    ProcessingInstruction,
    EndDocument,
}

impl View for Event {
    type V = EventV;

    open spec fn view(&self) -> EventV {
        match self {
            Event::StartDocument => EventV::StartDocument,
            Event::StartElement { name, attributes, namespaces } => EventV::StartElement {
                name: name@,
                attributes: attributes@.map_values(|a: Attribute| a@),
                namespaces: namespaces@.map_values(|n: NsBinding| n@),
            },
            Event::EndElement { name } => EventV::EndElement { name: name@ },
            Event::Characters(s) => EventV::Characters(s@),
            Event::CData(s) => EventV::CData(s@),
            Event::Comment(s) => EventV::Comment(s@),
            Event::Whitespace(s) => EventV::Whitespace(s@),
            Event::ProcessingInstruction => EventV::ProcessingInstruction,
            Event::EndDocument => EventV::EndDocument,
        }
    }
}

/// How one consumed event changes the element depth.
pub open spec fn depth_delta(e: EventV) -> int {
    match e {
        EventV::StartElement { .. } => 1,
        EventV::EndElement { .. } => -1,
        _ => 0,
    }
}

pub fn clone_opt_string(o: &Option<String>) -> (r: Option<String>)
    ensures
        opt_str_view(r) == opt_str_view(*o),
{
    match o {
        Some(s) => Some(s.clone()),
        None => None,
    }
}

impl Name {
    /// A structural copy: the copy has the same view as the original.
    pub fn dup(&self) -> (r: Name)
        ensures
            r@ == self@,
    {
        Name {
            namespace: clone_opt_string(&self.namespace),
            local: self.local.clone(),
            prefix: clone_opt_string(&self.prefix),
        }
    }
}

impl Attribute {
    /// A structural copy with the same view.
    pub fn dup(&self) -> (r: Attribute)
        ensures
            r@ == self@,
    {
        Attribute { name: self.name.dup(), value: self.value.clone() }
    }
}

impl NsBinding {
    /// A structural copy with the same view.
    pub fn dup(&self) -> (r: NsBinding)
        ensures
            r@ == self@,
    {
        NsBinding { prefix: self.prefix.clone(), uri: self.uri.clone() }
    }
}

pub fn dup_attributes(attrs: &Vec<Attribute>) -> (r: Vec<Attribute>)
    ensures
        r@.map_values(|a: Attribute| a@) == attrs@.map_values(|a: Attribute| a@),
{
    let mut out: Vec<Attribute> = Vec::new();
    let mut i: usize = 0;
    while i < attrs.len()
        invariant
            0 <= i <= attrs.len(),
            out@.len() == i as int,
            forall|k: int| 0 <= k < i ==> (#[trigger] out@[k])@ == attrs@[k]@,
        decreases attrs.len() - i,
    {
        out.push(attrs[i].dup());
        i = i + 1;
    }
    proof {
        assert(out@.map_values(|a: Attribute| a@) =~= attrs@.map_values(|a: Attribute| a@));
    }
    out
}

pub fn dup_namespaces(ns: &Vec<NsBinding>) -> (r: Vec<NsBinding>)
    ensures
        r@.map_values(|n: NsBinding| n@) == ns@.map_values(|n: NsBinding| n@),
{
    let mut out: Vec<NsBinding> = Vec::new();
    let mut i: usize = 0;
    while i < ns.len()
        invariant
            0 <= i <= ns.len(),
            out@.len() == i as int,
            forall|k: int| 0 <= k < i ==> (#[trigger] out@[k])@ == ns@[k]@,
        decreases ns.len() - i,
    {
        out.push(ns[i].dup());
        i = i + 1;
    }
    proof {
        assert(out@.map_values(|n: NsBinding| n@) =~= ns@.map_values(|n: NsBinding| n@));
    }
    out
}

impl Event {
    /// A structural copy with the same view.
    pub fn dup(&self) -> (r: Event)
        ensures
            r@ == self@,
    {
        match self {
            Event::StartDocument => Event::StartDocument,
            Event::StartElement { name, attributes, namespaces } => Event::StartElement {
                name: name.dup(),
                attributes: dup_attributes(attributes),
                namespaces: dup_namespaces(namespaces),
            },
            Event::EndElement { name } => Event::EndElement { name: name.dup() },
            Event::Characters(s) => Event::Characters(s.clone()),
            Event::CData(s) => Event::CData(s.clone()),
            Event::Comment(s) => Event::Comment(s.clone()),
            Event::Whitespace(s) => Event::Whitespace(s.clone()),
            Event::ProcessingInstruction => Event::ProcessingInstruction,
            Event::EndDocument => Event::EndDocument,
        }
    }
}

/// True iff the two names denote the same qualified name (prefix ignored).
pub fn qname_eq(a: &Name, b: &Name) -> (r: bool)
    ensures
        r == (a@.qkey() == b@.qkey()),
{
    let ns_eq = match (&a.namespace, &b.namespace) {
        (Some(x), Some(y)) => x.eq(y),
        (None, None) => true,
        _ => false,
    };
    ns_eq && a.local.eq(&b.local)
}

} // verus!
