use vstd::prelude::*;

use crate::cursor::Cursor;
use crate::error::Error;
use crate::events::{depth_delta, qname_eq, Event, EventV, Name};
use crate::fields::{cache_wf, cache_view, FieldTable, FieldTableCache};

verus! {

/// The shape of a value, as the data-description layer declares it:
/// scalars, optional values, sequences, records with named (and
/// namespaced) fields, tagged alternatives, and the dynamic shape that
/// lets the document decide.
#[derive(Debug)]
pub enum Shape {
    Boolean,
    Int8,
    Int16,
    Int32,
    Int64,
    UInt8,
    UInt16,
    UInt32,
    UInt64,
    Character,
    Text,
    Bytes,
    Optional(Box<Shape>),
    Unit,
    Newtype(Box<Shape>),
    Sequence(Box<Shape>),
    Tuple(Vec<Shape>),
    Mapping(Box<Shape>),
    Record { fields: Vec<String>, shapes: Vec<Shape> },
    Choice { variants: Vec<String>, payloads: Vec<Shape> },
    Dynamic,
    Ignored,
}

/// A materialized value: what a decode returns and an encode consumes.
/// Record and map contents are the key/value pairs in the order the
/// driver produced them; every key is the declared, sink or synthetic
/// name the field table handed out.
#[derive(Debug, PartialEq)]
pub enum Value {
    Boolean(bool),
    Signed(i64),
    Unsigned(u64),
    Character(char),
    Text(String),
    Absent,
    Present(Box<Value>),
    Unit,
    Items(Vec<Value>),
    Pairs(Vec<(String, Value)>),
    Choice(String, Box<Value>),
}

/// Whether a shape contains no optional component. An absent optional
/// at certain positions consumes the closing tag of its enclosing
/// element, so depth conservation is stated for option-free shapes.
pub open spec fn option_free(s: Shape) -> bool
    decreases s,
{
    match s {
        Shape::Optional(_) => false,
        Shape::Newtype(b) => option_free(*b),
        Shape::Sequence(b) => option_free(*b),
        Shape::Mapping(b) => option_free(*b),
        Shape::Tuple(v) => option_free_all(v@, v@.len() as int),
        Shape::Record { fields, shapes } => option_free_all(shapes@, shapes@.len() as int),
        Shape::Choice { variants, payloads } => option_free_all(payloads@, payloads@.len() as int),
        _ => true,
    }
}

pub open spec fn option_free_all(s: Seq<Shape>, i: int) -> bool
    decreases s, i,
{
    if 0 < i <= s.len() {
        option_free_all(s, i - 1) && option_free(s[i - 1])
    } else {
        true
    }
}

proof fn lemma_option_free_at(s: Seq<Shape>, i: int, k: int)
    requires
        option_free_all(s, i),
        0 <= k < i <= s.len(),
    ensures
        option_free(s[k]),
    decreases i,
{
    if k < i - 1 {
        lemma_option_free_at(s, i - 1, k);
    }
}

/// The deserializing driver: the event cursor, the four role flags set
/// by a caller and consumed once by the callee, and the interning cache
/// for field tables.
pub struct Deserializer {
    pub cursor: Cursor,
    pub is_map_value: bool,
    pub is_seq_value: bool,
    pub is_value: bool,
    pub is_greedy: bool,
    pub cache: FieldTableCache,
}

impl Deserializer {
    pub open spec fn wf(self) -> bool {
        &&& self.cursor.wf()
        &&& cache_wf(cache_view(self.cache))
    }

    /// The unconsumed events.
    pub open spec fn remaining(self) -> Seq<EventV> {
        self.cursor.remaining()
    }

    /// Builds a driver over the given events with all flags at their
    /// initial values: greedy skipping on, every other flag off.
    pub fn new(events: Vec<Event>, drop_whitespace: bool) -> (r: Deserializer)
        ensures
            r.wf(),
            r.remaining() == crate::cursor::filtered(
                events@.map_values(|e: Event| e@),
                drop_whitespace,
            ),
            r.cursor.depth == 0,
            r.cursor.peek_pos == 0,
            r.cursor.reset_peek_offset == 0,
            !r.is_map_value && !r.is_seq_value && !r.is_value && r.is_greedy,
    {
        Deserializer {
            cursor: Cursor::new(events, drop_whitespace),
            is_map_value: false,
            is_seq_value: false,
            is_value: false,
            is_greedy: true,
            cache: FieldTableCache::new(),
        }
    }

    fn set_map_value(&mut self)
        ensures
            *final(self) == (Deserializer { is_map_value: true, ..*old(self) }),
    {
        self.is_map_value = true;
    }

    /// Reads and clears the map-value flag; the value flag falls with
    /// it, since entering a wrapped value leaves the sink context.
    pub fn unset_map_value(&mut self) -> (r: bool)
        ensures
            *final(self) == (Deserializer { is_map_value: false, is_value: false, ..*old(self) }),
            r == old(self).is_map_value,
    {
        self.is_value = false;
        let r = self.is_map_value;
        self.is_map_value = false;
        r
    }

    fn set_seq_value(&mut self)
        ensures
            *final(self) == (Deserializer { is_seq_value: true, ..*old(self) }),
    {
        self.is_seq_value = true;
    }

    /// Reads and clears the sequence-element flag.
    pub fn unset_seq_value(&mut self) -> (r: bool)
        ensures
            *final(self) == (Deserializer { is_seq_value: false, ..*old(self) }),
            r == old(self).is_seq_value,
    {
        let r = self.is_seq_value;
        self.is_seq_value = false;
        r
    }

    fn set_is_value(&mut self)
        ensures
            *final(self) == (Deserializer { is_value: true, ..*old(self) }),
    {
        self.is_value = true;
    }

    /// Reads and clears the value-sink flag.
    pub fn unset_is_value(&mut self) -> (r: bool)
        ensures
            *final(self) == (Deserializer { is_value: false, ..*old(self) }),
            r == old(self).is_value,
    {
        let r = self.is_value;
        self.is_value = false;
        r
    }

    fn set_not_greedy(&mut self)
        ensures
            *final(self) == (Deserializer { is_greedy: false, ..*old(self) }),
    {
        self.is_greedy = false;
    }

    /// Restores greedy skipping and forgets the stacked lookahead
    /// offset; returns whether skipping was greedy before.
    pub fn unset_not_greedy(&mut self) -> (r: bool)
        ensures
            *final(self) == (Deserializer {
                is_greedy: true,
                cursor: (Cursor { reset_peek_offset: 0, ..old(self).cursor }),
                ..*old(self)
            }),
            r == old(self).is_greedy,
    {
        self.cursor.reset_peek_offset = 0;
        let r = self.is_greedy;
        self.is_greedy = true;
        r
    }
}

/// The element-depth change over the first `i` events of `s`.
pub open spec fn delta_sum(s: Seq<EventV>, i: int) -> int
    decreases i,
{
    if 0 < i <= s.len() {
        delta_sum(s, i - 1) + depth_delta(s[i - 1])
    } else {
        0
    }
}

/// `k` is the length of the subtree at the front of `s`: the shortest
/// nonempty prefix over which the depth change nets to zero.
pub open spec fn is_skip_len(s: Seq<EventV>, k: int) -> bool {
    &&& 1 <= k <= s.len()
    &&& delta_sum(s, k) == 0
    &&& forall|j: int| 1 <= j < k ==> delta_sum(s, j) != 0
}

/// No prefix of the first `k` events of `s` closes more elements than
/// `d0` plus the elements the prefix itself opened.
pub open spec fn skip_stays_nonneg(s: Seq<EventV>, d0: int, k: int) -> bool {
    forall|j: int| 1 <= j <= k ==> d0 + delta_sum(s, j) >= 0
}

/// The canonical wrapped-scalar situation the dynamic shape can meet:
/// a map value (not a sequence element) whose peeked element holds one
/// run of character data, with a fresh lookahead window.
pub open spec fn any_scalar_shape(d: Deserializer, r0: Seq<EventV>) -> bool {
    &&& d.is_map_value
    &&& !d.is_seq_value
    &&& d.cursor.peek_pos == 0
    &&& d.cursor.reset_peek_offset == 0
    &&& r0.len() >= 3
    &&& start_name(r0[0]) is Some
    &&& text_of(r0[1]) is Some
    &&& is_end_matching(r0[2], start_name(r0[0]).unwrap())
}

/// The attributes of a start-element event.
pub open spec fn start_attrs(e: EventV) -> Option<Seq<crate::events::AttributeV>> {
    match e {
        EventV::StartElement { attributes, .. } => Some(attributes),
        _ => None,
    }
}

/// The text carried by a character-data or CDATA event.
pub open spec fn text_of(e: EventV) -> Option<Seq<char>> {
    match e {
        EventV::Characters(t) => Some(t),
        EventV::CData(t) => Some(t),
        _ => None,
    }
}

/// The name of a start-element event.
pub open spec fn start_name(e: EventV) -> Option<crate::events::NameV> {
    match e {
        EventV::StartElement { name, .. } => Some(name),
        _ => None,
    }
}

/// Whether `e` is the end element closing an element named `n`.
pub open spec fn is_end_matching(e: EventV, n: crate::events::NameV) -> bool {
    match e {
        EventV::EndElement { name } => name.qkey() == n.qkey(),
        _ => false,
    }
}

impl Deserializer {
    /// Consumes the end element that closes `expected`; anything else,
    /// or an end element of another name, is `ExpectedElement`.
    fn expect_end_element(&mut self, expected: &Name) -> (r: Result<(), Error>)
        requires
            old(self).wf(),
        ensures
            final(self).wf(),
            final(self).is_map_value == old(self).is_map_value,
            final(self).is_seq_value == old(self).is_seq_value,
            final(self).is_value == old(self).is_value,
            final(self).is_greedy == old(self).is_greedy,
            final(self).cache == old(self).cache,
            final(self).cursor.reset_peek_offset == old(self).cursor.reset_peek_offset,
            match r {
                Ok(u) => {
                    &&& old(self).remaining().len() >= 1
                    &&& is_end_matching(old(self).remaining()[0], expected@)
                    &&& final(self).remaining() == old(self).remaining().drop_first()
                    &&& old(self).cursor.depth >= 1
                    &&& final(self).cursor.depth == old(self).cursor.depth - 1
                    &&& final(self).cursor.peek_pos == 0
                },
                Err(e) => e is ExpectedElement,
            },
            (old(self).remaining().len() >= 1 && is_end_matching(
                old(self).remaining()[0],
                expected@,
            ) && old(self).cursor.depth >= 1) ==> r is Ok,
    {
        match self.cursor.next() {
            Ok(e) => match e {
                Event::EndElement { name } => {
                    if qname_eq(&name, expected) {
                        Ok(())
                    } else {
                        Err(Error::ExpectedElement)
                    }
                },
                _ => Err(Error::ExpectedElement),
            },
            Err(e) => Err(e),
        }
    }

    /// Skips the subtree ahead of the cursor: greedily by consuming
    /// exactly the front subtree (the shortest nonempty prefix whose
    /// depth change nets to zero), or non-greedily by advancing only
    /// the lookahead pointer and the stacked offset over that same
    /// prefix of the peeked window, consuming nothing.
    fn step_over(&mut self) -> (r: Result<(), Error>)
        requires
            old(self).wf(),
        ensures
            final(self).wf(),
            final(self).is_map_value == old(self).is_map_value,
            final(self).is_seq_value == old(self).is_seq_value,
            final(self).is_value == old(self).is_value,
            final(self).is_greedy == old(self).is_greedy,
            final(self).cache == old(self).cache,
            match r {
                Ok(u) => if old(self).is_greedy {
                    &&& exists|k: int|
                        is_skip_len(old(self).remaining(), k) && final(self).remaining() == old(self).remaining().skip(k)
                    &&& final(self).cursor.depth == old(self).cursor.depth
                    &&& final(self).cursor.reset_peek_offset == old(self).cursor.reset_peek_offset
                } else {
                    &&& final(self).remaining() == old(self).remaining()
                    &&& final(self).cursor.depth == old(self).cursor.depth
                    &&& exists|k: int|
                        is_skip_len(
                            old(self).remaining().skip(old(self).cursor.peek_pos as int),
                            k,
                        ) && final(self).cursor.peek_pos == old(self).cursor.peek_pos + k && final(self).cursor.reset_peek_offset == old(self).cursor.reset_peek_offset + k
                },
                Err(e) => true,
            },
            (old(self).is_greedy && exists|k: int|
                is_skip_len(old(self).remaining(), k) && skip_stays_nonneg(
                    old(self).remaining(),
                    old(self).cursor.depth as int,
                    k,
                )) ==> r is Ok,
            (!old(self).is_greedy && exists|k: int|
                is_skip_len(old(self).remaining().skip(old(self).cursor.peek_pos as int), k)
                    && old(self).cursor.reset_peek_offset + k <= usize::MAX) ==> r is Ok,
    {
        let ghost r0 = old(self).remaining();
        if self.is_greedy {
            let ghost can = exists|k: int|
                is_skip_len(r0, k) && skip_stays_nonneg(r0, old(self).cursor.depth as int, k);
            let ghost khyp: int = if can {
                choose|k: int|
                    is_skip_len(r0, k) && skip_stays_nonneg(r0, old(self).cursor.depth as int, k)
            } else {
                0
            };
            let entry = self.cursor.depth;
            loop
                invariant
                    self.wf(),
                    self.is_greedy == old(self).is_greedy,
                    self.is_map_value == old(self).is_map_value,
                    self.is_seq_value == old(self).is_seq_value,
                    self.is_value == old(self).is_value,
                    self.cache == old(self).cache,
                    self.cursor.reset_peek_offset == old(self).cursor.reset_peek_offset,
                    old(self).is_greedy,
                    entry == old(self).cursor.depth,
                    r0 == old(self).remaining(),
                    ({
                        let j = r0.len() - self.remaining().len();
                        &&& 0 <= j <= r0.len()
                        &&& self.remaining() == r0.skip(j)
                        &&& self.cursor.depth == entry + delta_sum(r0, j)
                        &&& forall|jj: int| 1 <= jj <= j ==> delta_sum(r0, jj) != 0
                    }),
                    can == (exists|k: int|
                        is_skip_len(r0, k) && skip_stays_nonneg(r0, entry as int, k)),
                    can ==> is_skip_len(r0, khyp) && skip_stays_nonneg(r0, entry as int, khyp),
                decreases self.remaining().len(),
            {
                let ghost j = r0.len() - self.remaining().len();
                proof {
                    if can {
                        assert(j < khyp) by {
                            if j >= khyp {
                                assert(delta_sum(r0, khyp) != 0 || khyp > j);
                            }
                        }
                        assert(self.remaining().len() > 0);
                        if r0.skip(j)[0] is EndElement {
                            assert(delta_sum(r0, j + 1) == delta_sum(r0, j) + depth_delta(
                                r0[j],
                            ));
                            assert(entry + delta_sum(r0, j + 1) >= 0);
                            assert(self.cursor.depth >= 1);
                        }
                    }
                }
                let ghost pre = self.remaining();
                match self.cursor.next() {
                    Ok(e) => {
                        proof {
                            assert(pre.drop_first() =~= r0.skip(j + 1));
                            assert(delta_sum(r0, j + 1) == delta_sum(r0, j) + depth_delta(e@));
                        }
                    },
                    Err(e) => {
                        proof {
                            if can {
                                assert(false);
                            }
                        }
                        return Err(e);
                    },
                }
                if self.cursor.depth == entry {
                    proof {
                        assert(is_skip_len(r0, j + 1));
                    }
                    return Ok(());
                }
            }
        } else {
            let ghost p0 = old(self).cursor.peek_pos as int;
            let ghost w = r0.skip(p0);
            let ghost can = exists|k: int|
                is_skip_len(w, k) && old(self).cursor.reset_peek_offset + k <= usize::MAX;
            let ghost khyp: int = if can {
                choose|k: int|
                    is_skip_len(w, k) && old(self).cursor.reset_peek_offset + k <= usize::MAX
            } else {
                0
            };
            let mut d: i128 = 0;
            loop
                invariant
                    self.wf(),
                    self.is_greedy == old(self).is_greedy,
                    self.is_map_value == old(self).is_map_value,
                    self.is_seq_value == old(self).is_seq_value,
                    self.is_value == old(self).is_value,
                    self.cache == old(self).cache,
                    self.remaining() == old(self).remaining(),
                    self.cursor.depth == old(self).cursor.depth,
                    !old(self).is_greedy,
                    r0 == old(self).remaining(),
                    p0 == old(self).cursor.peek_pos as int,
                    w == r0.skip(p0),
                    0 <= p0 <= self.cursor.peek_pos,
                    ({
                        let j = self.cursor.peek_pos - p0;
                        &&& j <= w.len()
                        &&& d as int == delta_sum(w, j)
                        &&& self.cursor.reset_peek_offset == old(self).cursor.reset_peek_offset + j
                        &&& forall|jj: int| 1 <= jj <= j ==> delta_sum(w, jj) != 0
                    }),
                    -(self.cursor.peek_pos as int) <= d as int <= self.cursor.peek_pos as int,
                    can == (exists|k: int|
                        is_skip_len(w, k) && old(self).cursor.reset_peek_offset + k
                            <= usize::MAX),
                    can ==> is_skip_len(w, khyp) && old(self).cursor.reset_peek_offset + khyp
                        <= usize::MAX,
                decreases self.remaining().len() - self.cursor.peek_pos,
            {
                let ghost j = self.cursor.peek_pos - p0;
                proof {
                    if can {
                        assert(j < khyp) by {
                            if j >= khyp {
                                assert(delta_sum(w, khyp) != 0 || khyp > j);
                            }
                        }
                        assert(p0 + j < r0.len());
                    }
                }
                if self.cursor.peek_pos >= self.cursor.events.len() {
                    proof {
                        if can {
                            assert(false);
                        }
                    }
                    return Err(Error::ExpectedElement);
                }
                let e = self.cursor.peek();
                proof {
                    assert(e@ == r0[p0 + j]);
                    assert(w[j] == r0[p0 + j]);
                    assert(delta_sum(w, j + 1) == delta_sum(w, j) + depth_delta(w[j]));
                }
                match &e {
                    Event::StartElement { .. } => {
                        d = d + 1;
                    },
                    Event::EndElement { .. } => {
                        d = d - 1;
                    },
                    _ => {},
                }
                match self.cursor.reset_peek_offset.checked_add(1) {
                    Some(v) => {
                        self.cursor.reset_peek_offset = v;
                    },
                    None => {
                        proof {
                            if can {
                                assert(false);
                            }
                        }
                        return Err(Error::ExpectedElement);
                    },
                }
                if d == 0 {
                    proof {
                        assert(is_skip_len(w, j + 1));
                    }
                    return Ok(());
                }
            }
        }
    }

    /// Consumes a whole element subtree whose start element has already
    /// been consumed (its parts are handed in), and renders it back to
    /// text through the pull emitter: the raw-XML escape hatch.
    fn read_raw_subtree(
        &mut self,
        name: Name,
        attributes: Vec<crate::events::Attribute>,
        namespaces: Vec<crate::events::NsBinding>,
    ) -> (r: Result<String, Error>)
        requires
            old(self).wf(),
            old(self).cursor.depth >= 1,
        ensures
            final(self).wf(),
            final(self).is_map_value == old(self).is_map_value,
            final(self).is_seq_value == old(self).is_seq_value,
            final(self).is_value == old(self).is_value,
            final(self).is_greedy == old(self).is_greedy,
            final(self).cache == old(self).cache,
            r is Ok ==> final(self).cursor.depth == old(self).cursor.depth - 1,
            ({
                let r0 = old(self).remaining();
                let startv = EventV::StartElement {
                    name: name@,
                    attributes: attributes@.map_values(|a: crate::events::Attribute| a@),
                    namespaces: namespaces@.map_values(|n: crate::events::NsBinding| n@),
                };
                r matches Ok(s) ==> exists|k: int|
                    1 <= k <= r0.len() && delta_sum(r0, k) == -1 && (forall|j: int|
                        1 <= j < k ==> delta_sum(r0, j) != -1) && s@
                        == crate::xml_io::rendered_text(
                        crate::xml_io::written_of(seq![startv] + r0.take(k)),
                        (false, false, true, false, false, ""@),
                    ) && final(self).remaining() == r0.skip(k)
            }),
    {
        let ghost r0 = old(self).remaining();
        let ghost startv = EventV::StartElement {
            name: name@,
            attributes: attributes@.map_values(|a: crate::events::Attribute| a@),
            namespaces: namespaces@.map_values(|n: crate::events::NsBinding| n@),
        };
        let ghost depth0_g = old(self).cursor.depth - 1;
        let depth0 = self.cursor.depth - 1;
        let mut frag: Vec<Event> = Vec::new();
        frag.push(Event::StartElement { name, attributes, namespaces });
        proof {
            assert(r0.skip(0) =~= r0);
            assert(r0.take(0) =~= Seq::<EventV>::empty());
            assert(frag@.map_values(|e: Event| e@) =~= seq![startv] + r0.take(0));
        }
        loop
            invariant_except_break
                self.cursor.depth >= depth0 + 1,
                forall|jj: int|
                    1 <= jj <= r0.len() - self.remaining().len() ==> delta_sum(r0, jj) != -1,
            invariant
                self.wf(),
                self.is_map_value == old(self).is_map_value,
                self.is_seq_value == old(self).is_seq_value,
                self.is_value == old(self).is_value,
                self.is_greedy == old(self).is_greedy,
                self.cache == old(self).cache,
                depth0 == depth0_g,
                r0 == old(self).remaining(),
                ({
                    let j = r0.len() - self.remaining().len();
                    &&& 0 <= j <= r0.len()
                    &&& self.remaining() == r0.skip(j)
                    &&& frag@.map_values(|e: Event| e@) == seq![startv] + r0.take(j)
                    &&& self.cursor.depth == depth0 + 1 + delta_sum(r0, j)
                    &&& forall|jj: int| 1 <= jj < r0.len() - self.remaining().len() ==> delta_sum(r0, jj) != -1
                }),
            ensures
                self.cursor.depth == depth0,
                ({
                    let j = r0.len() - self.remaining().len();
                    &&& 1 <= j <= r0.len()
                    &&& delta_sum(r0, j) == -1
                    &&& (forall|jj: int| 1 <= jj < j ==> delta_sum(r0, jj) != -1)
                    &&& self.remaining() == r0.skip(j)
                    &&& frag@.map_values(|e: Event| e@) == seq![startv] + r0.take(j)
                }),
            decreases self.remaining().len(),
        {
            let ghost pre = self.remaining().len();
            let ghost j0 = r0.len() - self.remaining().len();
            match self.cursor.next() {
                Ok(e) => {
                    proof {
                        assert(r0.skip(j0).drop_first() =~= r0.skip(j0 + 1));
                        assert(r0.take(j0 + 1).drop_last() =~= r0.take(j0));
                        assert(r0.take(j0 + 1).last() == r0[j0]);
                        assert(delta_sum(r0, j0 + 1) == delta_sum(r0, j0) + depth_delta(r0[j0]));
                        assert((frag@.push(e)).map_values(|ev: Event| ev@) =~= frag@.map_values(
                            |ev: Event| ev@,
                        ).push(e@));
                        assert(frag@.map_values(|ev: Event| ev@).push(e@) =~= seq![startv]
                            + r0.take(j0 + 1));
                    }
                    frag.push(e);
                    if self.cursor.depth == depth0 {
                        break;
                    }
                },
                Err(er) => {
                    return Err(er);
                },
            }
            proof {
                assert(self.remaining().len() < pre);
            }
        }
        let out = crate::xml_io::emit_events(&frag, false, false, true, false, false, "");
        proof {
            if out is Ok {
                let j = r0.len() - self.remaining().len();
                assert(1 <= j <= r0.len() && delta_sum(r0, j) == -1 && (forall|jj: int|
                    1 <= jj < j ==> delta_sum(r0, jj) != -1));
            }
        }
        out
    }

    /// Reads character data into a string, per the text-extraction
    /// discipline: inside a map value the wrapping element is consumed
    /// and its matching end required; an immediately closing element
    /// yields the empty string; character data or CDATA yields its
    /// text; a nested element is re-serialized verbatim (the raw-XML
    /// escape hatch); anything else is `ExpectedString`.
    fn parse_string(&mut self) -> (r: Result<String, Error>)
        requires
            old(self).wf(),
        ensures
            final(self).wf(),
            !final(self).is_map_value,
            !final(self).is_value,
            final(self).is_seq_value == old(self).is_seq_value,
            final(self).is_greedy == old(self).is_greedy,
            final(self).cache == old(self).cache,
            r is Ok ==> final(self).cursor.depth == old(self).cursor.depth,
            ({
                let r0 = old(self).remaining();
                (old(self).is_map_value && r0.len() >= 3 && start_name(r0[0]) is Some
                    && text_of(r0[1]) is Some
                    && is_end_matching(r0[2], start_name(r0[0]).unwrap()))
                    ==> (r matches Ok(s)
                        && s@ == text_of(r0[1]).unwrap()
                        && final(self).remaining() == r0.skip(3)
                        && final(self).cursor.peek_pos == 0
                        && final(self).cursor.reset_peek_offset == old(self).cursor.reset_peek_offset)
            }),
            ({
                let r0 = old(self).remaining();
                (old(self).is_map_value && r0.len() >= 2 && start_name(r0[0]) is Some
                    && is_end_matching(r0[1], start_name(r0[0]).unwrap()))
                    ==> (r matches Ok(s)
                        && s@ == Seq::<char>::empty()
                        && final(self).remaining() == r0.skip(2))
            }),
            ({
                let r0 = old(self).remaining();
                (!old(self).is_map_value && old(self).cursor.peek_pos == 0 && r0.len() >= 1
                    && text_of(r0[0]) is Some)
                    ==> (r matches Ok(s)
                        && s@ == text_of(r0[0]).unwrap()
                        && final(self).remaining() == r0.skip(1))
            }),
            ({
                let r0 = old(self).remaining();
                (!old(self).is_map_value && old(self).cursor.peek_pos == 0 && r0.len() >= 1
                    && r0[0] is EndElement)
                    ==> (r matches Ok(s)
                        && s@ == Seq::<char>::empty()
                        && final(self).remaining() == r0)
            }),
            ({
                let r0 = old(self).remaining();
                (old(self).is_map_value && r0.len() >= 2 && start_name(r0[0]) is Some && !(r0[1]
                    is EndElement) && text_of(r0[1]) is None && start_name(r0[1]) is None) ==> (r
                    matches Err(e) && e is ExpectedString)
            }),
            ({
                let r0 = old(self).remaining();
                (!old(self).is_map_value && old(self).cursor.peek_pos == 0 && r0.len() >= 1 && !(
                r0[0] is EndElement) && text_of(r0[0]) is None && start_name(r0[0]) is None) ==> (r
                    matches Err(e) && e is ExpectedString)
            }),
    {
        let save_greedy = self.is_greedy;
        let mv = self.unset_map_value();
        let wrap: Option<Name> = if mv {
            match self.cursor.next() {
                Ok(e) => match e {
                    Event::StartElement { name, .. } => Some(name),
                    _ => {
                        self.is_greedy = save_greedy;
                        return Err(Error::ExpectedElement);
                    },
                },
                Err(e) => {
                    self.is_greedy = save_greedy;
                    return Err(e);
                },
            }
        } else {
            None
        };
        let e = self.cursor.peek();
        let is_end = match &e {
            Event::EndElement { .. } => true,
            _ => false,
        };
        let res: Result<String, Error> = if is_end {
            Ok(String::new())
        } else {
            match self.cursor.next() {
                Ok(ev) => match ev {
                    Event::Characters(s) => Ok(s),
                    Event::CData(s) => Ok(s),
                    Event::StartElement { name, attributes, namespaces } => self.read_raw_subtree(
                        name,
                        attributes,
                        namespaces,
                    ),
                    _ => Err(Error::ExpectedString),
                },
                Err(e) => Err(e),
            }
        };
        let out: Result<String, Error> = match res {
            Ok(s) => match &wrap {
                Some(n) => match self.expect_end_element(n) {
                    Ok(u) => Ok(s),
                    Err(e) => Err(e),
                },
                None => Ok(s),
            },
            Err(e) => Err(e),
        };
        self.is_greedy = save_greedy;
        proof {
            let r0 = old(self).remaining();
            if r0.len() >= 1 {
                assert(r0.drop_first() =~= r0.skip(1));
            }
            if r0.len() >= 2 {
                assert(r0.drop_first().drop_first() =~= r0.skip(2));
            }
            if r0.len() >= 3 {
                assert(r0.drop_first().drop_first().drop_first() =~= r0.skip(3));
            }
        }
        out
    }

    /// Reads a boolean from the extracted text, accepting exactly the
    /// truthy and falsy tokens in any case.
    fn parse_bool(&mut self) -> (r: Result<bool, Error>)
        requires
            old(self).wf(),
        ensures
            final(self).wf(),
            !final(self).is_map_value,
            !final(self).is_value,
            final(self).is_seq_value == old(self).is_seq_value,
            final(self).is_greedy == old(self).is_greedy,
            final(self).cache == old(self).cache,
            r is Ok ==> final(self).cursor.depth == old(self).cursor.depth,
            ({
                let r0 = old(self).remaining();
                (old(self).is_map_value && r0.len() >= 3 && start_name(r0[0]) is Some
                    && text_of(r0[1]) is Some
                    && is_end_matching(r0[2], start_name(r0[0]).unwrap())) ==> {
                    let t = text_of(r0[1]).unwrap();
                    &&& crate::text::truthy(t) ==> r == Ok::<bool, Error>(true)
                    &&& (crate::text::falsy(t) && !crate::text::truthy(t)) ==> r == Ok::<
                        bool,
                        Error,
                    >(false)
                    &&& (!crate::text::truthy(t) && !crate::text::falsy(t)) ==> (r matches Err(e)
                        && e is ExpectedBool)
                    &&& r is Ok ==> final(self).remaining() == r0.skip(3)
                }
            }),
    {
        match self.parse_string() {
            Ok(s) => crate::text::parse_bool_text(s.as_str()),
            Err(e) => Err(e),
        }
    }

    /// Reads a signed integer from the extracted text.
    fn parse_signed(&mut self) -> (r: Result<i64, Error>)
        requires
            old(self).wf(),
        ensures
            final(self).wf(),
            !final(self).is_map_value,
            !final(self).is_value,
            final(self).is_seq_value == old(self).is_seq_value,
            final(self).is_greedy == old(self).is_greedy,
            final(self).cache == old(self).cache,
            r is Ok ==> final(self).cursor.depth == old(self).cursor.depth,
            ({
                let r0 = old(self).remaining();
                (old(self).is_map_value && r0.len() >= 3 && start_name(r0[0]) is Some
                    && text_of(r0[1]) is Some
                    && is_end_matching(r0[2], start_name(r0[0]).unwrap())) ==> {
                    let t = text_of(r0[1]).unwrap();
                    &&& (crate::text::sint_text_ok(t) && i64::MIN <= crate::text::sint_val(t)
                        <= i64::MAX) ==> (r matches Ok(v) && v == crate::text::sint_val(t)
                        && final(self).remaining() == r0.skip(3))
                    &&& (!crate::text::sint_text_ok(t) || crate::text::sint_val(t) < i64::MIN
                        || crate::text::sint_val(t) > i64::MAX) ==> (r matches Err(e) && e
                        is ExpectedInt)
                }
            }),
    {
        match self.parse_string() {
            Ok(s) => crate::text::parse_i64_text(s.as_str()),
            Err(e) => Err(e),
        }
    }

    /// Reads an unsigned integer from the extracted text.
    fn parse_unsigned(&mut self) -> (r: Result<u64, Error>)
        requires
            old(self).wf(),
        ensures
            final(self).wf(),
            !final(self).is_map_value,
            !final(self).is_value,
            final(self).is_seq_value == old(self).is_seq_value,
            final(self).is_greedy == old(self).is_greedy,
            final(self).cache == old(self).cache,
            r is Ok ==> final(self).cursor.depth == old(self).cursor.depth,
            ({
                let r0 = old(self).remaining();
                (old(self).is_map_value && r0.len() >= 3 && start_name(r0[0]) is Some
                    && text_of(r0[1]) is Some
                    && is_end_matching(r0[2], start_name(r0[0]).unwrap())) ==> {
                    let t = text_of(r0[1]).unwrap();
                    &&& (crate::text::uint_text_ok(t) && crate::text::dec_val(
                        crate::text::uint_digits(t),
                    ) <= u64::MAX) ==> (r matches Ok(v) && v == crate::text::dec_val(
                        crate::text::uint_digits(t),
                    ) && final(self).remaining() == r0.skip(3))
                    &&& (!crate::text::uint_text_ok(t) || crate::text::dec_val(
                        crate::text::uint_digits(t),
                    ) > u64::MAX) ==> (r matches Err(e) && e is ExpectedInt)
                }
            }),
    {
        match self.parse_string() {
            Ok(s) => crate::text::parse_u64_text(s.as_str()),
            Err(e) => Err(e),
        }
    }

    /// Reads a character: the extracted text must be exactly one
    /// character.
    fn parse_character(&mut self) -> (r: Result<char, Error>)
        requires
            old(self).wf(),
        ensures
            final(self).wf(),
            !final(self).is_map_value,
            !final(self).is_value,
            final(self).is_seq_value == old(self).is_seq_value,
            final(self).is_greedy == old(self).is_greedy,
            final(self).cache == old(self).cache,
            r is Ok ==> final(self).cursor.depth == old(self).cursor.depth,
            ({
                let r0 = old(self).remaining();
                (old(self).is_map_value && r0.len() >= 3 && start_name(r0[0]) is Some
                    && text_of(r0[1]) is Some
                    && is_end_matching(r0[2], start_name(r0[0]).unwrap())) ==> {
                    let t = text_of(r0[1]).unwrap();
                    &&& t.len() == 1 ==> (r matches Ok(c) && c == t[0] && final(self).remaining()
                        == r0.skip(3))
                    &&& t.len() != 1 ==> (r matches Err(e) && e is ExpectedChar)
                }
            }),
    {
        match self.parse_string() {
            Ok(s) => crate::text::parse_char_text(s.as_str()),
            Err(e) => Err(e),
        }
    }
}

/// Materializes a single pre-extracted attribute string: primitives by
/// parsing, booleans by the truthy and falsy tokens, a tagged
/// alternative as a unit variant named by the string, an optional value
/// as always present; attribute text cannot express structure, so every
/// other shape is `Unsupported`.
pub fn decode_attr_value(shape: &Shape, s: &String) -> (r: Result<Value, Error>)
    ensures
        match *shape {
            Shape::Boolean => match r {
                Ok(v) => (crate::text::truthy(s@) && v == Value::Boolean(true)) || (
                crate::text::falsy(s@) && v == Value::Boolean(false)),
                Err(e) => !crate::text::truthy(s@) && !crate::text::falsy(s@) && e
                    is ExpectedBool,
            },
            Shape::Text => (r matches Ok(v) && v matches Value::Text(t) && t@ == s@),
            Shape::Dynamic => (r matches Ok(v) && v matches Value::Text(t) && t@ == s@),
            Shape::Character => match r {
                Ok(v) => s@.len() == 1 && v == Value::Character(s@[0]),
                Err(e) => s@.len() != 1 && e is ExpectedChar,
            },
            Shape::Int64 => match r {
                Ok(v) => crate::text::sint_text_ok(s@) && (v matches Value::Signed(n)
                    && n == crate::text::sint_val(s@)),
                Err(e) => e is ExpectedInt,
            },
            Shape::UInt64 => match r {
                Ok(v) => crate::text::uint_text_ok(s@) && (v matches Value::Unsigned(n)
                    && n == crate::text::dec_val(crate::text::uint_digits(s@))),
                Err(e) => e is ExpectedInt,
            },
            Shape::Int8 | Shape::Int16 | Shape::Int32 => match r {
                Ok(v) => crate::text::sint_text_ok(s@) && (v matches Value::Signed(n)
                    && n == crate::text::sint_val(s@)),
                Err(e) => e is ExpectedInt,
            },
            Shape::UInt8 | Shape::UInt16 | Shape::UInt32 => match r {
                Ok(v) => crate::text::uint_text_ok(s@) && (v matches Value::Unsigned(n)
                    && n == crate::text::dec_val(crate::text::uint_digits(s@))),
                Err(e) => e is ExpectedInt,
            },
            Shape::Optional(_) => (r matches Ok(v) ==> v is Present),
            Shape::Choice { .. } => match r {
                Ok(v) => (v matches Value::Choice(n, p) && n@ == s@ && *p == Value::Unit),
                Err(e) => e is Unsupported || e is Custom,
            },
            Shape::Bytes | Shape::Unit | Shape::Newtype(_) | Shape::Sequence(_) | Shape::Tuple(_)
                | Shape::Mapping(_) | Shape::Record { .. } | Shape::Ignored => (r matches Err(e)
                && e is Unsupported),
        },
    decreases *shape,
{
    match shape {
        Shape::Boolean => match crate::text::parse_bool_text(s.as_str()) {
            Ok(b) => Ok(Value::Boolean(b)),
            Err(e) => Err(e),
        },
        Shape::Int8 => match crate::text::parse_i64_text(s.as_str()) {
            Ok(v) => if v >= -128 && v <= 127 {
                Ok(Value::Signed(v))
            } else {
                Err(Error::ExpectedInt)
            },
            Err(e) => Err(e),
        },
        Shape::Int16 => match crate::text::parse_i64_text(s.as_str()) {
            Ok(v) => if v >= -32768 && v <= 32767 {
                Ok(Value::Signed(v))
            } else {
                Err(Error::ExpectedInt)
            },
            Err(e) => Err(e),
        },
        Shape::Int32 => match crate::text::parse_i64_text(s.as_str()) {
            Ok(v) => if v >= -2147483648 && v <= 2147483647 {
                Ok(Value::Signed(v))
            } else {
                Err(Error::ExpectedInt)
            },
            Err(e) => Err(e),
        },
        Shape::Int64 => match crate::text::parse_i64_text(s.as_str()) {
            Ok(v) => Ok(Value::Signed(v)),
            Err(e) => Err(e),
        },
        Shape::UInt8 => match crate::text::parse_u64_text(s.as_str()) {
            Ok(v) => if v <= 255 {
                Ok(Value::Unsigned(v))
            } else {
                Err(Error::ExpectedInt)
            },
            Err(e) => Err(e),
        },
        Shape::UInt16 => match crate::text::parse_u64_text(s.as_str()) {
            Ok(v) => if v <= 65535 {
                Ok(Value::Unsigned(v))
            } else {
                Err(Error::ExpectedInt)
            },
            Err(e) => Err(e),
        },
        Shape::UInt32 => match crate::text::parse_u64_text(s.as_str()) {
            Ok(v) => if v <= 4294967295 {
                Ok(Value::Unsigned(v))
            } else {
                Err(Error::ExpectedInt)
            },
            Err(e) => Err(e),
        },
        Shape::UInt64 => match crate::text::parse_u64_text(s.as_str()) {
            Ok(v) => Ok(Value::Unsigned(v)),
            Err(e) => Err(e),
        },
        Shape::Character => match crate::text::parse_char_text(s.as_str()) {
            Ok(c) => Ok(Value::Character(c)),
            Err(e) => Err(e),
        },
        Shape::Text => Ok(Value::Text(s.clone())),
        Shape::Dynamic => Ok(Value::Text(s.clone())),
        Shape::Optional(b) => match decode_attr_value(b, s) {
            Ok(v) => Ok(Value::Present(Box::new(v))),
            Err(e) => Err(e),
        },
        Shape::Choice { variants, payloads } => {
            let mut i: usize = 0;
            while i < variants.len()
                invariant
                    *shape is Choice,
                    0 <= i <= variants@.len(),
                    forall|k: int| 0 <= k < i ==> (#[trigger] variants@[k])@ != s@,
                decreases variants@.len() - i,
            {
                if variants[i].eq(s) {
                    if i < payloads.len() {
                        let is_unit = match &payloads[i] {
                            Shape::Unit => true,
                            _ => false,
                        };
                        if is_unit {
                            return Ok(Value::Choice(s.clone(), Box::new(Value::Unit)));
                        } else {
                            return Err(Error::Unsupported);
                        }
                    } else {
                        return Err(Error::Unsupported);
                    }
                }
                i = i + 1;
            }
            Err(Error::Custom(String::from_str("unknown variant in attribute")))
        },
        _ => Err(Error::Unsupported),
    }
}

/// The variant-access driver for a tagged alternative: it holds the
/// field table built from the declared variant names.
pub struct Enum {
    pub fields: FieldTable,
}

impl Enum {
    /// Builds the variant table for the declared names, interning it in
    /// the driver's cache.
    pub fn new(de: &mut Deserializer, variants: &Vec<String>) -> (r: Result<Enum, Error>)
        requires
            old(de).wf(),
        ensures
            final(de).wf(),
            final(de).cursor == old(de).cursor,
            final(de).is_map_value == old(de).is_map_value,
            final(de).is_seq_value == old(de).is_seq_value,
            final(de).is_value == old(de).is_value,
            final(de).is_greedy == old(de).is_greedy,
            match r {
                Ok(en) => crate::fields::table_spec(crate::fields::decl_views(variants@)) == Some(en.fields@),
                Err(e) => crate::fields::table_spec(crate::fields::decl_views(variants@)) is None
                    && e is Custom,
            },
    {
        match de.cache.for_field_list(variants) {
            Ok(t) => Ok(Enum { fields: t }),
            Err(e) => Err(e),
        }
    }

    /// Resolves the variant identifier from the next event: the matched
    /// name of a start element (setting the map-value flag unless a
    /// value sink matched), or the literal text of character data (a
    /// unit variant spelled as text). Only the lookahead pointer moves.
    fn variant_seed(&mut self, de: &mut Deserializer) -> (r: Result<String, Error>)
        requires
            old(de).wf(),
        ensures
            final(de).wf(),
            final(de).remaining() == old(de).remaining(),
            final(de).cursor.depth == old(de).cursor.depth,
            final(de).cursor.reset_peek_offset == old(de).cursor.reset_peek_offset,
            final(de).is_seq_value == old(de).is_seq_value,
            final(de).is_value == old(de).is_value,
            final(de).is_greedy == old(de).is_greedy,
            final(de).cache == old(de).cache,
            ({
                let r0 = old(de).remaining();
                (old(de).cursor.peek_pos == 0 && r0.len() >= 1) ==> match start_name(r0[0]) {
                    Some(n) => {
                        let key = crate::fields::elem_key_spec(old(self).fields@, n);
                        &&& (r matches Ok(s) && s@ == key)
                        &&& final(self).fields@.value_used == crate::fields::elem_key_used(old(self).fields@, n)
                        &&& final(de).is_map_value == (old(de).is_map_value
                            || !crate::fields::is_value_decl(key))
                    },
                    None => match text_of(r0[0]) {
                        Some(t) => (r matches Ok(s) && s@ == t) && final(de).is_map_value == old(de).is_map_value && *final(self) == *old(self),
                        None => (r matches Err(e) && e is ExpectedString) && final(de).is_map_value
                            == old(de).is_map_value && *final(self) == *old(self),
                    },
                }
            }),
            (old(de).cursor.peek_pos == 0 && old(de).remaining().len() == 0) ==> ((r matches Err(e)
                && e is ExpectedString) && final(de).is_map_value == old(de).is_map_value),
    {
        let e = de.cursor.peek();
        let r: Result<String, Error> = match &e {
            Event::StartElement { name, .. } => {
                let name_str = self.fields.match_element(name);
                if !crate::fields::starts_with_value(name_str.as_str()) {
                    de.set_map_value();
                }
                Ok(name_str)
            },
            Event::Characters(t) => Ok(t.clone()),
            Event::CData(t) => Ok(t.clone()),
            _ => Err(Error::ExpectedString),
        };
        de.cursor.reset_peek();
        r
    }

    /// Consumes a unit variant: an element with no attributes and an
    /// immediately matching end, or nothing when the variant was
    /// spelled as text (that text was already consumed by the caller).
    fn unit_variant(self, de: &mut Deserializer) -> (r: Result<(), Error>)
        requires
            old(de).wf(),
        ensures
            final(de).wf(),
            final(de).is_seq_value == old(de).is_seq_value,
            final(de).is_greedy == old(de).is_greedy,
            final(de).cache == old(de).cache,
            r is Ok ==> final(de).cursor.depth == old(de).cursor.depth,
            ({
                let r0 = old(de).remaining();
                r0.len() >= 1 ==> match start_name(r0[0]) {
                    Some(n) => {
                        &&& (start_attrs(r0[0]) == Some(Seq::<crate::events::AttributeV>::empty())
                            && r0.len() >= 2 && is_end_matching(r0[1], n)) ==> (r is Ok && final(de).remaining() == r0.skip(2))
                        &&& start_attrs(r0[0]) != Some(Seq::<crate::events::AttributeV>::empty()) ==> (r matches Err(e) && e is ExpectedElement)
                    },
                    None => match text_of(r0[0]) {
                        Some(t) => r is Ok && final(de).remaining() == r0.skip(1),
                        None => (r matches Err(e) && e is ExpectedElement),
                    },
                }
            }),
            old(de).remaining().len() == 0 ==> (r matches Err(e) && e is ExpectedElement),
    {
        let ghost r0 = old(de).remaining();
        de.unset_map_value();
        match de.cursor.next() {
            Ok(e) => match e {
                Event::StartElement { name, attributes, namespaces } => {
                    proof {
                        assert(start_attrs(r0[0]) == Some(
                            attributes@.map_values(|a: crate::events::Attribute| a@),
                        ));
                        assert(attributes@.map_values(|a: crate::events::Attribute| a@).len()
                            == attributes@.len());
                        if attributes@.len() == 0 {
                            assert(attributes@.map_values(|a: crate::events::Attribute| a@)
                                =~= Seq::<crate::events::AttributeV>::empty());
                        }
                    }
                    if attributes.len() == 0 {
                        let out = de.expect_end_element(&name);
                        proof {
                            if r0.len() >= 2 {
                                assert(r0.drop_first().drop_first() =~= r0.skip(2));
                            }
                        }
                        out
                    } else {
                        Err(Error::ExpectedElement)
                    }
                },
                Event::Characters(_) => {
                    proof {
                        assert(r0.drop_first() =~= r0.skip(1));
                    }
                    Ok(())
                },
                Event::CData(_) => {
                    proof {
                        assert(r0.drop_first() =~= r0.skip(1));
                    }
                    Ok(())
                },
                _ => Err(Error::ExpectedElement),
            },
            Err(e) => Err(e),
        }
    }
}

/// `i` is the first index at which `decls` declares `t`.
pub open spec fn first_decl_at(decls: Seq<String>, t: Seq<char>, i: int) -> bool {
    &&& 0 <= i < decls.len()
    &&& decls[i]@ == t
    &&& forall|k: int| 0 <= k < i ==> (#[trigger] decls[k])@ != t
}

/// The wrapped text fields at the front of a stream: each is three
/// events, a start element, one run of character data, and the
/// matching end. The count stops at the first events of another shape.
pub open spec fn leading_text_fields(s: Seq<EventV>) -> Seq<(crate::events::NameV, Seq<char>)>
    decreases s.len(),
{
    if s.len() >= 3 && start_name(s[0]) is Some && text_of(s[1]) is Some && is_end_matching(
        s[2],
        start_name(s[0]).unwrap(),
    ) {
        seq![(start_name(s[0]).unwrap(), text_of(s[1]).unwrap())] + leading_text_fields(s.skip(3))
    } else {
        Seq::empty()
    }
}

/// Dropping one leading field shifts the field list by one.
proof fn lemma_leading_shift(s: Seq<EventV>)
    requires
        leading_text_fields(s).len() >= 1,
    ensures
        s.len() >= 3,
        start_name(s[0]) is Some,
        text_of(s[1]) is Some,
        is_end_matching(s[2], start_name(s[0]).unwrap()),
        leading_text_fields(s)[0] == (start_name(s[0]).unwrap(), text_of(s[1]).unwrap()),
        leading_text_fields(s).skip(1) =~= leading_text_fields(s.skip(3)),
{
}

/// Each leading field accounts for three events of the stream.
proof fn lemma_leading_bound(s: Seq<EventV>)
    ensures
        3 * leading_text_fields(s).len() <= s.len(),
    decreases s.len(),
{
    if leading_text_fields(s).len() >= 1 {
        lemma_leading_shift(s);
        lemma_leading_bound(s.skip(3));
    }
}

/// The field list of a shifted stream indexes the original's tail.
proof fn lemma_leading_index(s: Seq<EventV>, j: int)
    requires
        0 <= j <= leading_text_fields(s).len(),
    ensures
        leading_text_fields(s.skip(3 * j)).len() == leading_text_fields(s).len() - j,
        forall|k: int|
            0 <= k < leading_text_fields(s).len() - j ==> #[trigger] leading_text_fields(
                s.skip(3 * j),
            )[k] == leading_text_fields(s)[j + k],
    decreases j,
{
    if j == 0 {
        assert(s.skip(0) =~= s);
    } else {
        lemma_leading_shift(s);
        lemma_leading_bound(s);
        assert(s.skip(3).skip(3 * (j - 1)) =~= s.skip(3 * j));
        lemma_leading_index(s.skip(3), j - 1);
        assert(forall|k: int|
            0 <= k < leading_text_fields(s).len() - j ==> #[trigger] leading_text_fields(
                s.skip(3 * j),
            )[k] == leading_text_fields(s.skip(3))[j - 1 + k]);
        assert(forall|k: int|
            0 <= k < leading_text_fields(s).len() - j ==> #[trigger] leading_text_fields(
                s.skip(3),
            )[j - 1 + k] == leading_text_fields(s)[j + k]);
    }
}

/// A record of text members: every declared member shape is the text
/// shape, and the declared list and shape list run in parallel.
pub open spec fn all_text_shapes(decls: Seq<String>, shapes: Seq<Shape>) -> bool {
    &&& decls.len() == shapes.len()
    &&& forall|i: int| 0 <= i < shapes.len() ==> shapes[i] is Text
}

/// The flat-record situation whose decode result the body contract
/// fixes completely: no attributes, a fresh window, every leading
/// wrapped text field matching a declared non-sink element, and the
/// first event after them ending the body.
pub open spec fn flat_text_record(
    t0: Option<crate::fields::FieldTableV>,
    r0: Seq<EventV>,
    decls: Seq<String>,
    shapes: Seq<Shape>,
) -> bool {
    let fs = leading_text_fields(r0);
    let k = 3 * fs.len() as int;
    &&& t0 is Some
    &&& all_text_shapes(decls, shapes)
    &&& (k == r0.len() || !(r0[k] is StartElement || text_of(r0[k]) is Some))
    &&& forall|i: int|
        0 <= i < fs.len() ==> crate::fields::has_elem_match(
            t0.unwrap().fields,
            (#[trigger] fs[i]).0.qkey(),
        ) && !crate::fields::is_value_decl(crate::fields::elem_key_spec(t0.unwrap(), fs[i].0))
}

/// What decoding a flat record yields: one pair per leading text
/// field, keyed by the table's resolution and holding the field's
/// text.
pub open spec fn flat_record_result(
    r: Result<Value, Error>,
    t0u: crate::fields::FieldTableV,
    inner: Seq<EventV>,
) -> bool {
    let fs = leading_text_fields(inner);
    &&& r matches Ok(v)
    &&& (r->Ok_0 matches Value::Pairs(out) && out@.len() == fs.len() && (forall|i: int|
        0 <= i < fs.len() ==> ((#[trigger] out@[i]).0@ == crate::fields::elem_key_spec(
            t0u,
            fs[i].0,
        ) && (out@[i].1 matches Value::Text(tv) && tv@ == fs[i].1))))
}

/// The declared field list of a record shape.
pub open spec fn record_decls(s: Shape) -> Seq<String> {
    match s {
        Shape::Record { fields, shapes } => fields@,
        _ => Seq::empty(),
    }
}

/// The member shapes of a record shape.
pub open spec fn record_shapes(s: Shape) -> Seq<Shape> {
    match s {
        Shape::Record { fields, shapes } => shapes@,
        _ => Seq::empty(),
    }
}

/// The flat-record decode contract: outside a map value a record shape
/// over a flat run of matching text fields yields exactly one pair per
/// field; inside a map value the same holds for the body of the
/// wrapped element, whose matching end is consumed as well.
#[verifier::opaque]
pub open spec fn flat_record_decode(
    pre: Deserializer,
    shape: Shape,
    fuel: u64,
    r: Result<Value, Error>,
    post: Deserializer,
) -> bool {
    let r0 = pre.remaining();
    let ds = record_decls(shape);
    let ss = record_shapes(shape);
    let t0 = crate::fields::table_spec(crate::fields::decl_views(ds));
    let inner = r0.skip(1);
    let fs = leading_text_fields(inner);
    &&& ((fuel >= 2 && !pre.is_map_value && pre.cursor.peek_pos == 0
        && pre.cursor.reset_peek_offset == 0 && shape is Record && flat_text_record(
        t0,
        r0,
        ds,
        ss,
    )) ==> (flat_record_result(r, t0.unwrap(), r0) && post.remaining() == r0.skip(
        3 * leading_text_fields(r0).len() as int,
    ) && post.cursor.depth == pre.cursor.depth))
    &&& ((fuel >= 2 && pre.is_map_value && pre.cursor.reset_peek_offset == 0 && r0.len() >= 2
        && start_name(r0[0]) is Some && start_attrs(r0[0]) == Some(
        Seq::<crate::events::AttributeV>::empty(),
    ) && shape is Record && flat_text_record(t0, inner, ds, ss) && 1 + 3 * fs.len() < r0.len()
        && is_end_matching(r0[1 + 3 * fs.len() as int], start_name(r0[0]).unwrap())) ==> (
    flat_record_result(r, t0.unwrap(), inner) && post.remaining() == r0.skip(
        2 + 3 * fs.len() as int,
    ) && post.cursor.depth == pre.cursor.depth))
}

/// Round-trip law, record half at the event level: the events the
/// encoder emits for a record holding one text field (per
/// `scalar_events`, which `to_events` ensures) are decoded back to
/// exactly that record: one pair under the declared key holding the
/// same text (which `from_events` and `decode` ensure through
/// `flat_text_record`/`flat_record_result`).
pub proof fn lemma_scalar_field_event_round_trip(k: String, n: crate::events::NameV, t: Seq<char>)
    requires
        crate::ser::plain_elem_key(k@) == Some(n),
        t.len() > 0,
    ensures
        ({
            let stream = crate::ser::scalar_events(n, t);
            let ds = seq![k];
            let ss = seq![Shape::Text];
            let t0 = crate::fields::table_spec(crate::fields::decl_views(ds));
            &&& t0 is Some
            &&& flat_text_record(t0, stream, ds, ss)
            &&& forall|r: Result<Value, Error>|
                flat_record_result(r, t0.unwrap(), stream) ==> (r matches Ok(v) && (#[trigger] (
                r->Ok_0)) matches Value::Pairs(out) && out@.len() == 1 && out@[0].0@ == k@ && (
                out@[0].1 matches Value::Text(tv) && tv@ == t))
        }),
{
    let stream = crate::ser::scalar_events(n, t);
    let ds = seq![k];
    let ss = seq![Shape::Text];
    let dv = crate::fields::decl_views(ds);
    assert(dv =~= seq![k@]);
    assert(!crate::fields::is_attr_decl(k@));
    assert(!crate::fields::is_value_decl(k@));
    assert(crate::tag::parse_tag_spec(k@) is Some);
    let tp = crate::tag::parse_tag_spec(k@).unwrap();
    assert(n == crate::events::NameV { namespace: tp.0, local: tp.2, prefix: tp.1 });
    let f0 = crate::fields::FieldV { name: k@, namespace: tp.0, local: tp.2, attr: false };
    assert(crate::fields::field_spec(k@) is Some);
    assert(crate::fields::field_spec(k@).unwrap() == f0) by {
        assert(!crate::fields::is_attr_decl(k@));
        assert(crate::tag::parse_tag_spec(k@) == Some(tp));
        assert(crate::fields::field_spec(k@) == Some(
            crate::fields::FieldV {
                name: k@,
                namespace: tp.0,
                local: tp.2,
                attr: crate::fields::is_attr_decl(k@),
            },
        ));
    }
    assert(crate::fields::count_value(dv) == 0) by {
        assert(dv.len() == 1);
        assert(dv.last() == k@);
        assert(dv.drop_last() =~= Seq::<Seq<char>>::empty());
        assert(crate::fields::count_value(Seq::<Seq<char>>::empty()) == 0);
        assert(!crate::fields::is_value_decl(k@));
    }
    let t0 = crate::fields::table_spec(dv);
    assert(t0 is Some);
    let t0u = t0.unwrap();
    assert(t0u.fields =~= seq![f0]);
    assert(stream.len() == 3);
    assert(stream[0] == crate::events::EventV::StartElement {
        name: n,
        attributes: Seq::empty(),
        namespaces: crate::ser::binding_of(n),
    });
    assert(stream[1] == crate::events::EventV::Characters(t));
    assert(stream[2] == crate::events::EventV::EndElement { name: n });
    assert(start_name(stream[0]) == Some(n));
    assert(text_of(stream[1]) == Some(t));
    assert(is_end_matching(stream[2], n));
    let fs = leading_text_fields(stream);
    assert(stream.skip(3) =~= Seq::<EventV>::empty());
    assert(leading_text_fields(stream.skip(3)) =~= Seq::<(crate::events::NameV, Seq<char>)>::empty());
    assert(fs =~= seq![(n, t)]);
    assert(crate::fields::is_elem_match(f0, n.qkey()));
    assert(crate::fields::first_elem_match(t0u.fields, n.qkey(), 0));
    assert(crate::fields::has_elem_match(t0u.fields, n.qkey()));
    let j0 = choose|i: int| crate::fields::first_elem_match(t0u.fields, n.qkey(), i);
    assert(j0 == 0);
    assert(crate::fields::elem_key_spec(t0u, n) == k@);
    assert(flat_text_record(t0, stream, ds, ss));
}

/// The first index at which `decls` declares `key`, if any.
fn find_decl(decls: &Vec<String>, key: &String) -> (r: Option<usize>)
    ensures
        match r {
            Some(i) => {
                &&& i < decls@.len()
                &&& decls@[i as int]@ == key@
                &&& forall|k: int| 0 <= k < i ==> (#[trigger] decls@[k])@ != key@
            },
            None => forall|k: int| 0 <= k < decls@.len() ==> (#[trigger] decls@[k])@ != key@,
        },
{
    let mut i: usize = 0;
    while i < decls.len()
        invariant
            0 <= i <= decls@.len(),
            forall|k: int| 0 <= k < i ==> (#[trigger] decls@[k])@ != key@,
        decreases decls@.len() - i,
    {
        if decls[i].eq(key) {
            return Some(i);
        }
        i = i + 1;
    }
    None
}

impl Deserializer {
    /// Drives one record (or map) body: attributes are drained first,
    /// as a stack, each materialized from its pre-extracted string;
    /// then each peeked start element is resolved through the field
    /// table to a declared name, a value sink or a synthetic name, and
    /// its value is decoded with the role flags set for it; character
    /// data becomes a `$value` pair. Any other event ends the body.
    #[verifier::rlimit(100)]
    fn decode_pairs(
        &mut self,
        decls: &Vec<String>,
        shapes: &Vec<Shape>,
        uniform: &Shape,
        use_uniform: bool,
        attrs: Vec<crate::events::Attribute>,
        fuel: u64,
    ) -> (r: Result<Vec<(String, Value)>, Error>)
        requires
            old(self).wf(),
            fuel >= 1,
        ensures
            final(self).wf(),
            (r is Ok && (if use_uniform {
                option_free(*uniform)
            } else {
                option_free_all(shapes@, shapes@.len() as int)
            })) ==> final(self).cursor.depth == old(self).cursor.depth,
            crate::fields::table_spec(crate::fields::decl_views(decls@)) is None ==> (r matches Err(e) && e is Custom),
            ({
                let r0 = old(self).remaining();
                let t0 = crate::fields::table_spec(crate::fields::decl_views(decls@));
                (t0 is Some && attrs@.len() == 0 && old(self).cursor.peek_pos == 0 && old(self).cursor.reset_peek_offset == 0 && (r0.len() == 0 || !(r0[0] is StartElement
                    || text_of(r0[0]) is Some))) ==> (r matches Ok(out) && out@.len() == 0 && final(self).remaining() == r0 && final(self).cursor.depth == old(self).cursor.depth)
            }),
            ({
                let r0 = old(self).remaining();
                let t0 = crate::fields::table_spec(crate::fields::decl_views(decls@));
                (t0 is Some && attrs@.len() == 0 && old(self).cursor.peek_pos == 0 && old(self).cursor.reset_peek_offset == 0 && r0.len() >= 1 && start_name(r0[0]) is Some)
                    ==> (r matches Ok(out) ==> (out@.len() >= 1 && out@[0].0@
                    == crate::fields::elem_key_spec(t0.unwrap(), start_name(r0[0]).unwrap())))
            }),
            ({
                let r0 = old(self).remaining();
                let t0 = crate::fields::table_spec(crate::fields::decl_views(decls@));
                (t0 is Some && attrs@.len() == 0 && old(self).cursor.peek_pos == 0 && old(self).cursor.reset_peek_offset == 0 && r0.len() >= 1 && text_of(r0[0]) is Some) ==> (r
                    matches Ok(out) ==> (out@.len() >= 1 && out@[0].0@ == "$value"@))
            }),
            ({
                let t0 = crate::fields::table_spec(crate::fields::decl_views(decls@));
                (t0 is Some && attrs@.len() >= 1) ==> (r matches Ok(out) ==> (out@.len() >= 1
                    && out@[0].0@ == crate::fields::attr_key_spec(t0.unwrap().fields, attrs@.last()@.name)))
            }),
            ({
                let t0 = crate::fields::table_spec(crate::fields::decl_views(decls@));
                (t0 is Some && attrs@.len() >= 1 && use_uniform && (*uniform is Text)) ==> (r
                    matches Ok(out) ==> (out@[0].1 matches Value::Text(tv) && tv@
                    == attrs@.last()@.value))
            }),
            ({
                let r0 = old(self).remaining();
                let t0 = crate::fields::table_spec(crate::fields::decl_views(decls@));
                let fs = leading_text_fields(r0);
                (fuel >= 2 && !use_uniform && attrs@.len() == 0 && old(self).cursor.peek_pos == 0
                    && old(self).cursor.reset_peek_offset == 0 && flat_text_record(t0, r0, decls@, shapes@)) ==> (r matches Ok(out) && out@.len() == fs.len() && (forall|i: int|
                    0 <= i < fs.len() ==> (#[trigger] out@[i]).0@ == crate::fields::elem_key_spec(t0.unwrap(), fs[i].0) && (out@[i].1 matches Value::Text(tv) && tv@ == fs[i].1)) && final(self).remaining() == r0.skip(3 * fs.len() as int) && final(self).cursor.depth == old(self).cursor.depth)
            }),
        decreases fuel, 1int,
    {
        let ghost r0 = old(self).remaining();
        let ghost t0 = crate::fields::table_spec(crate::fields::decl_views(decls@));
        let ghost a0 = attrs@;
        let ghost of = if use_uniform {
            option_free(*uniform)
        } else {
            option_free_all(shapes@, shapes@.len() as int)
        };
        let ghost hyp_init = t0 is Some && a0.len() == 0 && old(self).cursor.peek_pos == 0 && old(self).cursor.reset_peek_offset == 0;
        let ghost hyp_end = hyp_init && (r0.len() == 0 || !(r0[0] is StartElement || text_of(r0[0]) is Some));
        let ghost hyp_elem = hyp_init && r0.len() >= 1 && start_name(r0[0]) is Some;
        let ghost hyp_text = hyp_init && r0.len() >= 1 && text_of(r0[0]) is Some;
        let ghost hyp_attr = t0 is Some && a0.len() >= 1;
        let ghost hyp_attr_text = hyp_attr && use_uniform && (*uniform is Text);
        let ghost fs = leading_text_fields(r0);
        let ghost hyp_flat = fuel >= 2 && !use_uniform && a0.len() == 0 && old(self).cursor.peek_pos == 0 && old(self).cursor.reset_peek_offset == 0 && flat_text_record(t0, r0, decls@, shapes@);
        let mut table = match self.cache.for_field_list(decls) {
            Ok(t) => t,
            Err(e) => {
                return Err(e);
            },
        };
        let ignored = Shape::Ignored;
        let mut attrs_left = attrs;
        let mut out: Vec<(String, Value)> = Vec::new();
        let mut inner_value = true;
        let mut steps: u128 = attrs_left.len() as u128 + self.cursor.events.len() as u128 + 2;
        loop
            invariant
                self.wf(),
                of ==> self.cursor.depth == old(self).cursor.depth,
                of == (if use_uniform {
                    option_free(*uniform)
                } else {
                    option_free_all(shapes@, shapes@.len() as int)
                }),
                fuel >= 1,
                ignored is Ignored,
                r0 == old(self).remaining(),
                t0 == crate::fields::table_spec(crate::fields::decl_views(decls@)),
                t0 is Some,
                table@.fields == t0.unwrap().fields,
                table@.num_value == t0.unwrap().num_value,
                hyp_init == (t0 is Some && a0.len() == 0 && old(self).cursor.peek_pos == 0 && old(self).cursor.reset_peek_offset == 0),
                hyp_end == (hyp_init && (r0.len() == 0 || !(r0[0] is StartElement || text_of(r0[0]) is Some))),
                hyp_elem == (hyp_init && r0.len() >= 1 && start_name(r0[0]) is Some),
                hyp_text == (hyp_init && r0.len() >= 1 && text_of(r0[0]) is Some),
                hyp_attr == (t0 is Some && a0.len() >= 1),
                hyp_attr_text == (hyp_attr && use_uniform && (*uniform is Text)),
                hyp_init ==> attrs_left@.len() == 0,
                (hyp_elem || hyp_text || hyp_end) ==> (out@.len() >= 1 || (self.remaining() == r0
                    && self.cursor.peek_pos == 0 && self.cursor.reset_peek_offset == 0
                    && self.cursor.depth == old(self).cursor.depth && table@.value_used == 0
                    && steps == r0.len() + 2)),
                hyp_elem ==> (out@.len() >= 1 ==> out@[0].0@ == crate::fields::elem_key_spec(t0.unwrap(), start_name(r0[0]).unwrap())),
                hyp_text ==> (out@.len() >= 1 ==> out@[0].0@ == "$value"@),
                hyp_end ==> out@.len() == 0,
                a0 == attrs@,
                hyp_attr ==> (out@.len() >= 1 || (attrs_left@ == a0 && table@.value_used == 0)),
                hyp_attr ==> (out@.len() >= 1 ==> out@[0].0@ == crate::fields::attr_key_spec(
                    t0.unwrap().fields,
                    a0.last()@.name,
                )),
                hyp_attr_text ==> (out@.len() >= 1 ==> (out@[0].1 matches Value::Text(tv) && tv@
                    == a0.last()@.value)),
                fs == leading_text_fields(r0),
                hyp_flat == (fuel >= 2 && !use_uniform && a0.len() == 0 && old(self).cursor.peek_pos == 0 && old(self).cursor.reset_peek_offset == 0
                    && flat_text_record(t0, r0, decls@, shapes@)),
                hyp_flat ==> ({
                    let j = out@.len() as int;
                    &&& j <= fs.len()
                    &&& forall|i: int|
                        0 <= i < j ==> (#[trigger] out@[i]).0@ == crate::fields::elem_key_spec(t0.unwrap(), fs[i].0) && (out@[i].1 matches Value::Text(tv) && tv@ == fs[i].1)
                    &&& self.remaining() == r0.skip(3 * j)
                    &&& self.cursor.peek_pos == 0
                    &&& self.cursor.reset_peek_offset == 0
                    &&& self.cursor.depth == old(self).cursor.depth
                    &&& table@.value_used == 0
                    &&& attrs_left@.len() == 0
                    &&& steps == r0.len() + 2 - j
                }),
            decreases steps,
        {
            if steps == 0 {
                proof {
                    if hyp_end {
                        assert(false);
                    }
                    if hyp_flat {
                        lemma_leading_bound(r0);
                        assert(false);
                    }
                }
                return Err(Error::Custom(String::from_str("record body did not advance")));
            }
            steps = steps - 1;
            match attrs_left.pop() {
                Some(attr) => {
                    proof {
                        if hyp_init {
                            assert(false);
                        }
                        if hyp_flat {
                            assert(false);
                        }
                    }
                    let key = table.match_attribute(&attr.name);
                    if use_uniform {
                        match decode_attr_value(uniform, &attr.value) {
                            Ok(v) => out.push((key, v)),
                            Err(e) => {
                                return Err(e);
                            },
                        }
                    } else {
                        let idx = find_decl(decls, &key);
                        match idx {
                            Some(i) => {
                                if i < shapes.len() {
                                    match decode_attr_value(&shapes[i], &attr.value) {
                                        Ok(v) => out.push((key, v)),
                                        Err(e) => {
                                            return Err(e);
                                        },
                                    }
                                } else {
                                    out.push((key, Value::Text(attr.value)));
                                }
                            },
                            None => {
                                out.push((key, Value::Text(attr.value)));
                            },
                        }
                    }
                },
                None => {
                    let e = self.cursor.peek();
                    let key_opt: Option<(String, bool)> = match &e {
                        Event::StartElement { name, .. } => {
                            proof {
                                if hyp_end {
                                    assert(false);
                                }
                                if (hyp_elem || hyp_text) && out@.len() == 0 {
                                    assert(table@ == t0.unwrap());
                                    assert(e@ == r0[0]);
                                }
                                if hyp_flat {
                                    let j = out@.len() as int;
                                    lemma_leading_bound(r0);
                                    lemma_leading_index(r0, j);
                                    if j < fs.len() {
                                        lemma_leading_shift(r0.skip(3 * j));
                                        assert(e@ == r0.skip(3 * j)[0]);
                                        assert(name@ == fs[j].0);
                                        assert(table@ == t0.unwrap());
                                    } else {
                                        if 3 * j < r0.len() {
                                            assert(e@ == r0.skip(3 * j)[0]);
                                            assert(r0.skip(3 * j)[0] == r0[3 * j]);
                                            assert(e@ is StartElement);
                                        } else {
                                            assert(e@ == EventV::EndDocument);
                                        }
                                        assert(false);
                                    }
                                }
                            }
                            let key = table.match_element(name);
                            let sink = crate::fields::starts_with_value(key.as_str());
                            inner_value = sink;
                            Some((key, sink))
                        },
                        Event::Characters(_) => {
                            proof {
                                if hyp_end {
                                    assert(false);
                                }
                                if hyp_flat {
                                    let j = out@.len() as int;
                                    lemma_leading_bound(r0);
                                    lemma_leading_index(r0, j);
                                    if j < fs.len() {
                                        lemma_leading_shift(r0.skip(3 * j));
                                        assert(e@ == r0.skip(3 * j)[0]);
                                        assert(start_name(e@) is Some);
                                    } else {
                                        if 3 * j < r0.len() {
                                            assert(e@ == r0[3 * j]);
                                            assert(text_of(e@) is Some);
                                        } else {
                                            assert(e@ == EventV::EndDocument);
                                        }
                                    }
                                    assert(false);
                                }
                            }
                            Some((String::from_str("$value"), true))
                        },
                        Event::CData(_) => {
                            proof {
                                if hyp_end {
                                    assert(false);
                                }
                                if hyp_flat {
                                    let j = out@.len() as int;
                                    lemma_leading_bound(r0);
                                    lemma_leading_index(r0, j);
                                    if j < fs.len() {
                                        lemma_leading_shift(r0.skip(3 * j));
                                        assert(e@ == r0.skip(3 * j)[0]);
                                        assert(start_name(e@) is Some);
                                    } else {
                                        if 3 * j < r0.len() {
                                            assert(e@ == r0[3 * j]);
                                            assert(text_of(e@) is Some);
                                        } else {
                                            assert(e@ == EventV::EndDocument);
                                        }
                                    }
                                    assert(false);
                                }
                            }
                            Some((String::from_str("$value"), true))
                        },
                        _ => None,
                    };
                    self.cursor.reset_peek();
                    match key_opt {
                        Some((key, next_is_value)) => {
                            let was_inner = inner_value;
                            inner_value = false;
                            if !was_inner {
                                self.set_map_value();
                            }
                            if next_is_value {
                                self.set_is_value();
                            }
                            let not_greedy = next_is_value && table.fields.len() > 1;
                            if not_greedy {
                                self.set_not_greedy();
                            }
                            proof {
                                if hyp_flat {
                                    let j = out@.len() as int;
                                    let t0u = t0.unwrap();
                                    let keyq = fs[j].0.qkey();
                                    let j0 = choose|i: int|
                                        crate::fields::first_elem_match(t0u.fields, keyq, i);
                                    assert(crate::fields::first_elem_match(t0u.fields, keyq, j0));
                                    assert(key@ == t0u.fields[j0].name);
                                    assert(!t0u.fields[j0].attr);
                                    assert(t0u.fields[j0] == crate::fields::field_spec(
                                        crate::fields::decl_views(decls@)[j0],
                                    ).unwrap());
                                    assert(!crate::fields::is_attr_decl(
                                        crate::fields::decl_views(decls@)[j0],
                                    ));
                                    assert(t0u.fields[j0].name == crate::fields::decl_views(
                                        decls@,
                                    )[j0]);
                                    assert((decls@[j0])@ == key@);
                                }
                            }
                            let shape_i: &Shape = if use_uniform {
                                uniform
                            } else {
                                match find_decl(decls, &key) {
                                    Some(i) => if i < shapes.len() {
                                        proof {
                                            if of {
                                                lemma_option_free_at(
                                                    shapes@,
                                                    shapes@.len() as int,
                                                    i as int,
                                                );
                                            }
                                        }
                                        &shapes[i]
                                    } else {
                                        proof {
                                            if hyp_flat {
                                                assert(false);
                                            }
                                        }
                                        &ignored
                                    },
                                    None => {
                                        proof {
                                            if hyp_flat {
                                                assert(false);
                                            }
                                        }
                                        &ignored
                                    },
                                }
                            };
                            proof {
                                if hyp_flat {
                                    assert(*shape_i is Text);
                                }
                            }
                            proof {
                                if of {
                                    assert(option_free(*shape_i));
                                }
                            }
                            match self.decode_value(shape_i, fuel - 1) {
                                Ok(v) => {
                                    if not_greedy {
                                        self.unset_not_greedy();
                                        self.cursor.reset_peek();
                                    }
                                    out.push((key, v));
                                    proof {
                                        if hyp_flat {
                                            let j = (out@.len() - 1) as int;
                                            assert(r0.skip(3 * j).skip(3) =~= r0.skip(3 * j + 3));
                                        }
                                    }
                                },
                                Err(e) => {
                                    proof {
                                        if hyp_flat {
                                            assert(false);
                                        }
                                    }
                                    return Err(e);
                                },
                            }
                        },
                        None => {
                            proof {
                                if hyp_flat {
                                    let j = out@.len() as int;
                                    lemma_leading_bound(r0);
                                    lemma_leading_index(r0, j);
                                    if j < fs.len() {
                                        lemma_leading_shift(r0.skip(3 * j));
                                        assert(false);
                                    }
                                    assert(j == fs.len());
                                }
                            }
                            return Ok(out);
                        },
                    }
                },
            }
        }
    }

    /// Drives one sequence: inside a map value the expected element
    /// name is fixed to the peeked one and every sibling of that name
    /// becomes one element; otherwise every event up to the closing end
    /// element does.
    fn decode_seq_items(&mut self, elem: &Shape, fuel: u64) -> (r: Result<Vec<Value>, Error>)
        requires
            old(self).wf(),
            fuel >= 1,
        ensures
            final(self).wf(),
            (r is Ok && option_free(*elem)) ==> final(self).cursor.depth == old(self).cursor.depth,
            ({
                let r0 = old(self).remaining();
                (old(self).is_map_value && old(self).cursor.peek_pos == 0 && r0.len() >= 1
                    && start_name(r0[0]) is None) ==> (r matches Err(e) && e is ExpectedElement)
            }),
            ({
                let r0 = old(self).remaining();
                (old(self).is_map_value && old(self).cursor.peek_pos == 0 && old(self).cursor.reset_peek_offset == 0 && r0.len() >= 1 && start_name(r0[0]) is Some)
                    ==> (r matches Ok(out) ==> out@.len() >= 1)
            }),
            ({
                let r0 = old(self).remaining();
                (!old(self).is_map_value && old(self).cursor.peek_pos == 0 && old(self).cursor.reset_peek_offset == 0 && (r0.len() == 0 || r0[0] is EndElement || r0[0]
                    is EndDocument)) ==> (r matches Ok(out) && out@.len() == 0 && final(self).remaining() == r0 && final(self).cursor.depth == old(self).cursor.depth)
            }),
        decreases fuel, 1int,
    {
        let ghost r0 = old(self).remaining();
        let ghost of = option_free(*elem);
        let mv = self.unset_map_value();
        let expected: Option<Name> = if mv {
            let e = self.cursor.peek();
            let n = match &e {
                Event::StartElement { name, .. } => name.dup(),
                _ => {
                    return Err(Error::ExpectedElement);
                },
            };
            self.cursor.reset_peek();
            Some(n)
        } else {
            None
        };
        let ghost hyp_mv = old(self).is_map_value && old(self).cursor.peek_pos == 0 && old(self).cursor.reset_peek_offset == 0 && r0.len() >= 1 && start_name(r0[0]) is Some;
        let ghost hyp_end = !old(self).is_map_value && old(self).cursor.peek_pos == 0 && old(self).cursor.reset_peek_offset == 0 && (r0.len() == 0 || r0[0] is EndElement || r0[0] is EndDocument);
        let mut out: Vec<Value> = Vec::new();
        let mut steps: u128 = self.cursor.events.len() as u128 + 2;
        proof {
            assert(!(old(self).is_map_value && old(self).cursor.peek_pos == 0 && r0.len() >= 1
                && start_name(r0[0]) is None));
        }
        loop
            invariant
                self.wf(),
                of ==> self.cursor.depth == old(self).cursor.depth,
                of == option_free(*elem),
                fuel >= 1,
                r0 == old(self).remaining(),
                !(old(self).is_map_value && old(self).cursor.peek_pos == 0 && r0.len() >= 1
                    && start_name(r0[0]) is None),
                hyp_mv == (old(self).is_map_value && old(self).cursor.peek_pos == 0 && old(self).cursor.reset_peek_offset == 0 && r0.len() >= 1 && start_name(r0[0]) is Some),
                hyp_end == (!old(self).is_map_value && old(self).cursor.peek_pos == 0 && old(self).cursor.reset_peek_offset == 0 && (r0.len() == 0 || r0[0] is EndElement || r0[0]
                    is EndDocument)),
                hyp_mv ==> (out@.len() >= 1 || (self.remaining() == r0 && self.cursor.peek_pos
                    == 0 && self.cursor.reset_peek_offset == 0 && (expected matches Some(nm)
                    && nm@.qkey() == start_name(r0[0]).unwrap().qkey()))),
                hyp_end ==> (self.remaining() == r0 && self.cursor.peek_pos == 0
                    && self.cursor.reset_peek_offset == 0 && expected is None
                    && self.cursor.depth == old(self).cursor.depth
                    && steps == r0.len() + 2 && out@.len() == 0),
            decreases steps,
        {
            if steps == 0 {
                return Err(Error::Custom(String::from_str("sequence did not advance")));
            }
            steps = steps - 1;
            let e = self.cursor.peek();
            let more = match (&e, &expected) {
                (Event::StartElement { name, .. }, Some(exp)) => qname_eq(name, exp),
                (Event::EndElement { .. }, None) => false,
                (Event::EndDocument, _) => false,
                (_, Some(_)) => false,
                (_, None) => true,
            };
            proof {
                if hyp_end {
                    assert(!more);
                }
                if hyp_mv && out@.len() == 0 {
                    assert(e@ == r0[0]);
                    assert(more);
                }
            }
            self.cursor.reset_peek();
            if more {
                if expected.is_some() {
                    self.set_map_value();
                }
                self.set_seq_value();
                match self.decode_value(elem, fuel - 1) {
                    Ok(v) => out.push(v),
                    Err(e) => {
                        return Err(e);
                    },
                }
            } else {
                return Ok(out);
            }
        }
    }

    /// Drives one tuple: exactly as many elements as the tuple has
    /// parts, each with its own shape; a sequence that ends early is an
    /// error, and trailing siblings are left for the enclosing body.
    fn decode_tuple_items(&mut self, shapes: &Vec<Shape>, fuel: u64) -> (r: Result<
        Vec<Value>,
        Error,
    >)
        requires
            old(self).wf(),
            fuel >= 1,
        ensures
            final(self).wf(),
            (r is Ok && option_free_all(shapes@, shapes@.len() as int)) ==> final(self).cursor.depth == old(self).cursor.depth,
            r matches Ok(out) ==> out@.len() == shapes@.len(),
            (!old(self).is_map_value && shapes@.len() == 0) ==> (r matches Ok(out) && final(self).remaining() == old(self).remaining() && final(self).cursor.depth == old(self).cursor.depth),
        decreases fuel, 1int,
    {
        let ghost of = option_free_all(shapes@, shapes@.len() as int);
        let mv = self.unset_map_value();
        let expected: Option<Name> = if mv {
            let e = self.cursor.peek();
            let n = match &e {
                Event::StartElement { name, .. } => name.dup(),
                _ => {
                    return Err(Error::ExpectedElement);
                },
            };
            self.cursor.reset_peek();
            Some(n)
        } else {
            None
        };
        let mut out: Vec<Value> = Vec::new();
        let mut i: usize = 0;
        while i < shapes.len()
            invariant
                self.wf(),
                0 <= i <= shapes@.len(),
                of ==> self.cursor.depth == old(self).cursor.depth,
                of == option_free_all(shapes@, shapes@.len() as int),
                fuel >= 1,
                out@.len() == i as int,
                (!old(self).is_map_value && shapes@.len() == 0) ==> (self.remaining() == old(self).remaining() && self.cursor.depth == old(self).cursor.depth),
            decreases shapes@.len() - i,
        {
            let e = self.cursor.peek();
            let more = match (&e, &expected) {
                (Event::StartElement { name, .. }, Some(exp)) => qname_eq(name, exp),
                (Event::EndElement { .. }, None) => false,
                (Event::EndDocument, _) => false,
                (_, Some(_)) => false,
                (_, None) => true,
            };
            self.cursor.reset_peek();
            if !more {
                return Err(Error::Custom(String::from_str("tuple ended early")));
            }
            if expected.is_some() {
                self.set_map_value();
            }
            self.set_seq_value();
            proof {
                if of {
                    lemma_option_free_at(shapes@, shapes@.len() as int, i as int);
                }
            }
            match self.decode_value(&shapes[i], fuel - 1) {
                Ok(v) => out.push(v),
                Err(e) => {
                    return Err(e);
                },
            }
            i = i + 1;
        }
        Ok(out)
    }

    /// Decodes an optional value: a peeked start element with
    /// attributes is always present; an immediately closing element is
    /// absent and the wrapper (if any) is consumed; anything else is
    /// present.
    fn decode_option(&mut self, inner: &Shape, fuel: u64) -> (r: Result<Value, Error>)
        requires
            old(self).wf(),
            fuel >= 1,
        ensures
            final(self).wf(),
            r matches Ok(v) ==> (v is Present || v is Absent),
            ({
                let r0 = old(self).remaining();
                (old(self).is_map_value && old(self).cursor.peek_pos == 0 && r0.len() >= 2
                    && start_attrs(r0[0]) == Some(Seq::<crate::events::AttributeV>::empty())
                    && r0[1] is EndElement) ==> (r == Ok::<Value, Error>(Value::Absent) && final(self).remaining() == r0.skip(2) && final(self).cursor.depth == old(self).cursor.depth)
            }),
            ({
                let r0 = old(self).remaining();
                (old(self).is_map_value && old(self).cursor.peek_pos == 0 && r0.len() >= 1
                    && start_name(r0[0]) is Some && start_attrs(r0[0]) != Some(Seq::<crate::events::AttributeV>::empty())) ==> (r matches Ok(v) ==> v is Present)
            }),
            ({
                let r0 = old(self).remaining();
                (old(self).is_map_value && old(self).cursor.peek_pos == 0 && r0.len() >= 2
                    && start_name(r0[0]) is Some && !(r0[1] is EndElement)) ==> (r matches Ok(v)
                    ==> v is Present)
            }),
            ({
                let r0 = old(self).remaining();
                (!old(self).is_map_value && old(self).cursor.peek_pos == 0 && r0.len() >= 1 && !(
                r0[0] is EndElement)) ==> (r matches Ok(v) ==> v is Present)
            }),
            ({
                let r0 = old(self).remaining();
                (!old(self).is_map_value && old(self).cursor.peek_pos == 0 && r0.len() >= 1
                    && r0[0] is EndElement && old(self).cursor.depth >= 1) ==> (r == Ok::<Value, Error>(Value::Absent) && final(self).remaining() == r0.skip(1) && final(self).cursor.depth == old(self).cursor.depth - 1)
            }),
        decreases fuel, 2int,
    {
        if self.is_map_value {
            let e = self.cursor.peek();
            let has_attrs = match &e {
                Event::StartElement { attributes, .. } => {
                    proof {
                        assert(start_attrs(e@) == Some(
                            attributes@.map_values(|a: crate::events::Attribute| a@),
                        ));
                        assert(attributes@.map_values(|a: crate::events::Attribute| a@).len()
                            == attributes@.len());
                        if attributes@.len() == 0 {
                            assert(attributes@.map_values(|a: crate::events::Attribute| a@)
                                =~= Seq::<crate::events::AttributeV>::empty());
                        }
                    }
                    attributes.len() > 0
                },
                _ => false,
            };
            if has_attrs {
                self.cursor.reset_peek();
                return match self.decode_value(inner, fuel - 1) {
                    Ok(v) => Ok(Value::Present(Box::new(v))),
                    Err(e) => Err(e),
                };
            }
        }
        let e2 = self.cursor.peek();
        let is_end = match &e2 {
            Event::EndElement { .. } => true,
            _ => false,
        };
        if is_end {
            if self.unset_map_value() {
                match self.cursor.next() {
                    Ok(_) => {},
                    Err(e) => {
                        return Err(e);
                    },
                }
            }
            match self.cursor.next() {
                Ok(_) => {},
                Err(e) => {
                    return Err(e);
                },
            }
            proof {
                let r0 = old(self).remaining();
                if r0.len() >= 1 {
                    assert(r0.drop_first() =~= r0.skip(1));
                }
                if r0.len() >= 2 {
                    assert(r0.drop_first().drop_first() =~= r0.skip(2));
                }
            }
            Ok(Value::Absent)
        } else {
            self.cursor.reset_peek();
            match self.decode_value(inner, fuel - 1) {
                Ok(v) => Ok(Value::Present(Box::new(v))),
                Err(e) => Err(e),
            }
        }
    }

    /// Resolves the dynamic shape: inside a map value (and not already
    /// inside a sequence element), bounded lookahead walks past the
    /// current element without consuming it; when the next sibling
    /// carries the same qualified name the repetition is read as an
    /// implicit sequence. Otherwise character data becomes text and
    /// anything else becomes a map of synthetic names.
    fn decode_any(&mut self, fuel: u64) -> (r: Result<Value, Error>)
        requires
            old(self).wf(),
            fuel >= 1,
        ensures
            final(self).wf(),
            r is Ok ==> final(self).cursor.depth == old(self).cursor.depth,
            r matches Ok(v) ==> (v is Text || v is Items || v is Pairs),
            ({
                let r0 = old(self).remaining();
                (!old(self).is_map_value && old(self).cursor.peek_pos == 0 && r0.len() >= 1
                    && text_of(r0[0]) is Some) ==> (r matches Ok(v) && (v matches Value::Text(s)
                    && s@ == text_of(r0[0]).unwrap()) && final(self).remaining() == r0.skip(1))
            }),
            ({
                let r0 = old(self).remaining();
                (any_scalar_shape(*old(self), r0) && (r0.len() == 3 || start_name(r0[3]) is None
                    || start_name(r0[3]).unwrap().qkey() != start_name(r0[0]).unwrap().qkey()))
                    ==> (r matches Ok(v) && (v matches Value::Text(s) && s@ == text_of(r0[1]).unwrap()) && final(self).remaining() == r0.skip(3))
            }),
            ({
                let r0 = old(self).remaining();
                (any_scalar_shape(*old(self), r0) && r0.len() >= 4 && start_name(r0[3]) is Some
                    && start_name(r0[3]).unwrap().qkey() == start_name(r0[0]).unwrap().qkey()) ==> (r matches Ok(v) ==> v is Items)
            }),
        decreases fuel, 2int,
    {
        let ghost r0 = old(self).remaining();
        let ghost canon = any_scalar_shape(*old(self), r0);
        proof {
            if canon {
                assert(delta_sum(r0, 1) == delta_sum(r0, 0) + depth_delta(r0[0]));
                assert(delta_sum(r0, 2) == delta_sum(r0, 1) + depth_delta(r0[1]));
                assert(delta_sum(r0, 3) == delta_sum(r0, 2) + depth_delta(r0[2]));
                assert(is_skip_len(r0, 3)) by {
                    assert(delta_sum(r0, 1) == 1);
                    assert(delta_sum(r0, 2) == 1);
                    assert(delta_sum(r0, 3) == 0);
                }
            }
        }
        if self.is_map_value {
            let sv = self.unset_seq_value();
            if !sv {
                self.cursor.reset_peek();
                let e = self.cursor.peek();
                let name1_opt: Option<Name> = match &e {
                    Event::StartElement { name, .. } => Some(name.dup()),
                    _ => None,
                };
                match name1_opt {
                    Some(name1) => {
                        self.cursor.reset_peek();
                        self.set_not_greedy();
                        let ghost pre = *self;
                        match self.step_over() {
                            Ok(u) => {},
                            Err(e) => {
                                proof {
                                    if canon {
                                        let w = pre.remaining().skip(pre.cursor.peek_pos as int);
                                        assert(w =~= r0);
                                        assert(is_skip_len(w, 3));
                                        assert(pre.cursor.reset_peek_offset + 3 <= usize::MAX);
                                        assert(exists|k: int|
                                            is_skip_len(w, k) && pre.cursor.reset_peek_offset + k
                                                <= usize::MAX);
                                        assert(false);
                                    }
                                }
                                return Err(e);
                            },
                        }
                        proof {
                            if canon {
                                assert(r0.skip(0) =~= r0);
                                let k = choose|k: int|
                                    is_skip_len(r0, k) && self.cursor.peek_pos == k
                                        && self.cursor.reset_peek_offset == k;
                                assert(is_skip_len(r0, 3));
                                if k < 3 {
                                    assert(delta_sum(r0, k) != 0);
                                } else if k > 3 {
                                    assert(delta_sum(r0, 3) != 0);
                                }
                                assert(k == 3);
                                assert(self.cursor.peek_pos == 3);
                            }
                        }
                        self.cursor.reset_peek_offset = 0;
                        let e2 = self.cursor.peek();
                        proof {
                            if canon {
                                if r0.len() > 3 {
                                    assert(e2@ == r0[3]);
                                } else {
                                    assert(e2@ == EventV::EndDocument);
                                }
                            }
                        }
                        let is_seq = match &e2 {
                            Event::StartElement { name, .. } => qname_eq(&name1, name),
                            _ => false,
                        };
                        proof {
                            if canon && r0.len() >= 4 && start_name(r0[3]) is Some && start_name(r0[3]).unwrap().qkey() == start_name(r0[0]).unwrap().qkey() {
                                assert(is_seq);
                            }
                            if canon && (r0.len() == 3 || start_name(r0[3]) is None || start_name(r0[3]).unwrap().qkey() != start_name(r0[0]).unwrap().qkey()) {
                                assert(!is_seq);
                            }
                        }
                        if is_seq {
                            self.cursor.reset_peek_offset = 0;
                            self.cursor.reset_peek();
                            self.set_map_value();
                            let elem = Shape::Dynamic;
                            return match self.decode_seq_items(&elem, fuel) {
                                Ok(items) => Ok(Value::Items(items)),
                                Err(e) => Err(e),
                            };
                        }
                    },
                    None => {},
                }
            }
        }
        let is_map = self.is_map_value;
        let save_greedy = self.is_greedy;
        let mv = self.unset_map_value();
        let empty_decls: Vec<String> = Vec::new();
        let empty_shapes: Vec<Shape> = Vec::new();
        let dynamic = Shape::Dynamic;
        let out: Result<Value, Error> = if mv {
            match self.cursor.next() {
                Ok(ev) => match ev {
                    Event::StartElement { name, attributes, .. } => {
                        let e = self.cursor.peek();
                        let is_text = match &e {
                            Event::Characters(_) => true,
                            Event::CData(_) => true,
                            _ => false,
                        };
                        let body: Result<Value, Error> = if is_text {
                            match self.cursor.next() {
                                Ok(tev) => match tev {
                                    Event::Characters(t) => Ok(Value::Text(t)),
                                    Event::CData(t) => Ok(Value::Text(t)),
                                    _ => Err(Error::ExpectedString),
                                },
                                Err(e) => Err(e),
                            }
                        } else {
                            self.cursor.reset_peek();
                            match self.decode_pairs(
                                &empty_decls,
                                &empty_shapes,
                                &dynamic,
                                true,
                                attributes,
                                fuel,
                            ) {
                                Ok(pairs) => Ok(Value::Pairs(pairs)),
                                Err(e) => Err(e),
                            }
                        };
                        match body {
                            Ok(v) => match self.expect_end_element(&name) {
                                Ok(u) => Ok(v),
                                Err(e) => Err(e),
                            },
                            Err(e) => Err(e),
                        }
                    },
                    _ => Err(Error::ExpectedElement),
                },
                Err(e) => Err(e),
            }
        } else {
            let e = self.cursor.peek();
            let is_text = match &e {
                Event::Characters(_) => true,
                Event::CData(_) => true,
                _ => false,
            };
            if is_text {
                match self.cursor.next() {
                    Ok(tev) => match tev {
                        Event::Characters(t) => Ok(Value::Text(t)),
                        Event::CData(t) => Ok(Value::Text(t)),
                        _ => Err(Error::ExpectedString),
                    },
                    Err(e) => Err(e),
                }
            } else {
                match self.cursor.next() {
                    Ok(ev) => match ev {
                        Event::StartElement { name, .. } => {
                            match self.decode_pairs(
                                &empty_decls,
                                &empty_shapes,
                                &dynamic,
                                true,
                                Vec::new(),
                                fuel,
                            ) {
                                Ok(pairs) => match self.expect_end_element(&name) {
                                    Ok(u) => Ok(Value::Pairs(pairs)),
                                    Err(e) => Err(e),
                                },
                                Err(e) => Err(e),
                            }
                        },
                        _ => Err(Error::ExpectedElement),
                    },
                    Err(e) => Err(e),
                }
            }
        };
        self.is_greedy = save_greedy;
        proof {
            if r0.len() >= 3 {
                assert(r0.drop_first().drop_first().drop_first() =~= r0.skip(3));
            }
        }
        out
    }

    /// Decodes one value of the given shape from the event stream,
    /// dispatching on the shape as the visitor protocol would.
    #[verifier::rlimit(100)]
    fn decode_value(&mut self, shape: &Shape, fuel: u64) -> (r: Result<Value, Error>)
        requires
            old(self).wf(),
        ensures
            final(self).wf(),
            (r is Ok && option_free(*shape)) ==> final(self).cursor.depth == old(self).cursor.depth,
            (fuel >= 1 && *shape is Unit) ==> (r == Ok::<Value, Error>(Value::Unit) && *final(self)
                == *old(self)),
            (fuel >= 1 && (*shape is Sequence || *shape is Tuple) && r is Ok) ==> !final(self).is_seq_value,
            (fuel >= 1 && *shape is Bytes) ==> ((r matches Err(e) && e is Unsupported) && *final(self) == *old(self)),
            ({
                let r0 = old(self).remaining();
                (fuel >= 1 && *shape is Text && old(self).is_map_value && r0.len() >= 3
                    && start_name(r0[0]) is Some && text_of(r0[1]) is Some && is_end_matching(r0[2], start_name(r0[0]).unwrap())) ==> (r matches Ok(v) && (v matches Value::Text(s) && s@ == text_of(r0[1]).unwrap()) && final(self).remaining() == r0.skip(3)
                    && final(self).cursor.peek_pos == 0 && final(self).cursor.reset_peek_offset
                    == old(self).cursor.reset_peek_offset && !final(self).is_map_value && !final(self).is_value)
            }),
            ({
                let r0 = old(self).remaining();
                (fuel >= 1 && *shape is Boolean && old(self).is_map_value && r0.len() >= 3
                    && start_name(r0[0]) is Some && text_of(r0[1]) is Some && is_end_matching(r0[2], start_name(r0[0]).unwrap())) ==> {
                    let t = text_of(r0[1]).unwrap();
                    &&& crate::text::truthy(t) ==> (r == Ok::<Value, Error>(Value::Boolean(true))
                        && final(self).remaining() == r0.skip(3))
                    &&& (crate::text::falsy(t) && !crate::text::truthy(t)) ==> (r == Ok::<Value, Error>(Value::Boolean(false)) && final(self).remaining() == r0.skip(3))
                    &&& (!crate::text::truthy(t) && !crate::text::falsy(t)) ==> (r matches Err(e)
                        && e is ExpectedBool)
                }
            }),
            flat_record_decode(*old(self), *shape, fuel, r, *final(self)),
        decreases fuel, 3int,
    {
        proof {
            reveal(flat_record_decode);
        }
        if fuel == 0 {
            return Err(Error::Custom(String::from_str("nesting deeper than the input allows")));
        }
        let out: Result<Value, Error> = match shape {
            Shape::Boolean => match self.parse_bool() {
                Ok(b) => Ok(Value::Boolean(b)),
                Err(e) => Err(e),
            },
            Shape::Int8 => match self.parse_signed() {
                Ok(v) => if v >= -128 && v <= 127 {
                    Ok(Value::Signed(v))
                } else {
                    Err(Error::ExpectedInt)
                },
                Err(e) => Err(e),
            },
            Shape::Int16 => match self.parse_signed() {
                Ok(v) => if v >= -32768 && v <= 32767 {
                    Ok(Value::Signed(v))
                } else {
                    Err(Error::ExpectedInt)
                },
                Err(e) => Err(e),
            },
            Shape::Int32 => match self.parse_signed() {
                Ok(v) => if v >= -2147483648 && v <= 2147483647 {
                    Ok(Value::Signed(v))
                } else {
                    Err(Error::ExpectedInt)
                },
                Err(e) => Err(e),
            },
            Shape::Int64 => match self.parse_signed() {
                Ok(v) => Ok(Value::Signed(v)),
                Err(e) => Err(e),
            },
            Shape::UInt8 => match self.parse_unsigned() {
                Ok(v) => if v <= 255 {
                    Ok(Value::Unsigned(v))
                } else {
                    Err(Error::ExpectedInt)
                },
                Err(e) => Err(e),
            },
            Shape::UInt16 => match self.parse_unsigned() {
                Ok(v) => if v <= 65535 {
                    Ok(Value::Unsigned(v))
                } else {
                    Err(Error::ExpectedInt)
                },
                Err(e) => Err(e),
            },
            Shape::UInt32 => match self.parse_unsigned() {
                Ok(v) => if v <= 4294967295 {
                    Ok(Value::Unsigned(v))
                } else {
                    Err(Error::ExpectedInt)
                },
                Err(e) => Err(e),
            },
            Shape::UInt64 => match self.parse_unsigned() {
                Ok(v) => Ok(Value::Unsigned(v)),
                Err(e) => Err(e),
            },
            Shape::Character => match self.parse_character() {
                Ok(c) => Ok(Value::Character(c)),
                Err(e) => Err(e),
            },
            Shape::Text => match self.parse_string() {
                Ok(s) => Ok(Value::Text(s)),
                Err(e) => Err(e),
            },
            Shape::Bytes => Err(Error::Unsupported),
            Shape::Unit => Ok(Value::Unit),
            Shape::Newtype(b) => self.decode_value(b, fuel - 1),
            Shape::Optional(b) => self.decode_option(b, fuel),
            Shape::Sequence(b) => match self.decode_seq_items(b, fuel) {
                Ok(items) => {
                    self.unset_seq_value();
                    Ok(Value::Items(items))
                },
                Err(e) => Err(e),
            },
            Shape::Tuple(shapes) => match self.decode_tuple_items(shapes, fuel) {
                Ok(items) => {
                    self.unset_seq_value();
                    Ok(Value::Items(items))
                },
                Err(e) => Err(e),
            },
            Shape::Mapping(b) => {
                let empty_decls: Vec<String> = Vec::new();
                let empty_shapes: Vec<Shape> = Vec::new();
                let save_greedy = self.is_greedy;
                let mv = self.unset_map_value();
                let out: Result<Value, Error> = if mv {
                    match self.cursor.next() {
                        Ok(ev) => match ev {
                            Event::StartElement { name, attributes, .. } => {
                                match self.decode_pairs(
                                    &empty_decls,
                                    &empty_shapes,
                                    b,
                                    true,
                                    attributes,
                                    fuel,
                                ) {
                                    Ok(pairs) => match self.expect_end_element(&name) {
                                        Ok(u) => Ok(Value::Pairs(pairs)),
                                        Err(e) => Err(e),
                                    },
                                    Err(e) => Err(e),
                                }
                            },
                            _ => Err(Error::ExpectedElement),
                        },
                        Err(e) => Err(e),
                    }
                } else {
                    match self.decode_pairs(
                        &empty_decls,
                        &empty_shapes,
                        b,
                        true,
                        Vec::new(),
                        fuel,
                    ) {
                        Ok(pairs) => Ok(Value::Pairs(pairs)),
                        Err(e) => Err(e),
                    }
                };
                self.is_greedy = save_greedy;
                out
            },
            Shape::Record { fields, shapes } => {
                let ghost r0 = old(self).remaining();
                let dummy = Shape::Ignored;
                let save_greedy = self.is_greedy;
                let mv = self.unset_map_value();
                let out: Result<Value, Error> = if mv {
                    match self.cursor.next() {
                        Ok(ev) => match ev {
                            Event::StartElement { name, attributes, namespaces } => {
                                proof {
                                    assert(start_attrs(r0[0]) == Some(
                                        attributes@.map_values(|a: crate::events::Attribute| a@),
                                    ));
                                    assert(attributes@.map_values(
                                        |a: crate::events::Attribute| a@,
                                    ).len() == attributes@.len());
                                    if start_attrs(r0[0]) == Some(
                                        Seq::<crate::events::AttributeV>::empty(),
                                    ) {
                                        assert(attributes@.len() == 0);
                                    }
                                    assert(r0.drop_first() =~= r0.skip(1));
                                }
                                match self.decode_pairs(
                                    fields,
                                    shapes,
                                    &dummy,
                                    false,
                                    attributes,
                                    fuel,
                                ) {
                                    Ok(pairs) => match self.expect_end_element(&name) {
                                        Ok(u) => Ok(Value::Pairs(pairs)),
                                        Err(e) => Err(e),
                                    },
                                    Err(e) => Err(e),
                                }
                            },
                            _ => Err(Error::ExpectedElement),
                        },
                        Err(e) => Err(e),
                    }
                } else {
                    match self.decode_pairs(fields, shapes, &dummy, false, Vec::new(), fuel) {
                        Ok(pairs) => Ok(Value::Pairs(pairs)),
                        Err(e) => Err(e),
                    }
                };
                self.is_greedy = save_greedy;
                out
            },
            Shape::Choice { variants, payloads } => {
                if self.unset_is_value() {
                    self.decode_variant(variants, payloads, fuel)
                } else {
                    let save_greedy = self.is_greedy;
                    let mv = self.unset_map_value();
                    let out: Result<Value, Error> = if mv {
                        match self.cursor.next() {
                            Ok(ev) => match ev {
                                Event::StartElement { name, .. } => {
                                    match self.decode_variant(variants, payloads, fuel) {
                                        Ok(v) => match self.expect_end_element(&name) {
                                            Ok(u) => Ok(v),
                                            Err(e) => Err(e),
                                        },
                                        Err(e) => Err(e),
                                    }
                                },
                                _ => Err(Error::ExpectedElement),
                            },
                            Err(e) => Err(e),
                        }
                    } else {
                        self.decode_variant(variants, payloads, fuel)
                    };
                    self.is_greedy = save_greedy;
                    out
                }
            },
            Shape::Dynamic => self.decode_any(fuel),
            Shape::Ignored => match self.step_over() {
                Ok(u) => Ok(Value::Unit),
                Err(e) => Err(e),
            },
        };
        proof {
            reveal(flat_record_decode);
            let r0 = old(self).remaining();
            if r0.len() >= 2 {
                let n = leading_text_fields(r0.skip(1)).len() as int;
                if 1 + 3 * n < r0.len() {
                    assert(r0.skip(1).skip(3 * n) =~= r0.skip(1 + 3 * n));
                    assert(r0.skip(1 + 3 * n).drop_first() =~= r0.skip(2 + 3 * n));
                }
            }
        }
        out
    }

    /// Resolves and decodes one variant of a tagged alternative.
    fn decode_variant(&mut self, variants: &Vec<String>, payloads: &Vec<Shape>, fuel: u64) -> (r:
        Result<Value, Error>)
        requires
            old(self).wf(),
            fuel >= 1,
        ensures
            final(self).wf(),
            (r is Ok && option_free_all(payloads@, payloads@.len() as int)) ==> final(self).cursor.depth == old(self).cursor.depth,
            r matches Ok(v) ==> v is Choice,
            ({
                let r0 = old(self).remaining();
                let t0 = crate::fields::table_spec(crate::fields::decl_views(variants@));
                (old(self).cursor.peek_pos == 0 && r0.len() >= 1 && text_of(r0[0]) is Some && t0
                    is Some && (exists|i: int|
                    first_decl_at(variants@, text_of(r0[0]).unwrap(), i) && i < payloads@.len()
                        && payloads@[i] is Unit)) ==> (r matches Ok(v) && (v matches Value::Choice(nm, p) && nm@ == text_of(r0[0]).unwrap() && *p == Value::Unit) && final(self).remaining() == r0.skip(1) && final(self).cursor.depth == old(self).cursor.depth)
            }),
        decreases fuel, 2int,
    {
        let ghost r0 = old(self).remaining();
        let ghost t0 = crate::fields::table_spec(crate::fields::decl_views(variants@));
        let ghost hyp_txt = old(self).cursor.peek_pos == 0 && r0.len() >= 1 && text_of(r0[0])
            is Some && t0 is Some && (exists|i: int|
            first_decl_at(variants@, text_of(r0[0]).unwrap(), i) && i < payloads@.len()
                && payloads@[i] is Unit);
        let ghost ih: int = if hyp_txt {
            choose|i: int|
                first_decl_at(variants@, text_of(r0[0]).unwrap(), i) && i < payloads@.len()
                    && payloads@[i] is Unit
        } else {
            0
        };
        let ghost of = option_free_all(payloads@, payloads@.len() as int);
        let mut en = match Enum::new(self, variants) {
            Ok(en) => en,
            Err(e) => {
                proof {
                    if hyp_txt {
                        assert(false);
                    }
                }
                return Err(e);
            },
        };
        let vname = match en.variant_seed(self) {
            Ok(n) => n,
            Err(e) => {
                proof {
                    if hyp_txt {
                        assert(false);
                    }
                }
                return Err(e);
            },
        };
        let idx = match find_decl(variants, &vname) {
            Some(i) => i,
            None => {
                proof {
                    if hyp_txt {
                        assert((variants@[ih])@ == vname@);
                        assert(false);
                    }
                }
                return Err(Error::Custom(String::from_str("unknown variant")));
            },
        };
        proof {
            if hyp_txt {
                assert(first_decl_at(variants@, vname@, idx as int));
                assert(first_decl_at(variants@, vname@, ih));
                let ghost_idx: int = idx as int;
                if ghost_idx != ih {
                    if ghost_idx < ih {
                        assert((variants@[ghost_idx])@ != vname@);
                    } else {
                        assert((variants@[ih])@ != vname@);
                    }
                }
                assert(ghost_idx == ih);
                assert(idx as int == ih);
            }
        }
        if idx >= payloads.len() {
            proof {
                if hyp_txt {
                    assert(false);
                }
            }
            return Err(Error::Custom(String::from_str("unknown variant")));
        }
        let is_unit = match &payloads[idx] {
            Shape::Unit => true,
            _ => false,
        };
        if is_unit {
            match en.unit_variant(self) {
                Ok(u) => Ok(Value::Choice(vname, Box::new(Value::Unit))),
                Err(e) => Err(e),
            }
        } else {
            proof {
                if of {
                    lemma_option_free_at(payloads@, payloads@.len() as int, idx as int);
                }
            }
            match self.decode_value(&payloads[idx], fuel - 1) {
                Ok(v) => Ok(Value::Choice(vname, Box::new(v))),
                Err(e) => Err(e),
            }
        }
    }

    /// Decodes one value of `shape` from the front of the stream.
    /// Depth conservation: for a shape without optional components, a
    /// successful decode leaves the element depth exactly where it
    /// began - every element it opened has been closed.
    pub fn decode(&mut self, shape: &Shape) -> (r: Result<Value, Error>)
        requires
            old(self).wf(),
        ensures
            final(self).wf(),
            (r is Ok && option_free(*shape)) ==> final(self).cursor.depth == old(self).cursor.depth,
            *shape is Unit ==> (r == Ok::<Value, Error>(Value::Unit) && *final(self) == *old(self)),
            *shape is Bytes ==> ((r matches Err(e) && e is Unsupported) && *final(self) == *old(self)),
            ({
                let r0 = old(self).remaining();
                (*shape is Text && old(self).is_map_value && r0.len() >= 3 && start_name(r0[0])
                    is Some && text_of(r0[1]) is Some && is_end_matching(r0[2], start_name(r0[0]).unwrap())) ==> (r matches Ok(v) && (v matches Value::Text(s) && s@ == text_of(r0[1]).unwrap()) && final(self).remaining() == r0.skip(3))
            }),
            flat_record_decode(*old(self), *shape, 2, r, *final(self)),
    {
        proof {
            reveal(flat_record_decode);
        }
        let len = self.cursor.events.len();
        let fuel: u64 = if (len as u64) < 576460752303423487u64 {
            (len as u64) * 8 + 256
        } else {
            u64::MAX
        };
        self.decode_value(shape, fuel)
    }
}

/// Decodes a value of `shape` from a pre-collected event vector:
/// whitespace events are dropped, a leading start-of-document event is
/// skipped, and the drivers take over from there. The result is a
/// function of the filtered stream alone, so whitespace events and a
/// leading document start never change it.
pub fn from_events(events: Vec<Event>, shape: &Shape) -> (r: Result<Value, Error>)
    ensures
        ({
            let stream = crate::cursor::filtered(events@.map_values(|e: Event| e@), true);
            &&& stream.len() == 0 ==> (r matches Err(e) && e is ExpectedElement)
            &&& (stream.len() >= 1 && *shape is Unit) ==> r == Ok::<Value, Error>(Value::Unit)
            &&& (stream.len() >= 1 && *shape is Bytes) ==> (r matches Err(e) && e is Unsupported)
        }),
        ({
            let stream0 = crate::cursor::filtered(events@.map_values(|e: Event| e@), true);
            let stream = if stream0.len() >= 1 && stream0[0] is StartDocument {
                stream0.drop_first()
            } else {
                stream0
            };
            let ds = record_decls(*shape);
            let ss = record_shapes(*shape);
            let t0 = crate::fields::table_spec(crate::fields::decl_views(ds));
            (stream0.len() >= 1 && *shape is Record && flat_text_record(t0, stream, ds, ss))
                ==> flat_record_result(r, t0.unwrap(), stream)
        }),
{
    proof {
        reveal(flat_record_decode);
    }
    let mut de = Deserializer::new(events, true);
    if de.cursor.events.len() == 0 {
        return Err(Error::ExpectedElement);
    }
    let e = de.cursor.peek();
    let is_sd = match &e {
        Event::StartDocument => true,
        _ => false,
    };
    if is_sd {
        match de.cursor.next() {
            Ok(u) => {},
            Err(e) => {
                return Err(e);
            },
        }
    }
    de.cursor.reset_peek();
    de.decode(shape)
}

/// Decodes a value of `shape` from XML text: leading whitespace is
/// tolerated, the text is pull-parsed with whitespace trimmed to
/// character data and unknown entity references replaced, the
/// mandatory document start is consumed, and the drivers take over.
pub fn from_str(input: &str, shape: &Shape) -> (r: Result<Value, Error>)
    ensures
        ({
            let p = crate::xml_io::doc_events_of(
                input@.skip(crate::text::ws_prefix_len(input@)),
            );
            &&& p is None ==> (r matches Err(e) && e is ParserError)
            &&& match p {
                Some(evs) => {
                    let stream = crate::cursor::filtered(evs, false);
                    &&& (stream.len() == 0 || !(stream[0] is StartDocument)) ==> (r matches Err(e)
                        && e is ExpectedElement)
                    &&& (stream.len() >= 1 && stream[0] is StartDocument && *shape is Unit) ==> r
                        == Ok::<Value, Error>(Value::Unit)
                    &&& (stream.len() >= 1 && stream[0] is StartDocument && *shape is Bytes) ==> (r
                        matches Err(e) && e is Unsupported)
                },
                None => true,
            }
        }),
{
    let events = match crate::xml_io::parse_document(crate::text::skip_leading_ws(input)) {
        Ok(v) => v,
        Err(e) => {
            return Err(e);
        },
    };
    let mut de = Deserializer::new(events, false);
    let e = de.cursor.peek();
    let is_sd = match &e {
        Event::StartDocument => true,
        _ => false,
    };
    de.cursor.reset_peek();
    if !is_sd {
        return Err(Error::ExpectedElement);
    }
    match de.cursor.next() {
        Ok(u) => {},
        Err(e) => {
            return Err(e);
        },
    }
    de.decode(shape)
}

/// As `from_str`, for an owned string.
pub fn from_string(input: String, shape: &Shape) -> (r: Result<Value, Error>)
    ensures
        ({
            let p = crate::xml_io::doc_events_of(
                input@.skip(crate::text::ws_prefix_len(input@)),
            );
            p is None ==> (r matches Err(e) && e is ParserError)
        }),
{
    from_str(input.as_str(), shape)
}

} // verus!
