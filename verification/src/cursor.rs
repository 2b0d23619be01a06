use vstd::prelude::*;

use crate::error::Error;
use crate::events::{depth_delta, Event, EventV};

verus! {

/// Whether the cursor lets an event through to the drivers. Processing
/// instructions are always discarded; whitespace events are discarded
/// when the stream comes pre-collected from an event vector.
pub open spec fn keep_event(e: EventV, drop_whitespace: bool) -> bool {
    match e {
        EventV::ProcessingInstruction => false,
        EventV::Whitespace(_) => !drop_whitespace,
        _ => true,
    }
}

/// The events the cursor lets through, in order.
pub open spec fn filtered(s: Seq<EventV>, drop_whitespace: bool) -> Seq<EventV>
    decreases s.len(),
{
    if s.len() == 0 {
        Seq::empty()
    } else {
        let rest = filtered(s.drop_first(), drop_whitespace);
        if keep_event(s.first(), drop_whitespace) {
            seq![s.first()] + rest
        } else {
            rest
        }
    }
}

/// The multi-peek adapter over the event stream. `events` holds the
/// not-yet-consumed events; `peek_pos` is the lookahead pointer within
/// them; `depth` counts elements opened and not yet closed by consumed
/// events; `reset_peek_offset` is how many peeks `reset_peek` re-applies
/// so that stacked lookahead does not lose its place.
pub struct Cursor {
    pub events: Vec<Event>,
    pub peek_pos: usize,
    pub depth: usize,
    pub reset_peek_offset: usize,
    pub init_len: Ghost<nat>,
}

impl Cursor {
    /// The unconsumed events, as their mathematical images.
    pub open spec fn remaining(self) -> Seq<EventV> {
        self.events@.map_values(|e: Event| e@)
    }

    pub open spec fn wf(self) -> bool {
        &&& self.peek_pos <= self.events@.len()
        &&& self.depth + self.events@.len() <= self.init_len@
        &&& self.init_len@ <= usize::MAX
    }

    /// The event the next `peek` returns: the event under the lookahead
    /// pointer, or the end of the document once the pointer has passed
    /// every event.
    pub open spec fn peeked_at(self) -> EventV {
        if self.peek_pos < self.remaining().len() {
            self.remaining()[self.peek_pos as int]
        } else {
            EventV::EndDocument
        }
    }

    /// Builds a cursor over the given events, discarding what
    /// `keep_event` refuses.
    pub fn new(events: Vec<Event>, drop_whitespace: bool) -> (c: Cursor)
        ensures
            c.wf(),
            c.remaining() == filtered(events@.map_values(|e: Event| e@), drop_whitespace),
            c.depth == 0,
            c.peek_pos == 0,
            c.reset_peek_offset == 0,
    {
        let ghost orig = events@.map_values(|e: Event| e@);
        let mut events = events;
        let mut kept: Vec<Event> = Vec::new();
        while events.len() > 0
            invariant
                filtered(orig, drop_whitespace) == kept@.map_values(|e: Event| e@) + filtered(
                    events@.map_values(|e: Event| e@),
                    drop_whitespace,
                ),
            decreases events.len(),
        {
            let ghost pre = events@.map_values(|e: Event| e@);
            let e = events.remove(0);
            proof {
                assert(pre.first() == e@);
                assert(pre.drop_first() =~= events@.map_values(|ev: Event| ev@));
            }
            let keep = match &e {
                Event::ProcessingInstruction => false,
                Event::Whitespace(_) => !drop_whitespace,
                _ => true,
            };
            if keep {
                let ghost kv = kept@.map_values(|ev: Event| ev@);
                kept.push(e);
                proof {
                    assert(kept@.map_values(|ev: Event| ev@) =~= kv.push(pre.first()));
                    assert(kv.push(pre.first()) + filtered(pre.drop_first(), drop_whitespace)
                        =~= kv + (seq![pre.first()] + filtered(pre.drop_first(), drop_whitespace)));
                }
            }
        }
        proof {
            assert(filtered(events@.map_values(|e: Event| e@), drop_whitespace)
                =~= Seq::<EventV>::empty());
            assert(kept@.map_values(|e: Event| e@) + Seq::<EventV>::empty()
                =~= kept@.map_values(|e: Event| e@));
        }
        let n = kept.len();
        let c = Cursor {
            events: kept,
            peek_pos: 0,
            depth: 0,
            reset_peek_offset: 0,
            init_len: Ghost(n as nat),
        };
        c
    }

    /// Returns the next lookahead event without consuming anything, and
    /// advances the lookahead pointer, so that successive peeks see
    /// successive future events. Past the end of the stream it reports
    /// the end of the document. Peeking never changes the depth.
    pub fn peek(&mut self) -> (e: Event)
        requires
            old(self).wf(),
        ensures
            final(self).wf(),
            e@ == old(self).peeked_at(),
            final(self).remaining() == old(self).remaining(),
            final(self).depth == old(self).depth,
            final(self).reset_peek_offset == old(self).reset_peek_offset,
            final(self).peek_pos == if old(self).peek_pos < old(self).remaining().len() {
                old(self).peek_pos + 1
            } else {
                old(self).peek_pos as int
            },
    {
        if self.peek_pos < self.events.len() {
            let e = self.events[self.peek_pos].dup();
            self.peek_pos = self.peek_pos + 1;
            e
        } else {
            Event::EndDocument
        }
    }

    /// Rewinds the lookahead pointer to the first unconsumed event and
    /// re-applies `reset_peek_offset` peeks, so a caller that skipped
    /// ahead on purpose keeps its position.
    pub fn reset_peek(&mut self)
        requires
            old(self).wf(),
        ensures
            final(self).wf(),
            final(self).remaining() == old(self).remaining(),
            final(self).depth == old(self).depth,
            final(self).reset_peek_offset == old(self).reset_peek_offset,
            final(self).peek_pos == if old(self).reset_peek_offset <= old(
                self,
            ).remaining().len() {
                old(self).reset_peek_offset as int
            } else {
                old(self).remaining().len() as int
            },
    {
        if self.reset_peek_offset <= self.events.len() {
            self.peek_pos = self.reset_peek_offset;
        } else {
            self.peek_pos = self.events.len();
        }
    }

    /// Consumes one event: the depth rises on a start element and falls
    /// on an end element, and the lookahead pointer rewinds to the new
    /// front of the stream. Consuming fails on an exhausted stream, and
    /// on an end element that closes more elements than were opened.
    pub fn next(&mut self) -> (r: Result<Event, Error>)
        requires
            old(self).wf(),
        ensures
            final(self).wf(),
            final(self).reset_peek_offset == old(self).reset_peek_offset,
            match r {
                Ok(e) => {
                    &&& old(self).remaining().len() > 0
                    &&& e@ == old(self).remaining()[0]
                    &&& old(self).depth + depth_delta(e@) >= 0
                    &&& final(self).remaining() == old(self).remaining().drop_first()
                    &&& final(self).depth == old(self).depth + depth_delta(e@)
                    &&& final(self).peek_pos == 0
                },
                Err(e) => {
                    &&& (old(self).remaining().len() == 0 || (old(self).remaining()[0] matches
                    EventV::EndElement { .. } && old(self).depth == 0))
                    &&& e is ExpectedElement
                    &&& *final(self) == *old(self)
                },
            },
    {
        if self.events.len() == 0 {
            return Err(Error::ExpectedElement);
        }
        let is_end = match &self.events[0] {
            Event::EndElement { .. } => true,
            _ => false,
        };
        if is_end && self.depth == 0 {
            return Err(Error::ExpectedElement);
        }
        let ghost pre = self.remaining();
        let e = self.events.remove(0);
        proof {
            assert(pre.drop_first() =~= self.events@.map_values(|ev: Event| ev@));
        }
        match &e {
            Event::StartElement { .. } => {
                self.depth = self.depth + 1;
            },
            Event::EndElement { .. } => {
                self.depth = self.depth - 1;
            },
            _ => {},
        }
        self.peek_pos = 0;
        Ok(e)
    }
}

/// Peek-consume equivalence: with a fresh lookahead window, the event
/// `peek` reports is exactly the event a `next` would consume, and a
/// `reset_peek` between the two changes nothing, since `next` always
/// takes the front of the unconsumed stream. (Past the end of the
/// stream `peek` reports the end of the document and `next` fails.)
pub proof fn lemma_peek_consume_equivalence(c: Cursor)
    requires
        c.wf(),
        c.peek_pos == 0,
        c.remaining().len() > 0,
    ensures
        c.peeked_at() == c.remaining()[0],
{
}

} // verus!
