//! The two ends of a chapter: the parser that reads its text into events and
//! the serializer that writes events back as text, with the check that tells
//! beforehand whether the serializer can take them.

use vstd::prelude::*;
use pulldown_cmark::{Event, Parser};
use pulldown_cmark_to_cmark::cmark;
use crate::events::{classify, shape_kind, shape_of, shapes, EventKind, Kind, Shape};

verus! {

/// `std::fmt::Error`, the error in the serializer's result type.
#[verifier::external_type_specification]
#[verifier::external_body]
pub struct ExFmtError(std::fmt::Error);

/// The events that `pulldown_cmark::Parser::new` yields for a text, as shapes.
pub uninterp spec fn parsed(text: Seq<char>) -> Seq<Shape<'static>>;

/// The text that `pulldown_cmark_to_cmark::cmark` writes for events of the
/// given shapes.
pub uninterp spec fn serialized(events: Seq<Shape>) -> Seq<char>;

/// What the serializer keeps open while it writes: whether it is inside
/// a heading, and how many links and how many images it is inside of.
pub struct Nesting {
    pub heading: bool,
    pub links: nat,
    pub images: nat,
}

/// The nesting after one more event; `None` where the serializer cannot take
/// the event: a heading inside a heading, or the end of a heading, a link or
/// an image that was never opened.
pub open spec fn nest(before: Nesting, kind: Kind) -> Option<Nesting> {
    match kind {
        Kind::HeadingStart => if before.heading {
            None
        } else {
            Some(Nesting { heading: true, ..before })
        },
        Kind::HeadingEnd => if before.heading {
            Some(Nesting { heading: false, ..before })
        } else {
            None
        },
        Kind::LinkStart => Some(Nesting { links: before.links + 1, ..before }),
        Kind::LinkEnd => if before.links > 0 {
            Some(Nesting { links: (before.links - 1) as nat, ..before })
        } else {
            None
        },
        Kind::ImageStart => Some(Nesting { images: before.images + 1, ..before }),
        Kind::ImageEnd => if before.images > 0 {
            Some(Nesting { images: (before.images - 1) as nat, ..before })
        } else {
            None
        },
        _ => Some(before),
    }
}

/// The nesting after some events, started from `before`; `None` where one of
/// them cannot be taken.
pub open spec fn nesting_after(events: Seq<Shape>, before: Nesting) -> Option<Nesting>
    decreases events.len(),
{
    if events.len() == 0 {
        Some(before)
    } else {
        match nest(before, shape_kind(events[0])) {
            Some(next) => nesting_after(events.drop_first(), next),
            None => None,
        }
    }
}

/// Whether the serializer can take the events from its start: every end of
/// a heading, a link or an image has its start before it, and no heading
/// starts inside another.
pub open spec fn serializable(events: Seq<Shape>) -> bool {
    nesting_after(events, Nesting { heading: false, links: 0, images: 0 }) is Some
}

/// Collects what `pulldown_cmark::Parser::new` yields for `text`, with the
/// parser's default options. The contract names the result: the same text
/// gives the same events.
#[verifier::external_body]
pub(crate) fn parse_markdown<'a>(text: &'a str) -> (events: Vec<Event<'a>>)
    ensures
        shapes(events@) == parsed(text@),
{
    Parser::new(text).collect()
}

/// Calls `pulldown_cmark_to_cmark::cmark` on the events, with a fresh
/// `String` to write to. `cmark` stops with a panic at a heading inside
/// a heading and at the end of a heading, a link or an image that it has not
/// seen open; `requires` leaves those out. It returns an error only where
/// a write to its buffer does, and a `String` takes every write: so the
/// outcome is `Ok`, and the contract names its text.
#[verifier::external_body]
pub(crate) fn serialize(events: &Vec<Event>) -> (outcome: Result<String, std::fmt::Error>)
    requires
        serializable(shapes(events@)),
    ensures
        outcome is Ok,
        outcome matches Ok(text) ==> text@ == serialized(shapes(events@)),
{
    let mut buffer = String::new();
    cmark(events.iter(), &mut buffer).map(|_| buffer)
}

/// Tells whether the serializer can take the events.
pub fn can_serialize(events: &Vec<Event>) -> (ok: bool)
    ensures
        ok == serializable(shapes(events@)),
{
    let ghost all = shapes(events@);
    let mut heading: bool = false;
    let mut links: usize = 0;
    let mut images: usize = 0;
    let mut i: usize = 0;
    proof {
        assert(all.skip(0) =~= all);
    }
    while i < events.len()
        invariant
            i <= events.len(),
            links <= i,
            images <= i,
            all == shapes(events@),
            nesting_after(
                all.skip(i as int),
                Nesting { heading, links: links as nat, images: images as nat },
            ) == nesting_after(all, Nesting { heading: false, links: 0, images: 0 }),
        decreases events.len() - i,
    {
        proof {
            assert(all.skip(i as int)[0] == shape_of(events@[i as int]));
            assert(all.skip(i as int).drop_first() =~= all.skip(i + 1));
        }
        match classify(&events[i]) {
            EventKind::HeadingStart => {
                if heading {
                    return false;
                }
                heading = true;
            },
            EventKind::HeadingEnd => {
                if !heading {
                    return false;
                }
                heading = false;
            },
            EventKind::LinkStart => {
                links = links + 1;
            },
            EventKind::LinkEnd => {
                if links == 0 {
                    return false;
                }
                links = links - 1;
            },
            EventKind::ImageStart => {
                images = images + 1;
            },
            EventKind::ImageEnd => {
                if images == 0 {
                    return false;
                }
                images = images - 1;
            },
            _ => {},
        }
        i = i + 1;
    }
    true
}

} // verus!
