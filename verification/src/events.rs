//! Markdown events: what this library reads off them, and the few it makes.

use vstd::prelude::*;
use pulldown_cmark::{CowStr, Event, Tag, TagEnd};

verus! {

/// `pulldown_cmark::Event`, carried through as it is.
#[verifier::external_type_specification]
#[verifier::external_body]
pub struct ExEvent<'a>(Event<'a>);

/// What this library reads off an event: its text where it is text or HTML,
/// whether it opens or closes a block of HTML, a heading, a link or an image,
/// and otherwise nothing.
pub enum EventKind {
    Text(String),
    Html(String),
    HtmlBlockStart,
    HtmlBlockEnd,
    HeadingStart,
    HeadingEnd,
    LinkStart,
    LinkEnd,
    ImageStart,
    ImageEnd,
    Other,
}

/// `EventKind` with its texts as sequences of characters.
pub enum Kind {
    Text(Seq<char>),
    Html(Seq<char>),
    HtmlBlockStart,
    HtmlBlockEnd,
    HeadingStart,
    HeadingEnd,
    LinkStart,
    LinkEnd,
    ImageStart,
    ImageEnd,
    Other,
}

impl View for EventKind {
    type V = Kind;

    open spec fn view(&self) -> Kind {
        match self {
            EventKind::Text(text) => Kind::Text(text@),
            EventKind::Html(markup) => Kind::Html(markup@),
            EventKind::HtmlBlockStart => Kind::HtmlBlockStart,
            EventKind::HtmlBlockEnd => Kind::HtmlBlockEnd,
            EventKind::HeadingStart => Kind::HeadingStart,
            EventKind::HeadingEnd => Kind::HeadingEnd,
            EventKind::LinkStart => Kind::LinkStart,
            EventKind::LinkEnd => Kind::LinkEnd,
            EventKind::ImageStart => Kind::ImageStart,
            EventKind::ImageEnd => Kind::ImageEnd,
            EventKind::Other => Kind::Other,
        }
    }
}

/// The kind of an event: the variant it is, with its text for `Text` and
/// `Html`.
pub uninterp spec fn kind_of(event: Event) -> Kind;

/// An event as the scanner sees it. Text, HTML and the two ends of an HTML
/// block are given by what they hold; every other event stands for itself.
pub enum Shape<'a> {
    Text(Seq<char>),
    Html(Seq<char>),
    HtmlBlockStart,
    HtmlBlockEnd,
    Opaque(Event<'a>),
}

/// The shape of an event.
pub open spec fn shape_of<'a>(event: Event<'a>) -> Shape<'a> {
    match kind_of(event) {
        Kind::Text(text) => Shape::Text(text),
        Kind::Html(markup) => Shape::Html(markup),
        Kind::HtmlBlockStart => Shape::HtmlBlockStart,
        Kind::HtmlBlockEnd => Shape::HtmlBlockEnd,
        _ => Shape::Opaque(event),
    }
}

/// The kind behind a shape.
pub open spec fn shape_kind(shape: Shape) -> Kind {
    match shape {
        Shape::Text(text) => Kind::Text(text),
        Shape::Html(markup) => Kind::Html(markup),
        Shape::HtmlBlockStart => Kind::HtmlBlockStart,
        Shape::HtmlBlockEnd => Kind::HtmlBlockEnd,
        Shape::Opaque(event) => kind_of(event),
    }
}

/// The shapes of some events, in their order.
pub open spec fn shapes<'a>(events: Seq<Event<'a>>) -> Seq<Shape<'a>> {
    events.map_values(|event: Event<'a>| shape_of(event))
}

/// Tells the variants of `pulldown_cmark::Event` apart and copies the text
/// out of `Text` and `Html`. The result is the event's kind by definition:
/// `kind_of` is the name of what this match gives.
#[verifier::external_body]
pub(crate) fn classify(event: &Event) -> (kind: EventKind)
    ensures
        kind@ == kind_of(*event),
{
    match event {
        Event::Text(text) => EventKind::Text(text.to_string()),
        Event::Html(markup) => EventKind::Html(markup.to_string()),
        Event::Start(Tag::HtmlBlock) => EventKind::HtmlBlockStart,
        Event::End(TagEnd::HtmlBlock) => EventKind::HtmlBlockEnd,
        Event::Start(Tag::Heading { .. }) => EventKind::HeadingStart,
        Event::End(TagEnd::Heading(_)) => EventKind::HeadingEnd,
        Event::Start(Tag::Link { .. }) => EventKind::LinkStart,
        Event::End(TagEnd::Link) => EventKind::LinkEnd,
        Event::Start(Tag::Image { .. }) => EventKind::ImageStart,
        Event::End(TagEnd::Image) => EventKind::ImageEnd,
        _ => EventKind::Other,
    }
}

/// Makes `Event::Start(Tag::HtmlBlock)`.
#[verifier::external_body]
pub(crate) fn html_block_start<'a>() -> (event: Event<'a>)
    ensures
        kind_of(event) == Kind::HtmlBlockStart,
{
    Event::Start(Tag::HtmlBlock)
}

/// Makes `Event::Html` with `markup` as its text.
#[verifier::external_body]
pub(crate) fn html_fragment<'a>(markup: String) -> (event: Event<'a>)
    ensures
        kind_of(event) == Kind::Html(markup@),
{
    Event::Html(CowStr::Boxed(markup.into()))
}

/// Makes `Event::End(TagEnd::HtmlBlock)`.
#[verifier::external_body]
pub(crate) fn html_block_end<'a>() -> (event: Event<'a>)
    ensures
        kind_of(event) == Kind::HtmlBlockEnd,
{
    Event::End(TagEnd::HtmlBlock)
}

} // verus!
