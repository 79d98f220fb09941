//! Markdown events as plain values, taken from pulldown-cmark's parser.
use pulldown_cmark::{Alignment, CodeBlockKind, CowStr, Event, HeadingLevel, LinkType, Parser, Tag};
use vstd::prelude::*;

verus! {

/// pulldown_cmark::Event, declared with its variants so that verified code can
/// take an event apart; Verus reads the variants from the type itself.
#[verifier::external_type_specification]
pub struct ExEvent<'a>(Event<'a>);

/// pulldown_cmark::Tag, declared with its variants like Event.
#[verifier::external_type_specification]
pub struct ExTag<'a>(Tag<'a>);

/// The field types of Event and Tag that verified code only moves: opaque.

#[verifier::external_type_specification]
#[verifier::external_body]
pub struct ExCowStr<'a>(CowStr<'a>);

#[verifier::external_type_specification]
#[verifier::external_body]
pub struct ExHeadingLevel(HeadingLevel);

#[verifier::external_type_specification]
#[verifier::external_body]
pub struct ExCodeBlockKind<'a>(CodeBlockKind<'a>);

#[verifier::external_type_specification]
#[verifier::external_body]
pub struct ExAlignment(Alignment);

#[verifier::external_type_specification]
#[verifier::external_body]
pub struct ExLinkType(LinkType);

/// Relies on pulldown_cmark::CowStr::into_string: the owned text of a parsed piece.
pub assume_specification<'a>[ CowStr::<'a>::into_string ](s: CowStr<'a>) -> String;

/// The elements that the renderer tells apart.
pub enum Block {
    Paragraph,
    Heading,
    BlockQuote,
    CodeBlock,
    List,
    Item,
    Emphasis,
    Strong,
    Link,
    /// An image, with its path or URL.
    Image(String),
    Other,
}

/// One markdown event.
pub enum MdEvent {
    Start(Block),
    End(Block),
    Text(String),
    Code(String),
    Html(String),
    FootnoteReference(String),
    SoftBreak,
    HardBreak,
    Rule,
    TaskListMarker(bool),
}

/// An event and the byte range of the source it stems from.
pub struct Located {
    pub event: MdEvent,
    pub start: usize,
    pub end: usize,
}

/// The element that a tag stands for.
pub fn block_of(tag: Tag<'_>) -> (r: Block)
    ensures
        (tag is Paragraph) <==> (r is Paragraph),
        (tag is Heading) <==> (r is Heading),
        (tag is BlockQuote) <==> (r is BlockQuote),
        (tag is CodeBlock) <==> (r is CodeBlock),
        (tag is List) <==> (r is List),
        (tag is Item) <==> (r is Item),
        (tag is Emphasis) <==> (r is Emphasis),
        (tag is Strong) <==> (r is Strong),
        (tag is Link) <==> (r is Link),
        (tag is Image) <==> (r is Image),
{
    match tag {
        Tag::Paragraph => Block::Paragraph,
        Tag::Heading(..) => Block::Heading,
        Tag::BlockQuote => Block::BlockQuote,
        Tag::CodeBlock(_) => Block::CodeBlock,
        Tag::List(_) => Block::List,
        Tag::Item => Block::Item,
        Tag::Emphasis => Block::Emphasis,
        Tag::Strong => Block::Strong,
        Tag::Link(..) => Block::Link,
        Tag::Image(_, dest, _) => Block::Image(dest.into_string()),
        _ => Block::Other,
    }
}

/// The event as a plain value, with its source range.
pub fn located(event: Event<'_>, start: usize, end: usize) -> (r: Located)
    ensures
        r.start == start,
        r.end == end,
        (event is Start) <==> (r.event is Start),
        (event is End) <==> (r.event is End),
        (event is Text) <==> (r.event is Text),
        (event is Code) <==> (r.event is Code),
        (event is Html) <==> (r.event is Html),
        (event is FootnoteReference) <==> (r.event is FootnoteReference),
        (event is SoftBreak) <==> (r.event is SoftBreak),
        (event is HardBreak) <==> (r.event is HardBreak),
        (event is Rule) <==> (r.event is Rule),
        event matches Event::TaskListMarker(b) ==> r.event == MdEvent::TaskListMarker(b),
{
    let event = match event {
        Event::Start(t) => MdEvent::Start(block_of(t)),
        Event::End(t) => MdEvent::End(block_of(t)),
        Event::Text(s) => MdEvent::Text(s.into_string()),
        Event::Code(s) => MdEvent::Code(s.into_string()),
        Event::Html(s) => MdEvent::Html(s.into_string()),
        Event::FootnoteReference(s) => MdEvent::FootnoteReference(s.into_string()),
        Event::SoftBreak => MdEvent::SoftBreak,
        Event::HardBreak => MdEvent::HardBreak,
        Event::Rule => MdEvent::Rule,
        Event::TaskListMarker(b) => MdEvent::TaskListMarker(b),
    };
    Located { event, start, end }
}

/// The events that pulldown-cmark reads in a document, with their source ranges.
pub uninterp spec fn markdown_of(text: Seq<char>) -> Seq<Located>;

/// Relies on pulldown_cmark::Parser::new and Parser::into_offset_iter: the events of
/// the document in order, each with the byte range it covers; they depend on the
/// text alone.
#[verifier::external_body]
pub(crate) fn markdown_events(text: &str) -> (r: Vec<Located>)
    ensures
        r@ == markdown_of(text@),
{
    Parser::new(text).into_offset_iter().map(|(e, range)| located(e, range.start, range.end)).collect()
}

} // verus!
