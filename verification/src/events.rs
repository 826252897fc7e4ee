//! The markup event model: a flat, ordered sequence of structural events
//! produced by parsing markdown text, consumed by the HTML renderer.

use vstd::prelude::*;

verus! {

/// The style of a code block: fenced with an info string, or indented.
#[derive(Debug)]
pub enum CodeBlockStyle {
    Fenced(String),
    Indented,
}

/// Text alignment of one table column.
#[derive(Debug, Clone, Copy, PartialEq, Eq, Structural)]
pub enum ColumnAlignment {
    Unaligned,
    AlignLeft,
    AlignCenter,
    AlignRight,
}

/// The kind of a hyperlink; only email autolinks render differently.
#[derive(Debug, Clone, Copy, PartialEq, Eq, Structural)]
pub enum MdLinkKind {
    Email,
    Other,
}

/// A block or inline construct that encloses other events.
#[derive(Debug)]
pub enum MdTag {
    Paragraph,
    /// A heading with its level.
    Heading(u32),
    BlockQuote,
    CodeBlock(CodeBlockStyle),
    /// A list; an ordered list carries the number of its first item.
    List(Option<u64>),
    Item,
    /// A footnote definition with its label.
    FootnoteDefinition(String),
    /// A table with the alignment of each column.
    Table(Vec<ColumnAlignment>),
    TableHead,
    TableRow,
    TableCell,
    Emphasis,
    Strong,
    Strikethrough,
    /// A link: kind, destination and title.
    Link(MdLinkKind, String, String),
    /// An image: destination and title.
    Image(String, String),
}

/// One structural event of a parsed markdown document.
#[derive(Debug)]
pub enum MdEvent {
    Start(MdTag),
    End(MdTag),
    Text(String),
    Code(String),
    Html(String),
    FootnoteReference(String),
    SoftBreak,
    HardBreak,
    Rule,
    TaskListMarker(bool),
}

/// The event sequence that the CommonMark parser produces for a given text,
/// with all extensions enabled. The sequence depends on the text alone.
pub uninterp spec fn md_events_of(s: Seq<char>) -> Seq<MdEvent>;

/// Relies on `pulldown_cmark::Parser::new_ext` with `Options::all()`: parsing
/// markdown text yields a sequence of events that is a function of the text
/// alone.
#[verifier::external_body]
pub(crate) fn parse_markdown(text: &str) -> (r: Vec<MdEvent>)
    ensures
        r@ == md_events_of(text@),
{
    let mut out = Vec::new();
    let parser = pulldown_cmark::Parser::new_ext(text, pulldown_cmark::Options::all());
    for ev in parser {
        out.push(event_from_cmark(ev));
    }
    out
}

/// The events of a markdown text, as the parser reports them.
pub fn markdown_events(text: &str) -> (r: Vec<MdEvent>)
    ensures
        r@ == md_events_of(text@),
{
    parse_markdown(text)
}

#[verifier::external_type_specification]
#[verifier::external_body]
pub struct ExEvent<'a>(pulldown_cmark::Event<'a>);

#[verifier::external_type_specification]
#[verifier::external_body]
pub struct ExTag<'a>(pulldown_cmark::Tag<'a>);

#[verifier::external_type_specification]
#[verifier::external_body]
pub struct ExAlignment(pulldown_cmark::Alignment);

#[verifier::external_type_specification]
#[verifier::external_body]
pub struct ExLinkType(pulldown_cmark::LinkType);

/// Relies on `pulldown_cmark::Event`: tells the parser's event variants
/// apart, moving each field into the library's own event type.
#[verifier::external_body]
fn event_from_cmark(ev: pulldown_cmark::Event<'_>) -> MdEvent {
    match ev {
        pulldown_cmark::Event::Start(t) => MdEvent::Start(tag_from_cmark(t)),
        pulldown_cmark::Event::End(t) => MdEvent::End(tag_from_cmark(t)),
        pulldown_cmark::Event::Text(s) => MdEvent::Text(s.to_string()),
        pulldown_cmark::Event::Code(s) => MdEvent::Code(s.to_string()),
        pulldown_cmark::Event::Html(s) => MdEvent::Html(s.to_string()),
        pulldown_cmark::Event::FootnoteReference(s) => MdEvent::FootnoteReference(s.to_string()),
        pulldown_cmark::Event::SoftBreak => MdEvent::SoftBreak,
        pulldown_cmark::Event::HardBreak => MdEvent::HardBreak,
        pulldown_cmark::Event::Rule => MdEvent::Rule,
        pulldown_cmark::Event::TaskListMarker(b) => MdEvent::TaskListMarker(b),
    }
}

/// Relies on `pulldown_cmark::Tag`: tells the block-level tag variants apart,
/// moving each field into the library's own tag type.
#[verifier::external_body]
fn tag_from_cmark(tag: pulldown_cmark::Tag<'_>) -> MdTag {
    match tag {
        pulldown_cmark::Tag::Paragraph => MdTag::Paragraph,
        pulldown_cmark::Tag::Heading(level) => MdTag::Heading(level),
        pulldown_cmark::Tag::BlockQuote => MdTag::BlockQuote,
        pulldown_cmark::Tag::CodeBlock(pulldown_cmark::CodeBlockKind::Indented) => MdTag::CodeBlock(CodeBlockStyle::Indented),
        pulldown_cmark::Tag::CodeBlock(pulldown_cmark::CodeBlockKind::Fenced(info)) => MdTag::CodeBlock(CodeBlockStyle::Fenced(info.to_string())),
        pulldown_cmark::Tag::List(start) => MdTag::List(start),
        pulldown_cmark::Tag::Item => MdTag::Item,
        pulldown_cmark::Tag::FootnoteDefinition(label) => MdTag::FootnoteDefinition(label.to_string()),
        t => tag_from_cmark_spans(t),
    }
}

/// Relies on `pulldown_cmark::Tag`: tells the table- and span-level tag
/// variants apart, moving each field into the library's own tag type.
#[verifier::external_body]
fn tag_from_cmark_spans(tag: pulldown_cmark::Tag<'_>) -> MdTag {
    match tag {
        pulldown_cmark::Tag::Table(aligns) => MdTag::Table(aligns_from_cmark(aligns)),
        pulldown_cmark::Tag::TableHead => MdTag::TableHead,
        pulldown_cmark::Tag::TableRow => MdTag::TableRow,
        pulldown_cmark::Tag::TableCell => MdTag::TableCell,
        pulldown_cmark::Tag::Emphasis => MdTag::Emphasis,
        pulldown_cmark::Tag::Strong => MdTag::Strong,
        pulldown_cmark::Tag::Strikethrough => MdTag::Strikethrough,
        pulldown_cmark::Tag::Link(kind, dest, title) => MdTag::Link(link_kind_from_cmark(kind), dest.to_string(), title.to_string()),
        pulldown_cmark::Tag::Image(_, dest, title) => MdTag::Image(dest.to_string(), title.to_string()),
        _ => MdTag::Paragraph,
    }
}

/// Relies on `pulldown_cmark::LinkType`: only the email autolink kind is
/// told apart.
#[verifier::external_body]
fn link_kind_from_cmark(kind: pulldown_cmark::LinkType) -> MdLinkKind {
    match kind {
        pulldown_cmark::LinkType::Email => MdLinkKind::Email,
        _ => MdLinkKind::Other,
    }
}

/// Relies on `pulldown_cmark::Alignment`: tells the four alignment variants
/// apart, one for one.
#[verifier::external_body]
fn aligns_from_cmark(aligns: Vec<pulldown_cmark::Alignment>) -> Vec<ColumnAlignment> {
    let mut out = Vec::new();
    for a in aligns {
        out.push(match a {
            pulldown_cmark::Alignment::None => ColumnAlignment::Unaligned,
            pulldown_cmark::Alignment::Left => ColumnAlignment::AlignLeft,
            pulldown_cmark::Alignment::Center => ColumnAlignment::AlignCenter,
            pulldown_cmark::Alignment::Right => ColumnAlignment::AlignRight,
        });
    }
    out
}

} // verus!
