use vstd::prelude::*;

use pulldown_cmark::{
    Alignment as CmarkAlignment, CodeBlockKind, Event, HeadingLevel, Options, Parser, Tag, TagEnd,
};

use crate::markdown::ast::Alignment;
use crate::markdown::parser::convert_event;

verus! {

#[verifier::external_type_specification]
#[verifier::external_body]
pub struct ExEvent<'a>(Event<'a>);

#[verifier::external_type_specification]
#[verifier::external_body]
pub struct ExTag<'a>(Tag<'a>);

#[verifier::external_type_specification]
#[verifier::external_body]
pub struct ExTagEnd(TagEnd);

#[verifier::external_type_specification]
#[verifier::external_body]
pub struct ExHeadingLevel(HeadingLevel);

#[verifier::external_type_specification]
#[verifier::external_body]
pub struct ExCmarkAlignment(CmarkAlignment);

#[verifier::external_type_specification]
#[verifier::external_body]
pub struct ExCodeBlockKind<'a>(CodeBlockKind<'a>);

/// How a code block was written.
pub enum CodeKind {
    /// Fenced, with its info string.
    Fenced(String),
    /// Indented.
    Indented,
}

/// A start tag, as far as the document model needs it.
pub enum MdTag {
    Paragraph,
    Heading(u8),
    BlockQuote,
    CodeBlock(CodeKind),
    List(Option<u64>),
    Item,
    FootnoteDefinition(String),
    Table(Vec<Alignment>),
    TableHead,
    TableRow,
    TableCell,
    Emphasis,
    Strong,
    Strikethrough,
    Link { dest: String, title: String },
    Image { dest: String, title: String },
    Other,
}

/// An end tag, as far as the document model needs it.
#[derive(Clone, Copy, PartialEq, Eq, Structural)]
pub enum MdTagEnd {
    Paragraph,
    Heading,
    BlockQuote,
    CodeBlock,
    List,
    Item,
    FootnoteDefinition,
    Table,
    TableHead,
    TableRow,
    TableCell,
    Emphasis,
    Strong,
    Strikethrough,
    Link,
    Image,
    Other,
}

/// A parser event, as far as the document model needs it.
pub enum MdEvent {
    Start(MdTag),
    End(MdTagEnd),
    Text(String),
    Code(String),
    FootnoteReference(String),
    SoftBreak,
    HardBreak,
    Rule,
    TaskListMarker(bool),
    Other,
}

/// The top level of a `pulldown_cmark` event, its start or end tag left as it is.
pub enum EventParts<'a> {
    Start(Tag<'a>),
    End(TagEnd),
    Text(String),
    Code(String),
    FootnoteReference(String),
    SoftBreak,
    HardBreak,
    Rule,
    TaskListMarker(bool),
    Other,
}

/// A `pulldown_cmark` start tag with its fields taken out.
pub enum TagParts<'a> {
    Paragraph,
    Heading(HeadingLevel),
    BlockQuote,
    CodeBlock(CodeBlockKind<'a>),
    List(Option<u64>),
    Item,
    FootnoteDefinition(String),
    Table(Vec<CmarkAlignment>),
    TableHead,
    TableRow,
    TableCell,
    Emphasis,
    Strong,
    Strikethrough,
    Link(String, String),
    Image(String, String),
    Other,
}

/// How a code block was written, as a model.
pub enum CodeKindV {
    Fenced(Seq<char>),
    Indented,
}

/// The model of a start tag: strings as character sequences.
pub enum MdTagV {
    Paragraph,
    Heading(u8),
    BlockQuote,
    CodeBlock(CodeKindV),
    List(Option<u64>),
    Item,
    FootnoteDefinition(Seq<char>),
    Table(Seq<Alignment>),
    TableHead,
    TableRow,
    TableCell,
    Emphasis,
    Strong,
    Strikethrough,
    Link { dest: Seq<char>, title: Seq<char> },
    Image { dest: Seq<char>, title: Seq<char> },
    Other,
}

/// The model of a parser event.
pub enum MdEventV {
    Start(MdTagV),
    End(MdTagEnd),
    Text(Seq<char>),
    Code(Seq<char>),
    FootnoteReference(Seq<char>),
    SoftBreak,
    HardBreak,
    Rule,
    TaskListMarker(bool),
    Other,
}

/// The model of a start tag.
pub open spec fn tag_view(t: MdTag) -> MdTagV {
    match t {
        MdTag::Paragraph => MdTagV::Paragraph,
        MdTag::Heading(l) => MdTagV::Heading(l),
        MdTag::BlockQuote => MdTagV::BlockQuote,
        MdTag::CodeBlock(k) => MdTagV::CodeBlock(
            match k {
                CodeKind::Fenced(info) => CodeKindV::Fenced(info@),
                CodeKind::Indented => CodeKindV::Indented,
            },
        ),
        MdTag::List(s) => MdTagV::List(s),
        MdTag::Item => MdTagV::Item,
        MdTag::FootnoteDefinition(n) => MdTagV::FootnoteDefinition(n@),
        MdTag::Table(a) => MdTagV::Table(a@),
        MdTag::TableHead => MdTagV::TableHead,
        MdTag::TableRow => MdTagV::TableRow,
        MdTag::TableCell => MdTagV::TableCell,
        MdTag::Emphasis => MdTagV::Emphasis,
        MdTag::Strong => MdTagV::Strong,
        MdTag::Strikethrough => MdTagV::Strikethrough,
        MdTag::Link { dest, title } => MdTagV::Link { dest: dest@, title: title@ },
        MdTag::Image { dest, title } => MdTagV::Image { dest: dest@, title: title@ },
        MdTag::Other => MdTagV::Other,
    }
}

/// The model of a parser event.
pub open spec fn event_view(e: MdEvent) -> MdEventV {
    match e {
        MdEvent::Start(t) => MdEventV::Start(tag_view(t)),
        MdEvent::End(t) => MdEventV::End(t),
        MdEvent::Text(s) => MdEventV::Text(s@),
        MdEvent::Code(s) => MdEventV::Code(s@),
        MdEvent::FootnoteReference(s) => MdEventV::FootnoteReference(s@),
        MdEvent::SoftBreak => MdEventV::SoftBreak,
        MdEvent::HardBreak => MdEventV::HardBreak,
        MdEvent::Rule => MdEventV::Rule,
        MdEvent::TaskListMarker(b) => MdEventV::TaskListMarker(b),
        MdEvent::Other => MdEventV::Other,
    }
}

/// The model of a sequence of events.
pub open spec fn events_view(s: Seq<MdEvent>) -> Seq<MdEventV> {
    s.map_values(|e: MdEvent| event_view(e))
}

/// The events `pulldown_cmark` reads from a text, in this library's event model.
pub uninterp spec fn cmark_parse(input: Seq<char>) -> Seq<MdEventV>;

/// `pulldown_cmark::Parser::new_ext` with tables, task lists, strikethrough and footnotes
/// enabled, run over `input` to the end, each event turned into the library's model by
/// `convert_event`. Trusted: the events' model is `cmark_parse(input@)`, a function of the
/// input alone; nothing more is stated of the crate's CommonMark parse.
#[verifier::external_body]
pub(crate) fn cmark_events(input: &str) -> (r: Vec<MdEvent>)
    ensures
        events_view(r@) == cmark_parse(input@),
{
    let options = Options::ENABLE_TABLES | Options::ENABLE_TASKLISTS
        | Options::ENABLE_STRIKETHROUGH | Options::ENABLE_FOOTNOTES;
    Parser::new_ext(input, options).map(|ev| convert_event(&ev)).collect()
}

/// Takes a `pulldown_cmark::Event` apart, one variant each; text payloads become `String`s.
/// The outside value is opaque here, so nothing is stated of the result.
#[verifier::external_body]
pub(crate) fn event_parts<'a>(ev: &Event<'a>) -> EventParts<'a> {
    match ev.clone() {
        Event::Start(t) => EventParts::Start(t),
        Event::End(e) => EventParts::End(e),
        Event::Text(s) => EventParts::Text(s.to_string()),
        Event::Code(s) => EventParts::Code(s.to_string()),
        Event::FootnoteReference(s) => EventParts::FootnoteReference(s.to_string()),
        Event::SoftBreak => EventParts::SoftBreak,
        Event::HardBreak => EventParts::HardBreak,
        Event::Rule => EventParts::Rule,
        Event::TaskListMarker(b) => EventParts::TaskListMarker(b),
        _ => EventParts::Other,
    }
}

/// Takes a `pulldown_cmark::Tag` apart, one variant each. Nothing is stated of the result.
#[verifier::external_body]
pub(crate) fn tag_parts<'a>(t: Tag<'a>) -> TagParts<'a> {
    match t {
        Tag::Paragraph => TagParts::Paragraph,
        Tag::Heading { level, .. } => TagParts::Heading(level),
        Tag::BlockQuote(_) => TagParts::BlockQuote,
        Tag::CodeBlock(k) => TagParts::CodeBlock(k),
        Tag::List(s) => TagParts::List(s),
        Tag::Item => TagParts::Item,
        Tag::FootnoteDefinition(n) => TagParts::FootnoteDefinition(n.to_string()),
        Tag::Table(a) => TagParts::Table(a),
        Tag::TableHead => TagParts::TableHead,
        Tag::TableRow => TagParts::TableRow,
        Tag::TableCell => TagParts::TableCell,
        other => inline_tag_parts(other),
    }
}

/// Takes an inline `pulldown_cmark::Tag` apart, one variant each; any other tag is `Other`.
/// Nothing is stated of the result.
#[verifier::external_body]
fn inline_tag_parts<'a>(t: Tag<'a>) -> TagParts<'a> {
    match t {
        Tag::Emphasis => TagParts::Emphasis,
        Tag::Strong => TagParts::Strong,
        Tag::Strikethrough => TagParts::Strikethrough,
        Tag::Link { dest_url, title, .. } => TagParts::Link(dest_url.to_string(), title.to_string()),
        Tag::Image { dest_url, title, .. } => TagParts::Image(dest_url.to_string(), title.to_string()),
        _ => TagParts::Other,
    }
}

/// The kind of a `pulldown_cmark::TagEnd`, one variant each. Nothing is stated of the result.
#[verifier::external_body]
pub(crate) fn tag_end_kind(e: TagEnd) -> MdTagEnd {
    match e {
        TagEnd::Paragraph => MdTagEnd::Paragraph,
        TagEnd::Heading(_) => MdTagEnd::Heading,
        TagEnd::BlockQuote(_) => MdTagEnd::BlockQuote,
        TagEnd::CodeBlock => MdTagEnd::CodeBlock,
        TagEnd::List(_) => MdTagEnd::List,
        TagEnd::Item => MdTagEnd::Item,
        TagEnd::FootnoteDefinition => MdTagEnd::FootnoteDefinition,
        TagEnd::Table => MdTagEnd::Table,
        TagEnd::TableHead => MdTagEnd::TableHead,
        TagEnd::TableRow => MdTagEnd::TableRow,
        TagEnd::TableCell => MdTagEnd::TableCell,
        other => inline_tag_end_kind(other),
    }
}

/// An inline `pulldown_cmark::TagEnd` as the model's end tag, variant for variant; any
/// other end tag is `Other`.
#[verifier::external_body]
fn inline_tag_end_kind(e: TagEnd) -> MdTagEnd {
    match e {
        TagEnd::Emphasis => MdTagEnd::Emphasis,
        TagEnd::Strong => MdTagEnd::Strong,
        TagEnd::Strikethrough => MdTagEnd::Strikethrough,
        TagEnd::Link => MdTagEnd::Link,
        TagEnd::Image => MdTagEnd::Image,
        _ => MdTagEnd::Other,
    }
}

/// The number of a `pulldown_cmark::HeadingLevel`: `H1` is 1 up to `H6`, 6.
#[verifier::external_body]
pub(crate) fn heading_to_u8(level: HeadingLevel) -> (r: u8)
    ensures
        1 <= r <= 6,
{
    match level {
        HeadingLevel::H1 => 1,
        HeadingLevel::H2 => 2,
        HeadingLevel::H3 => 3,
        HeadingLevel::H4 => 4,
        HeadingLevel::H5 => 5,
        HeadingLevel::H6 => 6,
    }
}

/// A `pulldown_cmark::Alignment` as the document model's alignment, variant for variant.
#[verifier::external_body]
pub(crate) fn map_align(input: &CmarkAlignment) -> Alignment {
    match input {
        CmarkAlignment::Left => Alignment::Left,
        CmarkAlignment::Center => Alignment::Center,
        CmarkAlignment::Right => Alignment::Right,
        CmarkAlignment::None => Alignment::Unaligned,
    }
}

/// A `pulldown_cmark::CodeBlockKind` as `CodeKind`, the info string as a `String`.
#[verifier::external_body]
pub(crate) fn code_block_kind(kind: CodeBlockKind<'_>) -> CodeKind {
    match kind {
        CodeBlockKind::Fenced(info) => CodeKind::Fenced(info.to_string()),
        CodeBlockKind::Indented => CodeKind::Indented,
    }
}

} // verus!
