//! The Markdown event stream that the parser consumes, and the call into
//! `pulldown-cmark` that produces it.
use pulldown_cmark::{CodeBlockKind, Event, HeadingLevel as CmarkLevel, Options, Parser, Tag, TagEnd};
use vstd::prelude::*;

verus! {

#[verifier::external_type_specification]
#[verifier::external_body]
pub struct ExCmarkEvent<'a>(Event<'a>);

#[verifier::external_type_specification]
#[verifier::external_body]
pub struct ExCmarkTag<'a>(Tag<'a>);

#[verifier::external_type_specification]
#[verifier::external_body]
pub struct ExCmarkTagEnd(TagEnd);

#[verifier::external_type_specification]
#[verifier::external_body]
pub struct ExCmarkLevel(CmarkLevel);

/// Heading depth as the Markdown source writes it (`#` to `######`).
#[derive(Clone, Copy, Debug, PartialEq, Eq, Structural)]
pub enum HeadingLevel {
    H1,
    H2,
    H3,
    H4,
    H5,
    H6,
}

/// The opening of a Markdown element, with the attributes the viewer reads.
#[derive(Clone, Debug)]
pub enum MdTag {
    Paragraph,
    Heading(HeadingLevel),
    BlockQuote,
    /// `Some(info)` for a fenced block (the info string may be empty), `None` for an indented one.
    CodeBlock(Option<String>),
    /// `Some(start)` for an ordered list.
    List(Option<u64>),
    Item,
    Table,
    TableHead,
    TableRow,
    TableCell,
    Emphasis,
    Strong,
    Strikethrough,
    /// Destination URL.
    Link(String),
    /// Destination URL and title.
    Image(String, String),
    Other,
}

/// The closing of a Markdown element.
#[derive(Clone, Copy, Debug, PartialEq, Eq, Structural)]
pub enum MdTagEnd {
    Paragraph,
    Heading(HeadingLevel),
    BlockQuote,
    CodeBlock,
    List,
    Item,
    Table,
    TableHead,
    TableRow,
    TableCell,
    Emphasis,
    Strong,
    Strikethrough,
    Link,
    Image,
    Other,
}

/// One event of a Markdown parse.
#[derive(Clone, Debug)]
pub enum MdEvent {
    Start(MdTag),
    End(MdTagEnd),
    Text(String),
    Code(String),
    SoftBreak,
    HardBreak,
    Rule,
    Other,
}

pub enum MdTagV {
    Paragraph,
    Heading(HeadingLevel),
    BlockQuote,
    CodeBlock(Option<Seq<char>>),
    List(Option<u64>),
    Item,
    Table,
    TableHead,
    TableRow,
    TableCell,
    Emphasis,
    Strong,
    Strikethrough,
    Link(Seq<char>),
    Image(Seq<char>, Seq<char>),
    Other,
}

pub enum MdEventV {
    Start(MdTagV),
    End(MdTagEnd),
    Text(Seq<char>),
    Code(Seq<char>),
    SoftBreak,
    HardBreak,
    Rule,
    Other,
}

impl View for MdTag {
    type V = MdTagV;

    open spec fn view(&self) -> MdTagV {
        match self {
            MdTag::Paragraph => MdTagV::Paragraph,
            MdTag::Heading(l) => MdTagV::Heading(*l),
            MdTag::BlockQuote => MdTagV::BlockQuote,
            MdTag::CodeBlock(info) => MdTagV::CodeBlock(
                match info {
                    Some(s) => Some(s@),
                    None => None,
                },
            ),
            MdTag::List(start) => MdTagV::List(*start),
            MdTag::Item => MdTagV::Item,
            MdTag::Table => MdTagV::Table,
            MdTag::TableHead => MdTagV::TableHead,
            MdTag::TableRow => MdTagV::TableRow,
            MdTag::TableCell => MdTagV::TableCell,
            MdTag::Emphasis => MdTagV::Emphasis,
            MdTag::Strong => MdTagV::Strong,
            MdTag::Strikethrough => MdTagV::Strikethrough,
            MdTag::Link(url) => MdTagV::Link(url@),
            MdTag::Image(url, title) => MdTagV::Image(url@, title@),
            MdTag::Other => MdTagV::Other,
        }
    }
}

impl View for MdEvent {
    type V = MdEventV;

    open spec fn view(&self) -> MdEventV {
        match self {
            MdEvent::Start(t) => MdEventV::Start(t@),
            MdEvent::End(t) => MdEventV::End(*t),
            MdEvent::Text(s) => MdEventV::Text(s@),
            MdEvent::Code(s) => MdEventV::Code(s@),
            MdEvent::SoftBreak => MdEventV::SoftBreak,
            MdEvent::HardBreak => MdEventV::HardBreak,
            MdEvent::Rule => MdEventV::Rule,
            MdEvent::Other => MdEventV::Other,
        }
    }
}

/// The views of a sequence of events.
pub open spec fn events_view(evs: Seq<MdEvent>) -> Seq<MdEventV> {
    Seq::new(evs.len(), |i: int| evs[i]@)
}

/// Every ordered list in `evs` starts below one billion.
pub open spec fn list_starts_bounded(evs: Seq<MdEventV>) -> bool {
    forall|i: int|
        0 <= i < evs.len() ==> match #[trigger] evs[i] {
            MdEventV::Start(MdTagV::List(Some(n))) => n < 1_000_000_000,
            _ => true,
        }
}

/// The event stream that `pulldown-cmark` produces for a Markdown source, with
/// tables, footnotes, strikethrough and task lists enabled.
pub uninterp spec fn cmark_events(markdown: Seq<char>) -> Seq<MdEventV>;

/// Calls `pulldown_cmark::Parser::new_ext` with tables, footnotes, strikethrough and
/// task lists enabled, and collects its events. The scanner in the crate's source reads
/// at most nine digits for an ordered list's start number, so every start is below one
/// billion; and a `Vec` never holds more than `isize::MAX` bytes.
#[verifier::external_body]
pub(crate) fn markdown_events(markdown: &str) -> (evs: Vec<MdEvent>)
    ensures
        events_view(evs@) == cmark_events(markdown@),
        list_starts_bounded(events_view(evs@)),
        evs@.len() <= isize::MAX,
{
    let opts = Options::ENABLE_TABLES | Options::ENABLE_FOOTNOTES | Options::ENABLE_STRIKETHROUGH
        | Options::ENABLE_TASKLISTS;
    let mut evs = Vec::new();
    for e in Parser::new_ext(markdown, opts) {
        evs.push(md_event(e));
    }
    evs
}

/// Converts a `pulldown_cmark::Event`, variant for variant; events the viewer does
/// not read become `Other`.
#[verifier::external_body]
fn md_event(e: Event) -> MdEvent {
    match e {
        Event::Start(t) => MdEvent::Start(md_block_tag(t)),
        Event::End(t) => MdEvent::End(md_block_tag_end(t)),
        Event::Text(s) => MdEvent::Text(s.to_string()),
        Event::Code(s) => MdEvent::Code(s.to_string()),
        Event::SoftBreak => MdEvent::SoftBreak,
        Event::HardBreak => MdEvent::HardBreak,
        Event::Rule => MdEvent::Rule,
        _ => MdEvent::Other,
    }
}

/// Converts a block-level `pulldown_cmark::Tag`, variant for variant; hands the others on.
#[verifier::external_body]
fn md_block_tag(t: Tag) -> MdTag {
    match t {
        Tag::Paragraph => MdTag::Paragraph,
        Tag::Heading { level, .. } => MdTag::Heading(md_level(level)),
        Tag::BlockQuote(_) => MdTag::BlockQuote,
        Tag::CodeBlock(CodeBlockKind::Fenced(info)) => MdTag::CodeBlock(Some(info.to_string())),
        Tag::CodeBlock(CodeBlockKind::Indented) => MdTag::CodeBlock(None),
        Tag::List(start) => MdTag::List(start),
        Tag::Item => MdTag::Item,
        Tag::Table(_) => MdTag::Table,
        Tag::TableHead => MdTag::TableHead,
        Tag::TableRow => MdTag::TableRow,
        Tag::TableCell => MdTag::TableCell,
        other => md_inline_tag(other),
    }
}

/// Converts a span-level `pulldown_cmark::Tag`, variant for variant.
#[verifier::external_body]
fn md_inline_tag(t: Tag) -> MdTag {
    match t {
        Tag::Emphasis => MdTag::Emphasis,
        Tag::Strong => MdTag::Strong,
        Tag::Strikethrough => MdTag::Strikethrough,
        Tag::Link { dest_url, .. } => MdTag::Link(dest_url.to_string()),
        Tag::Image { dest_url, title, .. } => MdTag::Image(dest_url.to_string(), title.to_string()),
        _ => MdTag::Other,
    }
}

/// Converts a block-level `pulldown_cmark::TagEnd`, variant for variant; hands the others on.
#[verifier::external_body]
fn md_block_tag_end(t: TagEnd) -> MdTagEnd {
    match t {
        TagEnd::Paragraph => MdTagEnd::Paragraph,
        TagEnd::Heading(level) => MdTagEnd::Heading(md_level(level)),
        TagEnd::BlockQuote(_) => MdTagEnd::BlockQuote,
        TagEnd::CodeBlock => MdTagEnd::CodeBlock,
        TagEnd::List(_) => MdTagEnd::List,
        TagEnd::Item => MdTagEnd::Item,
        TagEnd::Table => MdTagEnd::Table,
        TagEnd::TableHead => MdTagEnd::TableHead,
        TagEnd::TableRow => MdTagEnd::TableRow,
        TagEnd::TableCell => MdTagEnd::TableCell,
        other => md_inline_tag_end(other),
    }
}

/// Converts a span-level `pulldown_cmark::TagEnd`, variant for variant.
#[verifier::external_body]
fn md_inline_tag_end(t: TagEnd) -> MdTagEnd {
    match t {
        TagEnd::Emphasis => MdTagEnd::Emphasis,
        TagEnd::Strong => MdTagEnd::Strong,
        TagEnd::Strikethrough => MdTagEnd::Strikethrough,
        TagEnd::Link => MdTagEnd::Link,
        TagEnd::Image => MdTagEnd::Image,
        _ => MdTagEnd::Other,
    }
}

/// Converts a `pulldown_cmark::HeadingLevel`, variant for variant.
#[verifier::external_body]
fn md_level(l: CmarkLevel) -> HeadingLevel {
    match l {
        CmarkLevel::H1 => HeadingLevel::H1,
        CmarkLevel::H2 => HeadingLevel::H2,
        CmarkLevel::H3 => HeadingLevel::H3,
        CmarkLevel::H4 => HeadingLevel::H4,
        CmarkLevel::H5 => HeadingLevel::H5,
        CmarkLevel::H6 => HeadingLevel::H6,
    }
}

} // verus!
