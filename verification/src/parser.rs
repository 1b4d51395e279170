//! Converts Markdown into a document tree and a table of contents.
use crate::events::{cmark_events, events_view, list_starts_bounded, markdown_events, HeadingLevel, MdEvent, MdEventV, MdTag, MdTagEnd, MdTagV};
use crate::text::{clear, push_char, push_str, spec_trim, trim};
use vstd::prelude::*;

verus! {

/// A single entry in the table of contents.
#[derive(Debug, Clone, PartialEq)]
pub struct TocEntry {
    /// Heading level, 1 to 6.
    pub level: u8,
    pub title: String,
    /// Index in `Document::nodes` of the heading this entry names.
    pub node_index: usize,
}

/// A renderable document node produced by the parser.
#[derive(Debug, PartialEq)]
pub enum DocNode {
    Heading { level: u8, text: String },
    Paragraph(Vec<InlineSpan>),
    CodeBlock { language: Option<String>, code: String },
    BlockQuote(Vec<DocNode>),
    ListItem { depth: usize, ordered: bool, number: Option<u64>, children: Vec<InlineSpan> },
    Table { headers: Vec<String>, rows: Vec<Vec<String>> },
    Rule,
    Image { src: String, alt: String },
    /// Blank line / spacer.
    Blank,
}

/// A run of inline text with one style.
#[derive(Debug, Clone, PartialEq)]
pub enum InlineSpan {
    Text(String),
    Bold(String),
    Italic(String),
    BoldItalic(String),
    Code(String),
    Strikethrough(String),
    Link { text: String, url: String },
    Image { src: String, alt: String },
    SoftBreak,
    HardBreak,
}

/// A parsed document: its nodes and its table of contents.
#[derive(Debug, Default)]
pub struct Document {
    pub nodes: Vec<DocNode>,
    pub toc: Vec<TocEntry>,
}

pub struct TocEntryV {
    pub level: u8,
    pub title: Seq<char>,
    pub node_index: int,
}

pub enum InlineSpanV {
    Text(Seq<char>),
    Bold(Seq<char>),
    Italic(Seq<char>),
    BoldItalic(Seq<char>),
    Code(Seq<char>),
    Strikethrough(Seq<char>),
    Link { text: Seq<char>, url: Seq<char> },
    Image { src: Seq<char>, alt: Seq<char> },
    SoftBreak,
    HardBreak,
}

pub enum DocNodeV {
    Heading { level: u8, text: Seq<char> },
    Paragraph(Seq<InlineSpanV>),
    CodeBlock { language: Option<Seq<char>>, code: Seq<char> },
    BlockQuote(Seq<DocNodeV>),
    ListItem { depth: usize, ordered: bool, number: Option<u64>, children: Seq<InlineSpanV> },
    Table { headers: Seq<Seq<char>>, rows: Seq<Seq<Seq<char>>> },
    Rule,
    Image { src: Seq<char>, alt: Seq<char> },
    Blank,
}

pub struct DocumentV {
    pub nodes: Seq<DocNodeV>,
    pub toc: Seq<TocEntryV>,
}

impl View for TocEntry {
    type V = TocEntryV;

    open spec fn view(&self) -> TocEntryV {
        TocEntryV { level: self.level, title: self.title@, node_index: self.node_index as int }
    }
}

impl View for InlineSpan {
    type V = InlineSpanV;

    open spec fn view(&self) -> InlineSpanV {
        match self {
            InlineSpan::Text(t) => InlineSpanV::Text(t@),
            InlineSpan::Bold(t) => InlineSpanV::Bold(t@),
            InlineSpan::Italic(t) => InlineSpanV::Italic(t@),
            InlineSpan::BoldItalic(t) => InlineSpanV::BoldItalic(t@),
            InlineSpan::Code(t) => InlineSpanV::Code(t@),
            InlineSpan::Strikethrough(t) => InlineSpanV::Strikethrough(t@),
            InlineSpan::Link { text, url } => InlineSpanV::Link { text: text@, url: url@ },
            InlineSpan::Image { src, alt } => InlineSpanV::Image { src: src@, alt: alt@ },
            InlineSpan::SoftBreak => InlineSpanV::SoftBreak,
            InlineSpan::HardBreak => InlineSpanV::HardBreak,
        }
    }
}

/// The views of the elements of a sequence.
pub open spec fn views<T: View>(s: Seq<T>) -> Seq<T::V> {
    Seq::new(s.len(), |i: int| s[i]@)
}

/// Taking views commutes with appending an element.
pub proof fn lemma_views_push<T: View>(s: Seq<T>, x: T)
    ensures
        views(s.push(x)) == views(s).push(x@),
{
    assert(views(s.push(x)) =~= views(s).push(x@));
}

/// The views of a sequence of table rows.
pub open spec fn rows_view(s: Seq<Vec<String>>) -> Seq<Seq<Seq<char>>> {
    Seq::new(s.len(), |i: int| views(s[i]@))
}

/// Taking row views commutes with appending a row.
pub proof fn lemma_rows_view_push(s: Seq<Vec<String>>, x: Vec<String>)
    ensures
        rows_view(s.push(x)) == rows_view(s).push(views(x@)),
{
    assert(rows_view(s.push(x)) =~= rows_view(s).push(views(x@)));
}

/// The view of an optional string.
pub open spec fn opt_view(o: Option<String>) -> Option<Seq<char>> {
    match o {
        Some(s) => Some(s@),
        None => None,
    }
}

impl View for DocNode {
    type V = DocNodeV;

    open spec fn view(&self) -> DocNodeV
        decreases self,
    {
        match self {
            DocNode::Heading { level, text } => DocNodeV::Heading { level: *level, text: text@ },
            DocNode::Paragraph(spans) => DocNodeV::Paragraph(views(spans@)),
            DocNode::CodeBlock { language, code } => DocNodeV::CodeBlock {
                language: opt_view(*language),
                code: code@,
            },
            DocNode::BlockQuote(children) => DocNodeV::BlockQuote(nodes_views(children@)),
            DocNode::ListItem { depth, ordered, number, children } => DocNodeV::ListItem {
                depth: *depth,
                ordered: *ordered,
                number: *number,
                children: views(children@),
            },
            DocNode::Table { headers, rows } => DocNodeV::Table {
                headers: views(headers@),
                rows: rows_view(rows@),
            },
            DocNode::Rule => DocNodeV::Rule,
            DocNode::Image { src, alt } => DocNodeV::Image { src: src@, alt: alt@ },
            DocNode::Blank => DocNodeV::Blank,
        }
    }
}

/// The views of a sequence of nodes.
pub open spec fn nodes_views(s: Seq<DocNode>) -> Seq<DocNodeV>
    decreases s,
{
    if s.len() == 0 {
        Seq::empty()
    } else {
        nodes_views(s.drop_last()).push(s.last().view())
    }
}

/// The recursive node views are the element views.
pub proof fn lemma_nodes_views(s: Seq<DocNode>)
    ensures
        nodes_views(s) == views(s),
    decreases s.len(),
{
    if s.len() > 0 {
        lemma_nodes_views(s.drop_last());
        assert(views(s) =~= views(s.drop_last()).push(s.last()@));
    } else {
        assert(views(s) =~= Seq::<DocNodeV>::empty());
    }
}

/// The view of a block quote is the quote of its children's views.
pub proof fn lemma_quote_view(children: Vec<DocNode>)
    ensures
        DocNode::BlockQuote(children)@ == DocNodeV::BlockQuote(views(children@)),
{
    lemma_nodes_views(children@);
}

impl View for Document {
    type V = DocumentV;

    open spec fn view(&self) -> DocumentV {
        DocumentV { nodes: views(self.nodes@), toc: views(self.toc@) }
    }
}

// ---------------------------------------------------------------------------
// What the parser computes, over the event stream
// ---------------------------------------------------------------------------

/// Where a scan continues after a nested element that started at `i` ended before `j`.
pub open spec fn resume(i: int, j: int, len: int) -> int {
    if i < j && j <= len {
        j
    } else {
        i + 1
    }
}

/// The numeric level of a heading.
pub open spec fn level_num(l: HeadingLevel) -> u8 {
    match l {
        HeadingLevel::H1 => 1,
        HeadingLevel::H2 => 2,
        HeadingLevel::H3 => 3,
        HeadingLevel::H4 => 4,
        HeadingLevel::H5 => 5,
        HeadingLevel::H6 => 6,
    }
}

/// Text and code of a heading from `i` up to its end, appended to `acc`, and the index after.
pub open spec fn spec_heading_text(evs: Seq<MdEventV>, i: int, acc: Seq<char>) -> (Seq<char>, int)
    decreases evs.len() - i,
{
    if i < 0 || i >= evs.len() {
        (acc, i)
    } else {
        match evs[i] {
            MdEventV::Text(t) => spec_heading_text(evs, i + 1, acc + t),
            MdEventV::Code(t) => spec_heading_text(evs, i + 1, acc + t),
            MdEventV::End(MdTagEnd::Heading(_)) => (acc, i + 1),
            _ => spec_heading_text(evs, i + 1, acc),
        }
    }
}

/// Text of a code block from `i` up to its end, appended to `acc`, and the index after.
pub open spec fn spec_code_content(evs: Seq<MdEventV>, i: int, acc: Seq<char>) -> (Seq<char>, int)
    decreases evs.len() - i,
{
    if i < 0 || i >= evs.len() {
        (acc, i)
    } else {
        match evs[i] {
            MdEventV::Text(t) => spec_code_content(evs, i + 1, acc + t),
            MdEventV::End(MdTagEnd::CodeBlock) => (acc, i + 1),
            _ => spec_code_content(evs, i + 1, acc),
        }
    }
}

/// Alternative text of an image from `i` up to its end, appended to `acc` (breaks
/// become spaces), and the index after.
pub open spec fn spec_image_alt(evs: Seq<MdEventV>, i: int, acc: Seq<char>) -> (Seq<char>, int)
    decreases evs.len() - i,
{
    if i < 0 || i >= evs.len() {
        (acc, i)
    } else {
        match evs[i] {
            MdEventV::End(MdTagEnd::Image) => (acc, i + 1),
            MdEventV::Text(t) => spec_image_alt(evs, i + 1, acc + t),
            MdEventV::Code(t) => spec_image_alt(evs, i + 1, acc + t),
            MdEventV::SoftBreak => spec_image_alt(evs, i + 1, acc.push(' ')),
            MdEventV::HardBreak => spec_image_alt(evs, i + 1, acc.push(' ')),
            _ => spec_image_alt(evs, i + 1, acc),
        }
    }
}

/// The state of an inline scan: open emphasis, an open link, and the spans so far.
pub struct InlineState {
    pub bold: bool,
    pub italic: bool,
    pub strike: bool,
    pub link_url: Option<Seq<char>>,
    pub link_text: Seq<char>,
    pub spans: Seq<InlineSpanV>,
}

/// A fresh inline scan that appends to `spans`.
pub open spec fn inline_start(spans: Seq<InlineSpanV>) -> InlineState {
    InlineState {
        bold: false,
        italic: false,
        strike: false,
        link_url: None,
        link_text: Seq::empty(),
        spans,
    }
}

/// The span a text event becomes under the open emphasis.
pub open spec fn styled_text(st: InlineState, t: Seq<char>) -> InlineSpanV {
    if st.bold && st.italic {
        InlineSpanV::BoldItalic(t)
    } else if st.bold {
        InlineSpanV::Bold(t)
    } else if st.italic {
        InlineSpanV::Italic(t)
    } else if st.strike {
        InlineSpanV::Strikethrough(t)
    } else {
        InlineSpanV::Text(t)
    }
}

/// The image span for a destination, a title and the collected alternative text.
pub open spec fn image_span(src: Seq<char>, title: Seq<char>, alt: Seq<char>) -> InlineSpanV {
    InlineSpanV::Image { src, alt: if alt.len() == 0 { title } else { alt } }
}

/// The inline-scan step shared by paragraphs and list items, for the events both read
/// the same way; `None` for the others.
pub open spec fn inline_step(evs: Seq<MdEventV>, i: int, st: InlineState) -> Option<(InlineState, int)>
    recommends
        0 <= i < evs.len(),
{
    match evs[i] {
        MdEventV::Start(MdTagV::Strong) => Some((InlineState { bold: true, ..st }, i + 1)),
        MdEventV::End(MdTagEnd::Strong) => Some((InlineState { bold: false, ..st }, i + 1)),
        MdEventV::Start(MdTagV::Emphasis) => Some((InlineState { italic: true, ..st }, i + 1)),
        MdEventV::End(MdTagEnd::Emphasis) => Some((InlineState { italic: false, ..st }, i + 1)),
        MdEventV::Start(MdTagV::Strikethrough) => Some((InlineState { strike: true, ..st }, i + 1)),
        MdEventV::End(MdTagEnd::Strikethrough) => Some(
            (InlineState { strike: false, ..st }, i + 1),
        ),
        MdEventV::Start(MdTagV::Link(url)) => Some(
            (InlineState { link_url: Some(url), link_text: Seq::empty(), ..st }, i + 1),
        ),
        MdEventV::End(MdTagEnd::Link) => Some(
            (
                match st.link_url {
                    Some(url) => InlineState {
                        link_url: None,
                        link_text: Seq::empty(),
                        spans: st.spans.push(InlineSpanV::Link { text: st.link_text, url }),
                        ..st
                    },
                    None => st,
                },
                i + 1,
            ),
        ),
        MdEventV::Start(MdTagV::Image(src, title)) => {
            let (alt, j) = spec_image_alt(evs, i + 1, Seq::empty());
            Some(
                (
                    InlineState { spans: st.spans.push(image_span(src, title, alt)), ..st },
                    resume(i, j, evs.len() as int),
                ),
            )
        },
        MdEventV::Text(t) => Some(
            (
                if st.link_url is Some {
                    InlineState { link_text: st.link_text + t, ..st }
                } else {
                    InlineState { spans: st.spans.push(styled_text(st, t)), ..st }
                },
                i + 1,
            ),
        ),
        MdEventV::Code(t) => Some(
            (InlineState { spans: st.spans.push(InlineSpanV::Code(t)), ..st }, i + 1),
        ),
        MdEventV::SoftBreak => Some(
            (InlineState { spans: st.spans.push(InlineSpanV::SoftBreak), ..st }, i + 1),
        ),
        MdEventV::HardBreak => Some(
            (InlineState { spans: st.spans.push(InlineSpanV::HardBreak), ..st }, i + 1),
        ),
        _ => None,
    }
}

/// Spans of an inline scan from `i` up to the closing `end` tag, and the index after.
pub open spec fn spec_inline(evs: Seq<MdEventV>, i: int, end: MdTagEnd, st: InlineState) -> (
    Seq<InlineSpanV>,
    int,
)
    decreases evs.len() - i,
{
    if i < 0 || i >= evs.len() {
        (st.spans, i)
    } else if evs[i] == MdEventV::End(end) {
        (st.spans, i + 1)
    } else {
        match inline_step(evs, i, st) {
            Some((st2, j)) => if i < j <= evs.len() {
                spec_inline(evs, j, end, st2)
            } else {
                (st2.spans, j)
            },
            None => spec_inline(evs, i + 1, end, st),
        }
    }
}

/// The state of a table scan.
pub struct TableState {
    pub in_head: bool,
    pub row: Seq<Seq<char>>,
    pub cell: Seq<char>,
    pub headers: Seq<Seq<char>>,
    pub rows: Seq<Seq<Seq<char>>>,
}

/// The row with the pending cell, trimmed, appended when the cell is not empty; and
/// the pending cell after.
pub open spec fn spec_flush_cell(row: Seq<Seq<char>>, cell: Seq<char>) -> (Seq<Seq<char>>, Seq<char>) {
    if cell.len() > 0 {
        (row.push(spec_trim(cell)), Seq::empty())
    } else {
        (row, cell)
    }
}

/// Header cells, body rows and the index after a table's end, scanning from `i`.
pub open spec fn spec_table(evs: Seq<MdEventV>, i: int, st: TableState) -> (
    Seq<Seq<char>>,
    Seq<Seq<Seq<char>>>,
    int,
)
    decreases evs.len() - i,
{
    if i < 0 || i >= evs.len() {
        (st.headers, st.rows, i)
    } else {
        match evs[i] {
            MdEventV::End(MdTagEnd::Table) => (st.headers, st.rows, i + 1),
            MdEventV::Start(MdTagV::TableHead) => spec_table(
                evs,
                i + 1,
                TableState { in_head: true, ..st },
            ),
            MdEventV::End(MdTagEnd::TableHead) => {
                let (row, cell) = spec_flush_cell(st.row, st.cell);
                if row.len() > 0 {
                    spec_table(
                        evs,
                        i + 1,
                        TableState { in_head: false, row: Seq::empty(), cell, headers: row, ..st },
                    )
                } else {
                    spec_table(evs, i + 1, TableState { in_head: false, row, cell, ..st })
                }
            },
            MdEventV::Start(MdTagV::TableRow) => spec_table(
                evs,
                i + 1,
                TableState { row: Seq::empty(), ..st },
            ),
            MdEventV::End(MdTagEnd::TableRow) => {
                let (row, cell) = spec_flush_cell(st.row, st.cell);
                if !st.in_head && row.len() > 0 {
                    spec_table(
                        evs,
                        i + 1,
                        TableState { row: Seq::empty(), cell, rows: st.rows.push(row), ..st },
                    )
                } else {
                    spec_table(evs, i + 1, TableState { row, cell, ..st })
                }
            },
            MdEventV::Start(MdTagV::TableCell) => spec_table(
                evs,
                i + 1,
                TableState { cell: Seq::empty(), ..st },
            ),
            MdEventV::End(MdTagEnd::TableCell) => spec_table(
                evs,
                i + 1,
                TableState { row: st.row.push(spec_trim(st.cell)), cell: Seq::empty(), ..st },
            ),
            MdEventV::Text(t) => spec_table(evs, i + 1, TableState { cell: st.cell + t, ..st }),
            MdEventV::Code(t) => spec_table(evs, i + 1, TableState { cell: st.cell + t, ..st }),
            _ => spec_table(evs, i + 1, st),
        }
    }
}

/// A table scan that starts with the given header cells and rows.
pub open spec fn table_start(headers: Seq<Seq<char>>, rows: Seq<Seq<Seq<char>>>) -> TableState {
    TableState { in_head: false, row: Seq::empty(), cell: Seq::empty(), headers, rows }
}

/// `nodes` with a list item of the given spans appended, when there are spans.
pub open spec fn push_item(
    nodes: Seq<DocNodeV>,
    depth: usize,
    ordered: bool,
    number: Option<u64>,
    spans: Seq<InlineSpanV>,
) -> Seq<DocNodeV> {
    if spans.len() > 0 {
        nodes.push(DocNodeV::ListItem { depth, ordered, number, children: spans })
    } else {
        nodes
    }
}

/// Nodes after scanning one list item from `i`, and the index after the item.
pub open spec fn spec_item(
    evs: Seq<MdEventV>,
    i: int,
    depth: usize,
    ordered: bool,
    number: Option<u64>,
    st: InlineState,
    nodes: Seq<DocNodeV>,
) -> (Seq<DocNodeV>, int)
    decreases evs.len() - i,
{
    if i < 0 || i >= evs.len() {
        (push_item(nodes, depth, ordered, number, st.spans), i)
    } else {
        match evs[i] {
            MdEventV::End(MdTagEnd::Item) => (push_item(nodes, depth, ordered, number, st.spans), i + 1),
            MdEventV::Start(MdTagV::Paragraph) => {
                let (sp, j) = spec_inline(evs, i + 1, MdTagEnd::Paragraph, inline_start(st.spans));
                if i < j <= evs.len() {
                    spec_item(evs, j, depth, ordered, number, InlineState { spans: sp, ..st }, nodes)
                } else {
                    (nodes, j)
                }
            },
            MdEventV::Start(MdTagV::List(start)) => {
                let nodes1 = push_item(nodes, depth, ordered, number, st.spans);
                let (nodes2, j) = spec_list(
                    evs,
                    i + 1,
                    (depth + 1) as usize,
                    start is Some,
                    match start {
                        Some(n) => n as int,
                        None => 1,
                    },
                    nodes1,
                );
                if i < j <= evs.len() {
                    spec_item(
                        evs,
                        j,
                        depth,
                        ordered,
                        number,
                        InlineState { spans: Seq::empty(), ..st },
                        nodes2,
                    )
                } else {
                    (nodes2, j)
                }
            },
            _ => match inline_step(evs, i, st) {
                Some((st2, j)) => if i < j <= evs.len() {
                    spec_item(evs, j, depth, ordered, number, st2, nodes)
                } else {
                    (nodes, j)
                },
                None => spec_item(evs, i + 1, depth, ordered, number, st, nodes),
            },
        }
    }
}

/// Nodes after scanning the items of a list from `i`, and the index after the list.
/// Items of an ordered list are numbered from `counter` on.
pub open spec fn spec_list(
    evs: Seq<MdEventV>,
    i: int,
    depth: usize,
    ordered: bool,
    counter: int,
    nodes: Seq<DocNodeV>,
) -> (Seq<DocNodeV>, int)
    decreases evs.len() - i,
{
    if i < 0 || i >= evs.len() {
        (nodes, i)
    } else {
        match evs[i] {
            MdEventV::End(MdTagEnd::List) => (nodes, i + 1),
            MdEventV::Start(MdTagV::Item) => {
                let number = if ordered {
                    Some(counter as u64)
                } else {
                    None
                };
                let (nodes2, j) = spec_item(
                    evs,
                    i + 1,
                    depth,
                    ordered,
                    number,
                    inline_start(Seq::empty()),
                    nodes,
                );
                if i < j <= evs.len() {
                    spec_list(
                        evs,
                        j,
                        depth,
                        ordered,
                        if ordered {
                            counter + 1
                        } else {
                            counter
                        },
                        nodes2,
                    )
                } else {
                    (nodes2, j)
                }
            },
            _ => spec_list(evs, i + 1, depth, ordered, counter, nodes),
        }
    }
}

/// The language of a code block: a fenced block's non-empty info string.
pub open spec fn spec_language(info: Option<Seq<char>>) -> Option<Seq<char>> {
    match info {
        Some(s) => if s.len() == 0 {
            None
        } else {
            Some(s)
        },
        None => None,
    }
}

/// The nodes a paragraph of `spans` adds: a lone image becomes an image node.
pub open spec fn paragraph_nodes(acc: Seq<DocNodeV>, spans: Seq<InlineSpanV>) -> Seq<DocNodeV> {
    if spans.len() == 1 && spans[0] is Image {
        acc.push(DocNodeV::Image { src: spans[0]->Image_src, alt: spans[0]->Image_alt }).push(
            DocNodeV::Blank,
        )
    } else if spans.len() > 0 {
        acc.push(DocNodeV::Paragraph(spans)).push(DocNodeV::Blank)
    } else {
        acc
    }
}

/// The block element that starts at `i`, appended to `acc`, and the index after it;
/// `None` when no block element starts at `i`.
pub open spec fn spec_block(evs: Seq<MdEventV>, i: int, acc: Seq<DocNodeV>) -> Option<
    (Seq<DocNodeV>, int),
>
    decreases evs.len() - i, 0int,
{
    if i < 0 || i >= evs.len() {
        None
    } else {
        let len = evs.len() as int;
        match evs[i] {
            MdEventV::Start(MdTagV::Heading(l)) => {
                let (t, j) = spec_heading_text(evs, i + 1, Seq::empty());
                Some(
                    (
                        acc.push(DocNodeV::Heading { level: level_num(l), text: t }).push(
                            DocNodeV::Blank,
                        ),
                        resume(i, j, len),
                    ),
                )
            },
            MdEventV::Start(MdTagV::Paragraph) => {
                let (sp, j) = spec_inline(
                    evs,
                    i + 1,
                    MdTagEnd::Paragraph,
                    inline_start(Seq::empty()),
                );
                Some((paragraph_nodes(acc, sp), resume(i, j, len)))
            },
            MdEventV::Start(MdTagV::CodeBlock(info)) => {
                let (code, j) = spec_code_content(evs, i + 1, Seq::empty());
                Some(
                    (
                        acc.push(DocNodeV::CodeBlock { language: spec_language(info), code }).push(
                            DocNodeV::Blank,
                        ),
                        resume(i, j, len),
                    ),
                )
            },
            MdEventV::Start(MdTagV::BlockQuote) => {
                let (ch, j) = spec_quote(evs, i + 1, Seq::empty());
                Some(
                    (
                        acc.push(DocNodeV::BlockQuote(ch)).push(DocNodeV::Blank),
                        resume(i, j, len),
                    ),
                )
            },
            MdEventV::Start(MdTagV::List(start)) => {
                let (nodes, j) = spec_list(
                    evs,
                    i + 1,
                    0,
                    start is Some,
                    match start {
                        Some(n) => n as int,
                        None => 1,
                    },
                    acc,
                );
                Some((nodes.push(DocNodeV::Blank), resume(i, j, len)))
            },
            MdEventV::Start(MdTagV::Table) => {
                let (headers, rows, j) = spec_table(
                    evs,
                    i + 1,
                    table_start(Seq::empty(), Seq::empty()),
                );
                Some(
                    (
                        acc.push(DocNodeV::Table { headers, rows }).push(DocNodeV::Blank),
                        resume(i, j, len),
                    ),
                )
            },
            MdEventV::Start(MdTagV::Image(src, title)) => {
                let (alt, j) = spec_image_alt(evs, i + 1, Seq::empty());
                Some(
                    (
                        acc.push(
                            DocNodeV::Image {
                                src,
                                alt: if alt.len() == 0 {
                                    title
                                } else {
                                    alt
                                },
                            },
                        ).push(DocNodeV::Blank),
                        resume(i, j, len),
                    ),
                )
            },
            MdEventV::Rule => Some((acc.push(DocNodeV::Rule).push(DocNodeV::Blank), i + 1)),
            _ => None,
        }
    }
}

/// The children of a block quote scanned from `i` up to its end, appended to `acc`,
/// and the index after.
pub open spec fn spec_quote(evs: Seq<MdEventV>, i: int, acc: Seq<DocNodeV>) -> (
    Seq<DocNodeV>,
    int,
)
    decreases evs.len() - i, 1int,
{
    if i < 0 || i >= evs.len() {
        (acc, i)
    } else if evs[i] == MdEventV::End(MdTagEnd::BlockQuote) {
        (acc, i + 1)
    } else {
        match spec_block(evs, i, acc) {
            Some((acc2, j)) => if i < j <= evs.len() {
                spec_quote(evs, j, acc2)
            } else {
                (acc2, j)
            },
            None => spec_quote(evs, i + 1, acc),
        }
    }
}

/// Nodes and table of contents of a document scanned from `i`.
pub open spec fn spec_doc(
    evs: Seq<MdEventV>,
    i: int,
    nodes: Seq<DocNodeV>,
    toc: Seq<TocEntryV>,
) -> (Seq<DocNodeV>, Seq<TocEntryV>)
    decreases evs.len() - i,
{
    if i < 0 || i >= evs.len() {
        (nodes, toc)
    } else {
        match evs[i] {
            MdEventV::Start(MdTagV::Heading(l)) => {
                let (t, j) = spec_heading_text(evs, i + 1, Seq::empty());
                let entry = TocEntryV { level: level_num(l), title: t, node_index: nodes.len() as int };
                let nodes2 = nodes.push(DocNodeV::Heading { level: level_num(l), text: t }).push(
                    DocNodeV::Blank,
                );
                let k = resume(i, j, evs.len() as int);
                spec_doc(evs, k, nodes2, toc.push(entry))
            },
            _ => match spec_block(evs, i, nodes) {
                Some((nodes2, j)) => if i < j <= evs.len() {
                    spec_doc(evs, j, nodes2, toc)
                } else {
                    (nodes2, toc)
                },
                None => spec_doc(evs, i + 1, nodes, toc),
            },
        }
    }
}

/// The document that a whole event stream describes.
pub open spec fn spec_parse_events(evs: Seq<MdEventV>) -> DocumentV {
    let (nodes, toc) = spec_doc(evs, 0, Seq::empty(), Seq::empty());
    DocumentV { nodes, toc }
}

// ---------------------------------------------------------------------------
// The parser
// ---------------------------------------------------------------------------

/// Every event index the parser visits stays within these bounds.
pub open spec fn events_ok(evs: Seq<MdEvent>) -> bool {
    &&& list_starts_bounded(events_view(evs))
    &&& evs.len() <= isize::MAX
}

fn heading_level_to_u8(level: HeadingLevel) -> (n: u8)
    ensures
        n == level_num(level),
{
    match level {
        HeadingLevel::H1 => 1,
        HeadingLevel::H2 => 2,
        HeadingLevel::H3 => 3,
        HeadingLevel::H4 => 4,
        HeadingLevel::H5 => 5,
        HeadingLevel::H6 => 6,
    }
}

fn extract_heading_text(evs: &[MdEvent], start: usize) -> (r: (String, usize))
    requires
        start <= evs@.len(),
    ensures
        (r.0@, r.1 as int) == spec_heading_text(events_view(evs@), start as int, Seq::empty()),
        start <= r.1 <= evs@.len(),
{
    let ghost ev = events_view(evs@);
    let mut text = String::new();
    let mut i = start;
    while i < evs.len()
        invariant
            start <= i <= evs@.len(),
            ev == events_view(evs@),
            spec_heading_text(ev, i as int, text@) == spec_heading_text(
                ev,
                start as int,
                Seq::empty(),
            ),
        decreases evs@.len() - i,
    {
        match &evs[i] {
            MdEvent::Text(t) => {
                push_str(&mut text, t.as_str());
            },
            MdEvent::Code(t) => {
                push_str(&mut text, t.as_str());
            },
            MdEvent::End(MdTagEnd::Heading(_)) => {
                return (text, i + 1);
            },
            _ => {},
        }
        i = i + 1;
    }
    (text, i)
}

fn extract_code_content(evs: &[MdEvent], start: usize) -> (r: (String, usize))
    requires
        start <= evs@.len(),
    ensures
        (r.0@, r.1 as int) == spec_code_content(events_view(evs@), start as int, Seq::empty()),
        start <= r.1 <= evs@.len(),
{
    let ghost ev = events_view(evs@);
    let mut code = String::new();
    let mut i = start;
    while i < evs.len()
        invariant
            start <= i <= evs@.len(),
            ev == events_view(evs@),
            spec_code_content(ev, i as int, code@) == spec_code_content(
                ev,
                start as int,
                Seq::empty(),
            ),
        decreases evs@.len() - i,
    {
        match &evs[i] {
            MdEvent::Text(t) => {
                push_str(&mut code, t.as_str());
            },
            MdEvent::End(MdTagEnd::CodeBlock) => {
                return (code, i + 1);
            },
            _ => {},
        }
        i = i + 1;
    }
    (code, i)
}

fn extract_language(info: &Option<String>) -> (r: Option<String>)
    ensures
        opt_view(r) == spec_language(opt_view(*info)),
{
    match info {
        Some(s) => if s.as_str().is_empty() {
            None
        } else {
            Some(s.clone())
        },
        None => None,
    }
}

fn collect_image_alt_text(evs: &[MdEvent], start: usize) -> (r: (String, usize))
    requires
        start <= evs@.len(),
    ensures
        (r.0@, r.1 as int) == spec_image_alt(events_view(evs@), start as int, Seq::empty()),
        start <= r.1 <= evs@.len(),
{
    let ghost ev = events_view(evs@);
    let mut alt = String::new();
    let mut i = start;
    while i < evs.len()
        invariant
            start <= i <= evs@.len(),
            ev == events_view(evs@),
            spec_image_alt(ev, i as int, alt@) == spec_image_alt(ev, start as int, Seq::empty()),
        decreases evs@.len() - i,
    {
        match &evs[i] {
            MdEvent::End(MdTagEnd::Image) => {
                return (alt, i + 1);
            },
            MdEvent::Text(t) => {
                push_str(&mut alt, t.as_str());
            },
            MdEvent::Code(t) => {
                push_str(&mut alt, t.as_str());
            },
            MdEvent::SoftBreak => {
                push_char(&mut alt, ' ');
            },
            MdEvent::HardBreak => {
                push_char(&mut alt, ' ');
            },
            _ => {},
        }
        i = i + 1;
    }
    (alt, i)
}

/// An inline scan in progress.
struct InlineScan {
    bold: bool,
    italic: bool,
    strike: bool,
    link_url: Option<String>,
    link_text: String,
    spans: Vec<InlineSpan>,
}

impl View for InlineScan {
    type V = InlineState;

    closed spec fn view(&self) -> InlineState {
        InlineState {
            bold: self.bold,
            italic: self.italic,
            strike: self.strike,
            link_url: opt_view(self.link_url),
            link_text: self.link_text@,
            spans: views(self.spans@),
        }
    }
}

fn new_inline_scan() -> (st: InlineScan)
    ensures
        st@ == inline_start(Seq::empty()),
{
    let st = InlineScan {
        bold: false,
        italic: false,
        strike: false,
        link_url: None,
        link_text: String::new(),
        spans: Vec::new(),
    };
    assert(views(st.spans@) =~= Seq::<InlineSpanV>::empty());
    st
}

fn styled_text_span(st: &InlineScan, t: &String) -> (s: InlineSpan)
    ensures
        s@ == styled_text(st@, t@),
{
    let t = t.clone();
    if st.bold && st.italic {
        InlineSpan::BoldItalic(t)
    } else if st.bold {
        InlineSpan::Bold(t)
    } else if st.italic {
        InlineSpan::Italic(t)
    } else if st.strike {
        InlineSpan::Strikethrough(t)
    } else {
        InlineSpan::Text(t)
    }
}

fn push_span(st: &mut InlineScan, s: InlineSpan)
    ensures
        final(st)@ == (InlineState { spans: old(st)@.spans.push(s@), ..old(st)@ }),
{
    proof {
        lemma_views_push(st.spans@, s);
    }
    st.spans.push(s);
}

fn inline_step_exec(evs: &[MdEvent], i: usize, st: &mut InlineScan) -> (r: Option<usize>)
    requires
        i < evs@.len(),
    ensures
        match inline_step(events_view(evs@), i as int, old(st)@) {
            Some((s2, j)) => r == Some(j as usize) && final(st)@ == s2 && i < j <= evs@.len(),
            None => r is None && final(st)@ == old(st)@,
        },
{
    let ghost ev = events_view(evs@);
    assert(ev[i as int] == evs@[i as int]@);
    match &evs[i] {
        MdEvent::Start(MdTag::Strong) => {
            st.bold = true;
            Some(i + 1)
        },
        MdEvent::End(MdTagEnd::Strong) => {
            st.bold = false;
            Some(i + 1)
        },
        MdEvent::Start(MdTag::Emphasis) => {
            st.italic = true;
            Some(i + 1)
        },
        MdEvent::End(MdTagEnd::Emphasis) => {
            st.italic = false;
            Some(i + 1)
        },
        MdEvent::Start(MdTag::Strikethrough) => {
            st.strike = true;
            Some(i + 1)
        },
        MdEvent::End(MdTagEnd::Strikethrough) => {
            st.strike = false;
            Some(i + 1)
        },
        MdEvent::Start(MdTag::Link(url)) => {
            st.link_url = Some(url.clone());
            clear(&mut st.link_text);
            Some(i + 1)
        },
        MdEvent::End(MdTagEnd::Link) => {
            if let Some(url) = st.link_url.take() {
                let text = st.link_text.clone();
                push_span(st, InlineSpan::Link { text, url });
                clear(&mut st.link_text);
            }
            Some(i + 1)
        },
        MdEvent::Start(MdTag::Image(src, title)) => {
            let (alt, j) = collect_image_alt_text(evs, i + 1);
            let alt = if alt.as_str().is_empty() {
                title.clone()
            } else {
                alt
            };
            push_span(st, InlineSpan::Image { src: src.clone(), alt });
            Some(j)
        },
        MdEvent::Text(t) => {
            if st.link_url.is_some() {
                push_str(&mut st.link_text, t.as_str());
            } else {
                let sp = styled_text_span(st, t);
                push_span(st, sp);
            }
            Some(i + 1)
        },
        MdEvent::Code(t) => {
            push_span(st, InlineSpan::Code(t.clone()));
            Some(i + 1)
        },
        MdEvent::SoftBreak => {
            push_span(st, InlineSpan::SoftBreak);
            Some(i + 1)
        },
        MdEvent::HardBreak => {
            push_span(st, InlineSpan::HardBreak);
            Some(i + 1)
        },
        _ => None,
    }
}

fn is_end_of(e: &MdEvent, end: MdTagEnd) -> (b: bool)
    ensures
        b == (e@ == MdEventV::End(end)),
{
    match e {
        MdEvent::End(t) => *t == end,
        _ => false,
    }
}

fn collect_inline_spans(
    evs: &[MdEvent],
    start: usize,
    spans: &mut Vec<InlineSpan>,
    end: MdTagEnd,
) -> (next: usize)
    requires
        start <= evs@.len(),
    ensures
        (views(final(spans)@), next as int) == spec_inline(
            events_view(evs@),
            start as int,
            end,
            inline_start(views(old(spans)@)),
        ),
        start <= next <= evs@.len(),
{
    let ghost ev = events_view(evs@);
    let ghost target = spec_inline(ev, start as int, end, inline_start(views(spans@)));
    let mut st = new_inline_scan();
    std::mem::swap(&mut st.spans, spans);
    let mut i = start;
    while i < evs.len()
        invariant
            start <= i <= evs@.len(),
            ev == events_view(evs@),
            spec_inline(ev, i as int, end, st@) == target,
            target == spec_inline(ev, start as int, end, inline_start(views(old(spans)@))),
        decreases evs@.len() - i,
    {
        assert(ev[i as int] == evs@[i as int]@);
        if is_end_of(&evs[i], end) {
            std::mem::swap(&mut st.spans, spans);
            return i + 1;
        }
        match inline_step_exec(evs, i, &mut st) {
            Some(j) => {
                i = j;
            },
            None => {
                i = i + 1;
            },
        }
    }
    std::mem::swap(&mut st.spans, spans);
    i
}

fn collect_item(
    evs: &[MdEvent],
    start: usize,
    nodes: &mut Vec<DocNode>,
    depth: usize,
    ordered: bool,
    number: Option<u64>,
) -> (next: usize)
    requires
        start <= evs@.len(),
        depth < start,
        events_ok(evs@),
    ensures
        (views(final(nodes)@), next as int) == spec_item(
            events_view(evs@),
            start as int,
            depth,
            ordered,
            number,
            inline_start(Seq::empty()),
            views(old(nodes)@),
        ),
        start <= next <= evs@.len(),
    decreases evs@.len() - start,
{
    let ghost ev = events_view(evs@);
    let ghost target = spec_item(
        ev,
        start as int,
        depth,
        ordered,
        number,
        inline_start(Seq::empty()),
        views(nodes@),
    );
    let mut st = new_inline_scan();
    let mut i = start;
    while i < evs.len()
        invariant
            start <= i <= evs@.len(),
            depth < start,
            events_ok(evs@),
            ev == events_view(evs@),
            spec_item(ev, i as int, depth, ordered, number, st@, views(nodes@)) == target,
            target == spec_item(ev, start as int, depth, ordered, number, inline_start(Seq::empty()), views(old(nodes)@)),
        decreases evs@.len() - i,
    {
        assert(ev[i as int] == evs@[i as int]@);
        match &evs[i] {
            MdEvent::End(MdTagEnd::Item) => {
                finish_item(nodes, depth, ordered, number, &mut st.spans);
                return i + 1;
            },
            MdEvent::Start(MdTag::Paragraph) => {
                let j = collect_inline_spans(evs, i + 1, &mut st.spans, MdTagEnd::Paragraph);
                i = j;
            },
            MdEvent::Start(MdTag::List(start_num)) => {
                finish_item(nodes, depth, ordered, number, &mut st.spans);
                let child_ordered = start_num.is_some();
                let mut child_counter: u64 = match start_num {
                    Some(n) => *n,
                    None => 1,
                };
                let j = collect_list_items(
                    evs,
                    i + 1,
                    nodes,
                    depth + 1,
                    child_ordered,
                    &mut child_counter,
                );
                i = j;
            },
            _ => {
                match inline_step_exec(evs, i, &mut st) {
                    Some(j) => {
                        i = j;
                    },
                    None => {
                        i = i + 1;
                    },
                }
            },
        }
    }
    finish_item(nodes, depth, ordered, number, &mut st.spans);
    i
}

/// Appends the pending spans to `nodes` as a list item, when there are any, and leaves
/// `spans` empty.
fn finish_item(
    nodes: &mut Vec<DocNode>,
    depth: usize,
    ordered: bool,
    number: Option<u64>,
    spans: &mut Vec<InlineSpan>,
)
    ensures
        views(final(nodes)@) == push_item(views(old(nodes)@), depth, ordered, number, views(old(spans)@)),
        final(spans)@.len() == 0,
        views(final(spans)@) == Seq::<InlineSpanV>::empty(),
{
    if spans.len() > 0 {
        let mut children = Vec::new();
        std::mem::swap(&mut children, spans);
        let node = DocNode::ListItem { depth, ordered, number, children };
        proof {
            lemma_views_push(nodes@, node);
        }
        nodes.push(node);
    }
    assert(views(spans@) =~= Seq::<InlineSpanV>::empty());
}

fn collect_list_items(
    evs: &[MdEvent],
    start: usize,
    nodes: &mut Vec<DocNode>,
    depth: usize,
    ordered: bool,
    counter: &mut u64,
) -> (next: usize)
    requires
        start <= evs@.len(),
        depth < start,
        events_ok(evs@),
        *old(counter) <= 1_000_000_000 + start,
    ensures
        (views(final(nodes)@), next as int) == spec_list(
            events_view(evs@),
            start as int,
            depth,
            ordered,
            *old(counter) as int,
            views(old(nodes)@),
        ),
        start <= next <= evs@.len(),
    decreases evs@.len() - start,
{
    let ghost ev = events_view(evs@);
    let ghost target = spec_list(ev, start as int, depth, ordered, *counter as int, views(nodes@));
    let mut i = start;
    while i < evs.len()
        invariant
            start <= i <= evs@.len(),
            depth < start,
            events_ok(evs@),
            ev == events_view(evs@),
            *counter <= 1_000_000_000 + i,
            spec_list(ev, i as int, depth, ordered, *counter as int, views(nodes@)) == target,
            target == spec_list(ev, start as int, depth, ordered, *old(counter) as int, views(old(nodes)@)),
        decreases evs@.len() - i,
    {
        assert(ev[i as int] == evs@[i as int]@);
        match &evs[i] {
            MdEvent::End(MdTagEnd::List) => {
                return i + 1;
            },
            MdEvent::Start(MdTag::Item) => {
                let number = if ordered {
                    let n = *counter;
                    *counter = *counter + 1;
                    Some(n)
                } else {
                    None
                };
                let j = collect_item(evs, i + 1, nodes, depth, ordered, number);
                i = j;
            },
            _ => {
                i = i + 1;
            },
        }
    }
    i
}

fn flush_cell(row: &mut Vec<String>, cell: &mut String)
    ensures
        (views(final(row)@), final(cell)@) == spec_flush_cell(views(old(row)@), old(cell)@),
{
    if !cell.as_str().is_empty() {
        let t = trim(cell.as_str());
        proof {
            lemma_views_push(row@, t);
        }
        row.push(t);
        clear(cell);
    }
}

fn collect_table(
    evs: &[MdEvent],
    start: usize,
    headers: &mut Vec<String>,
    rows: &mut Vec<Vec<String>>,
) -> (next: usize)
    requires
        start <= evs@.len(),
    ensures
        (views(final(headers)@), rows_view(final(rows)@), next as int) == spec_table(
            events_view(evs@),
            start as int,
            table_start(views(old(headers)@), rows_view(old(rows)@)),
        ),
        start <= next <= evs@.len(),
{
    let ghost ev = events_view(evs@);
    let ghost target = spec_table(
        ev,
        start as int,
        table_start(views(headers@), rows_view(rows@)),
    );
    let mut in_head = false;
    let mut current_row: Vec<String> = Vec::new();
    let mut current_cell = String::new();
    assert(views(current_row@) =~= Seq::<Seq<char>>::empty());
    let mut i = start;
    while i < evs.len()
        invariant
            start <= i <= evs@.len(),
            ev == events_view(evs@),
            target == spec_table(
                ev,
                start as int,
                table_start(views(old(headers)@), rows_view(old(rows)@)),
            ),
            spec_table(
                ev,
                i as int,
                TableState {
                    in_head,
                    row: views(current_row@),
                    cell: current_cell@,
                    headers: views(headers@),
                    rows: rows_view(rows@),
                },
            ) == target,
        decreases evs@.len() - i,
    {
        assert(ev[i as int] == evs@[i as int]@);
        match &evs[i] {
            MdEvent::End(MdTagEnd::Table) => {
                return i + 1;
            },
            MdEvent::Start(MdTag::TableHead) => {
                in_head = true;
            },
            MdEvent::End(MdTagEnd::TableHead) => {
                flush_cell(&mut current_row, &mut current_cell);
                if current_row.len() > 0 {
                    let mut row = Vec::new();
                    std::mem::swap(&mut row, &mut current_row);
                    *headers = row;
                    assert(views(current_row@) =~= Seq::<Seq<char>>::empty());
                }
                in_head = false;
            },
            MdEvent::Start(MdTag::TableRow) => {
                current_row = Vec::new();
                assert(views(current_row@) =~= Seq::<Seq<char>>::empty());
            },
            MdEvent::End(MdTagEnd::TableRow) => {
                flush_cell(&mut current_row, &mut current_cell);
                if !in_head && current_row.len() > 0 {
                    let mut row = Vec::new();
                    std::mem::swap(&mut row, &mut current_row);
                    proof {
                        lemma_rows_view_push(rows@, row);
                    }
                    rows.push(row);
                    assert(views(current_row@) =~= Seq::<Seq<char>>::empty());
                }
            },
            MdEvent::Start(MdTag::TableCell) => {
                clear(&mut current_cell);
            },
            MdEvent::End(MdTagEnd::TableCell) => {
                let t = trim(current_cell.as_str());
                proof {
                    lemma_views_push(current_row@, t);
                }
                current_row.push(t);
                clear(&mut current_cell);
            },
            MdEvent::Text(t) => {
                push_str(&mut current_cell, t.as_str());
            },
            MdEvent::Code(t) => {
                push_str(&mut current_cell, t.as_str());
            },
            _ => {},
        }
        i = i + 1;
    }
    i
}

fn push_node(acc: &mut Vec<DocNode>, n: DocNode)
    ensures
        views(final(acc)@) == views(old(acc)@).push(n@),
{
    proof {
        lemma_views_push(acc@, n);
    }
    acc.push(n);
}

fn push_paragraph(acc: &mut Vec<DocNode>, spans: Vec<InlineSpan>)
    ensures
        views(final(acc)@) == paragraph_nodes(views(old(acc)@), views(spans@)),
{
    if spans.len() == 1 {
        if let InlineSpan::Image { src, alt } = &spans[0] {
            push_node(acc, DocNode::Image { src: src.clone(), alt: alt.clone() });
            push_node(acc, DocNode::Blank);
            return ;
        }
    }
    if spans.len() > 0 {
        push_node(acc, DocNode::Paragraph(spans));
        push_node(acc, DocNode::Blank);
    }
}

fn push_block(evs: &[MdEvent], i: usize, acc: &mut Vec<DocNode>) -> (r: Option<usize>)
    requires
        i < evs@.len(),
        events_ok(evs@),
    ensures
        match spec_block(events_view(evs@), i as int, views(old(acc)@)) {
            Some((a2, j)) => r == Some(j as usize) && views(final(acc)@) == a2 && i < j <= evs@.len(),
            None => r is None && final(acc)@ == old(acc)@,
        },
    decreases evs@.len() - i, 0usize,
{
    let ghost ev = events_view(evs@);
    assert(ev[i as int] == evs@[i as int]@);
    match &evs[i] {
        MdEvent::Start(MdTag::Heading(l)) => {
            let (text, j) = extract_heading_text(evs, i + 1);
            let level = heading_level_to_u8(*l);
            push_node(acc, DocNode::Heading { level, text });
            push_node(acc, DocNode::Blank);
            Some(j)
        },
        MdEvent::Start(MdTag::Paragraph) => {
            let mut spans = Vec::new();
            assert(views(spans@) =~= Seq::<InlineSpanV>::empty());
            let j = collect_inline_spans(evs, i + 1, &mut spans, MdTagEnd::Paragraph);
            push_paragraph(acc, spans);
            Some(j)
        },
        MdEvent::Start(MdTag::CodeBlock(info)) => {
            let language = extract_language(info);
            let (code, j) = extract_code_content(evs, i + 1);
            push_node(acc, DocNode::CodeBlock { language, code });
            push_node(acc, DocNode::Blank);
            Some(j)
        },
        MdEvent::Start(MdTag::BlockQuote) => {
            let mut children = Vec::new();
            assert(views(children@) =~= Seq::<DocNodeV>::empty());
            let j = collect_blockquote(evs, i + 1, &mut children);
            proof {
                lemma_quote_view(children);
            }
            push_node(acc, DocNode::BlockQuote(children));
            push_node(acc, DocNode::Blank);
            Some(j)
        },
        MdEvent::Start(MdTag::List(start_num)) => {
            let ordered = start_num.is_some();
            let mut counter: u64 = match start_num {
                Some(n) => *n,
                None => 1,
            };
            let j = collect_list_items(evs, i + 1, acc, 0, ordered, &mut counter);
            push_node(acc, DocNode::Blank);
            Some(j)
        },
        MdEvent::Start(MdTag::Table) => {
            let mut headers: Vec<String> = Vec::new();
            let mut rows: Vec<Vec<String>> = Vec::new();
            assert(views(headers@) =~= Seq::<Seq<char>>::empty());
            assert(rows_view(rows@) =~= Seq::<Seq<Seq<char>>>::empty());
            let j = collect_table(evs, i + 1, &mut headers, &mut rows);
            push_node(acc, DocNode::Table { headers, rows });
            push_node(acc, DocNode::Blank);
            Some(j)
        },
        MdEvent::Start(MdTag::Image(src, title)) => {
            let (alt, j) = collect_image_alt_text(evs, i + 1);
            let alt = if alt.as_str().is_empty() {
                title.clone()
            } else {
                alt
            };
            push_node(acc, DocNode::Image { src: src.clone(), alt });
            push_node(acc, DocNode::Blank);
            Some(j)
        },
        MdEvent::Rule => {
            push_node(acc, DocNode::Rule);
            push_node(acc, DocNode::Blank);
            Some(i + 1)
        },
        _ => None,
    }
}

fn collect_blockquote(evs: &[MdEvent], start: usize, children: &mut Vec<DocNode>) -> (next: usize)
    requires
        start <= evs@.len(),
        events_ok(evs@),
    ensures
        (views(final(children)@), next as int) == spec_quote(
            events_view(evs@),
            start as int,
            views(old(children)@),
        ),
        start <= next <= evs@.len(),
    decreases evs@.len() - start, 1usize,
{
    let ghost ev = events_view(evs@);
    let ghost target = spec_quote(ev, start as int, views(children@));
    let mut i = start;
    while i < evs.len()
        invariant
            start <= i <= evs@.len(),
            events_ok(evs@),
            ev == events_view(evs@),
            target == spec_quote(ev, start as int, views(old(children)@)),
            spec_quote(ev, i as int, views(children@)) == target,
        decreases evs@.len() - i,
    {
        assert(ev[i as int] == evs@[i as int]@);
        if is_end_of(&evs[i], MdTagEnd::BlockQuote) {
            return i + 1;
        }
        match push_block(evs, i, children) {
            Some(j) => {
                i = j;
            },
            None => {
                i = i + 1;
            },
        }
    }
    i
}

/// The document that an event stream describes.
pub fn parse_events(evs: &[MdEvent]) -> (doc: Document)
    requires
        events_ok(evs@),
    ensures
        doc@ == spec_parse_events(events_view(evs@)),
{
    let ghost ev = events_view(evs@);
    let mut nodes: Vec<DocNode> = Vec::new();
    let mut toc: Vec<TocEntry> = Vec::new();
    assert(views(nodes@) =~= Seq::<DocNodeV>::empty());
    assert(views(toc@) =~= Seq::<TocEntryV>::empty());
    let mut i: usize = 0;
    while i < evs.len()
        invariant
            i <= evs@.len(),
            events_ok(evs@),
            ev == events_view(evs@),
            spec_doc(ev, i as int, views(nodes@), views(toc@)) == spec_doc(
                ev,
                0,
                Seq::empty(),
                Seq::empty(),
            ),
        decreases evs@.len() - i,
    {
        assert(ev[i as int] == evs@[i as int]@);
        match &evs[i] {
            MdEvent::Start(MdTag::Heading(l)) => {
                let (text, j) = extract_heading_text(evs, i + 1);
                let level = heading_level_to_u8(*l);
                let entry = TocEntry { level, title: text.clone(), node_index: nodes.len() };
                proof {
                    lemma_views_push(toc@, entry);
                }
                toc.push(entry);
                push_node(&mut nodes, DocNode::Heading { level, text });
                push_node(&mut nodes, DocNode::Blank);
                i = j;
            },
            _ => {
                match push_block(evs, i, &mut nodes) {
                    Some(j) => {
                        i = j;
                    },
                    None => {
                        i = i + 1;
                    },
                }
            },
        }
    }
    Document { nodes, toc }
}

/// Parses Markdown into nodes and a table of contents.
pub fn parse(markdown: &str) -> (doc: Document)
    ensures
        doc@ == spec_parse_events(cmark_events(markdown@)),
        toc_consistent(doc@.nodes, doc@.toc),
{
    let evs = markdown_events(markdown);
    proof {
        law_toc_names_headings(cmark_events(markdown@));
    }
    parse_events(evs.as_slice())
}

// ---------------------------------------------------------------------------
// Laws
// ---------------------------------------------------------------------------

/// `pre` is a prefix of `s`.
pub open spec fn is_prefix<T>(pre: Seq<T>, s: Seq<T>) -> bool {
    pre.len() <= s.len() && s.subrange(0, pre.len() as int) == pre
}

proof fn lemma_prefix_push<T>(pre: Seq<T>, s: Seq<T>, x: T)
    requires
        is_prefix(pre, s),
    ensures
        is_prefix(pre, s.push(x)),
{
    assert(s.push(x).subrange(0, pre.len() as int) =~= s.subrange(0, pre.len() as int));
}

proof fn lemma_prefix_trans<T>(a: Seq<T>, b: Seq<T>, c: Seq<T>)
    requires
        is_prefix(a, b),
        is_prefix(b, c),
    ensures
        is_prefix(a, c),
{
    assert(c.subrange(0, a.len() as int) =~= b.subrange(0, a.len() as int));
}

proof fn lemma_prefix_refl<T>(a: Seq<T>)
    ensures
        is_prefix(a, a),
{
    assert(a.subrange(0, a.len() as int) =~= a);
}

proof fn lemma_push_item_prefix(
    nodes: Seq<DocNodeV>,
    depth: usize,
    ordered: bool,
    number: Option<u64>,
    spans: Seq<InlineSpanV>,
)
    ensures
        is_prefix(nodes, push_item(nodes, depth, ordered, number, spans)),
{
    lemma_prefix_refl(nodes);
    if spans.len() > 0 {
        lemma_prefix_push(nodes, nodes, DocNodeV::ListItem { depth, ordered, number, children: spans });
    }
}

/// Scanning a list item or a list only appends nodes.
proof fn lemma_list_appends(
    evs: Seq<MdEventV>,
    i: int,
    depth: usize,
    ordered: bool,
    number: Option<u64>,
    st: InlineState,
    counter: int,
    nodes: Seq<DocNodeV>,
    item: bool,
)
    ensures
        item ==> is_prefix(nodes, spec_item(evs, i, depth, ordered, number, st, nodes).0),
        !item ==> is_prefix(nodes, spec_list(evs, i, depth, ordered, counter, nodes).0),
    decreases evs.len() - i, if item { 1int } else { 0int },
{
    lemma_prefix_refl(nodes);
    if 0 <= i < evs.len() {
        if item {
            match evs[i] {
                MdEventV::End(MdTagEnd::Item) => {
                    lemma_push_item_prefix(nodes, depth, ordered, number, st.spans);
                },
                MdEventV::Start(MdTagV::Paragraph) => {
                    let (sp, j) = spec_inline(evs, i + 1, MdTagEnd::Paragraph, inline_start(st.spans));
                    if i < j <= evs.len() {
                        lemma_list_appends(evs, j, depth, ordered, number, InlineState { spans: sp, ..st }, counter, nodes, true);
                    }
                },
                MdEventV::Start(MdTagV::List(start)) => {
                    let nodes1 = push_item(nodes, depth, ordered, number, st.spans);
                    lemma_push_item_prefix(nodes, depth, ordered, number, st.spans);
                    let c = match start {
                        Some(n) => n as int,
                        None => 1,
                    };
                    let (nodes2, j) = spec_list(evs, i + 1, (depth + 1) as usize, start is Some, c, nodes1);
                    lemma_list_appends(evs, i + 1, (depth + 1) as usize, start is Some, None, st, c, nodes1, false);
                    lemma_prefix_trans(nodes, nodes1, nodes2);
                    if i < j <= evs.len() {
                        let st2 = InlineState { spans: Seq::empty(), ..st };
                        lemma_list_appends(evs, j, depth, ordered, number, st2, counter, nodes2, true);
                        lemma_prefix_trans(nodes, nodes2, spec_item(evs, j, depth, ordered, number, st2, nodes2).0);
                    }
                },
                _ => {
                    match inline_step(evs, i, st) {
                        Some((st2, j)) => if i < j <= evs.len() {
                            lemma_list_appends(evs, j, depth, ordered, number, st2, counter, nodes, true);
                        },
                        None => {
                            lemma_list_appends(evs, i + 1, depth, ordered, number, st, counter, nodes, true);
                        },
                    }
                },
            }
        } else {
            match evs[i] {
                MdEventV::End(MdTagEnd::List) => {},
                MdEventV::Start(MdTagV::Item) => {
                    let num = if ordered {
                        Some(counter as u64)
                    } else {
                        None
                    };
                    let (nodes2, j) = spec_item(evs, i + 1, depth, ordered, num, inline_start(Seq::empty()), nodes);
                    lemma_list_appends(evs, i + 1, depth, ordered, num, inline_start(Seq::empty()), counter, nodes, true);
                    if i < j <= evs.len() {
                        let c2 = if ordered {
                            counter + 1
                        } else {
                            counter
                        };
                        lemma_list_appends(evs, j, depth, ordered, number, st, c2, nodes2, false);
                        lemma_prefix_trans(nodes, nodes2, spec_list(evs, j, depth, ordered, c2, nodes2).0);
                    }
                },
                _ => {
                    lemma_list_appends(evs, i + 1, depth, ordered, number, st, counter, nodes, false);
                },
            }
        }
    } else if item {
        lemma_push_item_prefix(nodes, depth, ordered, number, st.spans);
    }
}

/// A block element only appends nodes.
proof fn lemma_block_appends(evs: Seq<MdEventV>, i: int, acc: Seq<DocNodeV>)
    ensures
        spec_block(evs, i, acc) matches Some((acc2, _)) ==> is_prefix(acc, acc2),
{
    lemma_prefix_refl(acc);
    if 0 <= i < evs.len() {
        match evs[i] {
            MdEventV::Start(MdTagV::List(start)) => {
                let c = match start {
                    Some(n) => n as int,
                    None => 1,
                };
                let nodes = spec_list(evs, i + 1, 0, start is Some, c, acc).0;
                lemma_list_appends(evs, i + 1, 0, start is Some, None, inline_start(Seq::empty()), c, acc, false);
                lemma_prefix_push(acc, nodes, DocNodeV::Blank);
            },
            MdEventV::Start(MdTagV::Paragraph) => {
                let sp = spec_inline(evs, i + 1, MdTagEnd::Paragraph, inline_start(Seq::empty())).0;
                if sp.len() == 1 && sp[0] is Image {
                    let a1 = acc.push(DocNodeV::Image { src: sp[0]->Image_src, alt: sp[0]->Image_alt });
                    lemma_prefix_push(acc, acc, DocNodeV::Image { src: sp[0]->Image_src, alt: sp[0]->Image_alt });
                    lemma_prefix_push(acc, a1, DocNodeV::Blank);
                } else if sp.len() > 0 {
                    lemma_prefix_push(acc, acc, DocNodeV::Paragraph(sp));
                    lemma_prefix_push(acc, acc.push(DocNodeV::Paragraph(sp)), DocNodeV::Blank);
                }
            },
            _ => {
                if let Some((acc2, _)) = spec_block(evs, i, acc) {
                    assert(acc2.len() == acc.len() + 2);
                    assert(acc2.subrange(0, acc.len() as int) =~= acc);
                }
            },
        }
    }
}

/// Every table-of-contents entry names a heading node with the entry's level and
/// title, and the entries follow the document order.
pub open spec fn toc_consistent(nodes: Seq<DocNodeV>, toc: Seq<TocEntryV>) -> bool {
    &&& forall|k: int|
        0 <= k < toc.len() ==> {
            &&& 0 <= (#[trigger] toc[k]).node_index < nodes.len()
            &&& nodes[toc[k].node_index] == DocNodeV::Heading {
                level: toc[k].level,
                text: toc[k].title,
            }
            &&& 1 <= toc[k].level <= 6
        }
    &&& forall|k1: int, k2: int|
        0 <= k1 < k2 < toc.len() ==> (#[trigger] toc[k1]).node_index < (#[trigger] toc[k2]).node_index
}

proof fn lemma_toc_consistent_extend(nodes: Seq<DocNodeV>, nodes2: Seq<DocNodeV>, toc: Seq<TocEntryV>)
    requires
        toc_consistent(nodes, toc),
        is_prefix(nodes, nodes2),
    ensures
        toc_consistent(nodes2, toc),
{
    assert forall|k: int| 0 <= k < toc.len() implies nodes2[toc[k].node_index] == nodes[toc[k].node_index] by {
        assert(nodes2.subrange(0, nodes.len() as int)[toc[k].node_index] == nodes2[toc[k].node_index]);
    }
}

proof fn lemma_doc_toc(evs: Seq<MdEventV>, i: int, nodes: Seq<DocNodeV>, toc: Seq<TocEntryV>)
    requires
        toc_consistent(nodes, toc),
        forall|k: int| 0 <= k < toc.len() ==> (#[trigger] toc[k]).node_index < nodes.len(),
    ensures
        ({
            let (n2, t2) = spec_doc(evs, i, nodes, toc);
            toc_consistent(n2, t2)
        }),
    decreases evs.len() - i,
{
    if 0 <= i < evs.len() {
        match evs[i] {
            MdEventV::Start(MdTagV::Heading(l)) => {
                let (t, j) = spec_heading_text(evs, i + 1, Seq::empty());
                let entry = TocEntryV { level: level_num(l), title: t, node_index: nodes.len() as int };
                let nodes2 = nodes.push(DocNodeV::Heading { level: level_num(l), text: t }).push(
                    DocNodeV::Blank,
                );
                let toc2 = toc.push(entry);
                lemma_prefix_refl(nodes);
                lemma_prefix_push(nodes, nodes, DocNodeV::Heading { level: level_num(l), text: t });
                lemma_prefix_push(nodes, nodes.push(DocNodeV::Heading { level: level_num(l), text: t }), DocNodeV::Blank);
                lemma_toc_consistent_extend(nodes, nodes2, toc);
                assert(toc_consistent(nodes2, toc2));
                lemma_doc_toc(evs, resume(i, j, evs.len() as int), nodes2, toc2);
            },
            _ => {
                lemma_block_appends(evs, i, nodes);
                match spec_block(evs, i, nodes) {
                    Some((nodes2, j)) => {
                        lemma_toc_consistent_extend(nodes, nodes2, toc);
                        if i < j <= evs.len() {
                            lemma_doc_toc(evs, j, nodes2, toc);
                        }
                    },
                    None => {
                        lemma_doc_toc(evs, i + 1, nodes, toc);
                    },
                }
            },
        }
    }
}

/// Every table-of-contents entry of a parsed document names a heading node of the
/// document with the entry's level (1 to 6) and title, and the entries follow the
/// order of the headings.
pub proof fn law_toc_names_headings(evs: Seq<MdEventV>)
    ensures
        toc_consistent(spec_parse_events(evs).nodes, spec_parse_events(evs).toc),
{
    lemma_doc_toc(evs, 0, Seq::empty(), Seq::empty());
}


// ---------------------------------------------------------------------------
// Numbering of ordered lists
// ---------------------------------------------------------------------------

/// The events of list items holding the texts `texts`, one after another, as a tight
/// list gives them.
pub open spec fn item_events(texts: Seq<Seq<char>>) -> Seq<MdEventV>
    decreases texts.len(),
{
    if texts.len() == 0 {
        Seq::empty()
    } else {
        item_events(texts.drop_last()) + seq![
            MdEventV::Start(MdTagV::Item),
            MdEventV::Text(texts.last()),
            MdEventV::End(MdTagEnd::Item),
        ]
    }
}

/// The events of a list with one item per text: numbered from `n` where `start` is
/// `Some(n)`, bulleted where it is `None`.
pub open spec fn list_events(start: Option<u64>, texts: Seq<Seq<char>>) -> Seq<MdEventV> {
    seq![MdEventV::Start(MdTagV::List(start))] + item_events(texts) + seq![MdEventV::End(MdTagEnd::List)]
}

proof fn lemma_item_events_index(texts: Seq<Seq<char>>, k: int)
    requires
        0 <= k < texts.len(),
    ensures
        item_events(texts).len() == 3 * texts.len(),
        item_events(texts)[3 * k] == MdEventV::Start(MdTagV::Item),
        item_events(texts)[3 * k + 1] == MdEventV::Text(texts[k]),
        item_events(texts)[3 * k + 2] == MdEventV::End(MdTagEnd::Item),
    decreases texts.len(),
{
    lemma_item_events_len(texts);
    let t0 = texts.drop_last();
    lemma_item_events_len(t0);
    if k < texts.len() - 1 {
        lemma_item_events_index(t0, k);
    }
}

proof fn lemma_item_events_len(texts: Seq<Seq<char>>)
    ensures
        item_events(texts).len() == 3 * texts.len(),
    decreases texts.len(),
{
    if texts.len() > 0 {
        lemma_item_events_len(texts.drop_last());
    }
}

/// The item that the `k`-th of `texts` becomes in a list at `depth` whose items are
/// numbered from `n` where `ordered`.
pub open spec fn list_item_at(depth: usize, ordered: bool, n: int, texts: Seq<Seq<char>>, k: int) -> DocNodeV {
    DocNodeV::ListItem {
        depth,
        ordered,
        number: if ordered {
            Some((n + k) as u64)
        } else {
            None
        },
        children: seq![InlineSpanV::Text(texts[k])],
    }
}

pub open spec fn list_items(depth: usize, ordered: bool, n: int, texts: Seq<Seq<char>>) -> Seq<DocNodeV> {
    Seq::new(texts.len(), |k: int| list_item_at(depth, ordered, n, texts, k))
}

proof fn lemma_list_items_numbered(
    evs: Seq<MdEventV>,
    start: Option<u64>,
    depth: usize,
    n: int,
    texts: Seq<Seq<char>>,
    k: int,
    acc: Seq<DocNodeV>,
)
    requires
        evs == list_events(start, texts),
        0 <= k <= texts.len(),
    ensures
        spec_list(
            evs,
            1 + 3 * k,
            depth,
            start is Some,
            if start is Some { n + k } else { n },
            acc + list_items(depth, start is Some, n, texts).take(k),
        ) == (acc + list_items(depth, start is Some, n, texts), evs.len() as int),
    decreases texts.len() - k,
{
    let m = texts.len() as int;
    let ordered = start is Some;
    let items = list_items(depth, ordered, n, texts);
    let counter = if ordered { n + k } else { n };
    lemma_item_events_len(texts);
    assert(evs.len() == 3 * m + 2);
    if k == m {
        assert(evs[1 + 3 * m] == MdEventV::End(MdTagEnd::List));
        assert(items.take(k) =~= items);
    } else {
        lemma_item_events_index(texts, k);
        let i = 1 + 3 * k;
        assert(evs[i] == MdEventV::Start(MdTagV::Item));
        assert(evs[i + 1] == MdEventV::Text(texts[k]));
        assert(evs[i + 2] == MdEventV::End(MdTagEnd::Item));
        let here = acc + items.take(k);
        let number = if ordered { Some(counter as u64) } else { None };
        let st = inline_start(Seq::empty());
        let st2 = InlineState { spans: st.spans.push(InlineSpanV::Text(texts[k])), ..st };
        assert(inline_step(evs, i + 1, st) == Some((st2, i + 2)));
        assert(items[k] == list_item_at(depth, ordered, n, texts, k));
        assert(spec_item(evs, i + 2, depth, ordered, number, st2, here) == (here.push(items[k]), i + 3));
        assert(spec_item(evs, i + 1, depth, ordered, number, st, here) == (here.push(items[k]), i + 3));
        assert(here.push(items[k]) =~= acc + items.take(k + 1));
        lemma_list_items_numbered(evs, start, depth, n, texts, k + 1, acc);
    }
}

/// Parsing a list numbers an ordered list's items `n`, `n + 1`, `n + 2`, ... in order
/// from its start `n` (the `k`-th item carries `n + k`), and gives a bulleted list's items
/// no number; each item holds its own text, and a blank line follows the list.
pub proof fn law_list_items_count_up(start: Option<u64>, texts: Seq<Seq<char>>)
    ensures
        ({
            let nodes = spec_parse_events(list_events(start, texts)).nodes;
            &&& nodes.len() == texts.len() + 1
            &&& forall|k: int| 0 <= k < texts.len() ==> #[trigger] nodes[k] == (DocNodeV::ListItem {
                depth: 0,
                ordered: start is Some,
                number: match start {
                    Some(n) => Some((n + k) as u64),
                    None => None,
                },
                children: seq![InlineSpanV::Text(texts[k])],
            })
            &&& nodes[texts.len() as int] == DocNodeV::Blank
        }),
{
    let evs = list_events(start, texts);
    let n: int = match start {
        Some(n) => n as int,
        None => 1,
    };
    lemma_item_events_len(texts);
    let empty = Seq::<DocNodeV>::empty();
    lemma_list_items_numbered(evs, start, 0, n, texts, 0, empty);
    let items = list_items(0, start is Some, n, texts);
    assert(empty + items.take(0) =~= empty);
    assert(empty + items =~= items);
    assert(evs[0] == MdEventV::Start(MdTagV::List(start)));
    assert(spec_block(evs, 0, empty) == Some((items.push(DocNodeV::Blank), evs.len() as int)));
    assert(spec_doc(evs, evs.len() as int, items.push(DocNodeV::Blank), Seq::empty()) == (
        items.push(DocNodeV::Blank),
        Seq::<TocEntryV>::empty(),
    ));
    assert forall|k: int| 0 <= k < texts.len() implies #[trigger] items.push(DocNodeV::Blank)[k] == (DocNodeV::ListItem {
        depth: 0,
        ordered: start is Some,
        number: match start {
            Some(n) => Some((n + k) as u64),
            None => None,
        },
        children: seq![InlineSpanV::Text(texts[k])],
    }) by {
        assert(items[k] == list_item_at(0, start is Some, n, texts, k));
    }
}

} // verus!
