//! Renderer: lays document nodes out as styled terminal lines.
use crate::parser::views;
use crate::width::{char_width, spec_char_width, spec_str_width};
use vstd::prelude::*;

pub mod inline;
pub mod measure;
pub mod table;
pub mod code;
pub mod nodes;
pub mod search;
pub mod fits;

verus! {

/// Lines reserved for an image.
pub const IMAGE_RENDER_HEIGHT: usize = 10;

/// Columns of padding on each side of inline code.
pub const INLINE_CODE_PADDING: usize = 1;

/// Spaces of indentation per list nesting level.
pub const LIST_INDENT_PER_DEPTH: usize = 2;

/// The narrowest text column a list item wraps to.
pub const LIST_MIN_AVAILABLE_WIDTH: usize = 10;

pub const CODE_BLOCK_LEFT_BORDER: &'static str = "│ ";
pub const CODE_BLOCK_RIGHT_BORDER: &'static str = "│";
pub const CODE_BLOCK_TOP_LEFT: &'static str = "╭─ ";
pub const CODE_BLOCK_TOP_RIGHT: &'static str = "╮";
pub const CODE_BLOCK_BOTTOM_LEFT: &'static str = "╰─";
pub const CODE_BLOCK_BOTTOM_RIGHT: &'static str = "┘";
pub const CODE_BLOCK_SPACE_BEFORE_DASHES: usize = 1;

pub const BLOCKQUOTE_LEFT_BORDER: &'static str = "│ ";
pub const BLOCKQUOTE_RIGHT_BORDER: &'static str = "│";
pub const BLOCKQUOTE_TOP_LEFT: &'static str = "╭─";
pub const BLOCKQUOTE_TOP_RIGHT: &'static str = "─╮";
pub const BLOCKQUOTE_BOTTOM_LEFT: &'static str = "╰─";
pub const BLOCKQUOTE_BOTTOM_RIGHT: &'static str = "─╯";
pub const BLOCKQUOTE_HORIZONTAL: &'static str = "─";

pub const RULE_CHAR: &'static str = "─";

pub const TABLE_VERTICAL_BORDER: &'static str = "│";
pub const TABLE_TOP_LEFT: &'static str = "╭";
pub const TABLE_TOP_MID: &'static str = "┬";
pub const TABLE_TOP_RIGHT: &'static str = "╮";
pub const TABLE_MID_LEFT: &'static str = "├";
pub const TABLE_MID_MID: &'static str = "┼";
pub const TABLE_MID_RIGHT: &'static str = "┤";
pub const TABLE_BOTTOM_LEFT: &'static str = "╰";
pub const TABLE_BOTTOM_MID: &'static str = "┴";
pub const TABLE_BOTTOM_RIGHT: &'static str = "╯";
pub const TABLE_CELL_PADDING: usize = 1;
pub const TABLE_CELL_PADDING_TOTAL: usize = 2;
pub const TABLE_MIN_COL_WIDTH: usize = 3;

/// Foreground colour and font of a highlighted code token.
#[derive(Clone, Copy, Debug, PartialEq, Eq, Structural)]
pub struct CodeStyle {
    pub r: u8,
    pub g: u8,
    pub b: u8,
    pub bold: bool,
    pub italic: bool,
}

/// The role a span plays; the theme decides how each role looks.
#[derive(Clone, Copy, Debug, PartialEq, Eq, Structural)]
pub enum SpanStyle {
    /// No styling.
    Plain,
    Text,
    Subtext,
    Bold,
    Italic,
    BoldItalic,
    Strikethrough,
    InlineCode,
    Link,
    Heading(u8),
    BlockquoteBar,
    Rule,
    TableHeader,
    TableBorder,
    TableRowEven,
    TableRowOdd,
    Bullet(usize),
    CodeBlockBorder,
    CodeBlockLang,
    Code(CodeStyle),
    SearchMatch,
    SearchCurrent,
}

/// A run of text with one style.
#[derive(Clone, Debug, PartialEq)]
pub struct StyledSpan {
    pub content: String,
    pub style: SpanStyle,
}

/// One terminal line.
#[derive(Clone, Debug, PartialEq, Default)]
pub struct StyledLine {
    pub spans: Vec<StyledSpan>,
}

pub struct SpanV {
    pub content: Seq<char>,
    pub style: SpanStyle,
}

impl View for StyledSpan {
    type V = SpanV;

    open spec fn view(&self) -> SpanV {
        SpanV { content: self.content@, style: self.style }
    }
}

impl View for StyledLine {
    type V = Seq<SpanV>;

    open spec fn view(&self) -> Seq<SpanV> {
        views(self.spans@)
    }
}

/// The display width of `text` in terminal columns.
pub fn display_width(text: &str, cjk: bool) -> (w: usize)
    requires
        spec_str_width(text@, cjk) <= usize::MAX,
    ensures
        w == spec_str_width(text@, cjk),
        w <= 3 * text@.len(),
{
    crate::width::str_width(text, cjk)
}

/// The text of a line: its spans' contents in order.
pub open spec fn line_text(l: Seq<SpanV>) -> Seq<char>
    decreases l.len(),
{
    if l.len() == 0 {
        Seq::empty()
    } else {
        line_text(l.drop_last()) + l.last().content
    }
}

/// The display width of a line.
pub open spec fn line_width(l: Seq<SpanV>, cjk: bool) -> nat {
    spec_str_width(line_text(l), cjk)
}

impl StyledLine {
    /// A line of one span.
    pub fn from_span(content: String, style: SpanStyle) -> (l: StyledLine)
        ensures
            l@ == seq![SpanV { content: content@, style }],
    {
        let mut spans = Vec::new();
        spans.push(StyledSpan { content, style });
        let l = StyledLine { spans };
        assert(l@ =~= seq![SpanV { content: l.spans@[0].content@, style }]);
        l
    }

    /// A copy of the line.
    pub fn copy(&self) -> (l: StyledLine)
        ensures
            l@ == self@,
    {
        let mut spans: Vec<StyledSpan> = Vec::new();
        let mut k: usize = 0;
        while k < self.spans.len()
            invariant
                k <= self.spans@.len(),
                views(spans@) == self@.take(k as int),
            decreases self.spans@.len() - k,
        {
            let sp = StyledSpan { content: self.spans[k].content.clone(), style: self.spans[k].style };
            proof {
                crate::parser::lemma_views_push(spans@, sp);
                assert(self@.take(k + 1) =~= self@.take(k as int).push(self@[k as int]));
            }
            spans.push(sp);
            k = k + 1;
        }
        assert(self@.take(self.spans@.len() as int) =~= self@);
        StyledLine { spans }
    }

    /// The text of the line.
    pub fn text(&self) -> (s: String)
        ensures
            s@ == line_text(self@),
    {
        let mut s = String::new();
        let mut k: usize = 0;
        while k < self.spans.len()
            invariant
                k <= self.spans@.len(),
                s@ == line_text(self@.take(k as int)),
            decreases self.spans@.len() - k,
        {
            assert(self@.take(k + 1).drop_last() =~= self@.take(k as int));
            crate::text::push_str(&mut s, self.spans[k].content.as_str());
            k = k + 1;
        }
        assert(self@.take(self.spans@.len() as int) =~= self@);
        s
    }
}

} // verus!
