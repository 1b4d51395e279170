//! Laying document nodes out as terminal lines.
use crate::parser::{lemma_nodes_views, lemma_views_push, views, DocNode, DocNodeV, InlineSpanV};
use crate::renderer::code::{
    code_label, highlighted_regions, law_highlighted_lines_make_up_code, lemma_code_block_height, lines_highlighted,
    render_code_block, spec_code_lines,
    CodeHighlighter,
};
use crate::renderer::inline::{
    heading_prefix, render_inline_spans, soft_wrap_spans, spec_heading_prefix, spec_render_span,
    spec_soft_wrap,
};
use crate::renderer::table::{render_table, spec_table_lines, table_ok};
use crate::renderer::measure::{prefix_sum, spec_node_height, spec_nodes_height};
use crate::renderer::{
    display_width, SpanStyle, SpanV, StyledLine, StyledSpan, BLOCKQUOTE_BOTTOM_LEFT,
    BLOCKQUOTE_BOTTOM_RIGHT, BLOCKQUOTE_HORIZONTAL, BLOCKQUOTE_LEFT_BORDER,
    BLOCKQUOTE_RIGHT_BORDER, BLOCKQUOTE_TOP_LEFT, BLOCKQUOTE_TOP_RIGHT, IMAGE_RENDER_HEIGHT,
    LIST_INDENT_PER_DEPTH, LIST_MIN_AVAILABLE_WIDTH, RULE_CHAR,
};
use crate::text::{chars_of, push_char, push_decimal, push_str, repeat_str, spec_decimal, spec_repeat};
use crate::width::{capped, lemma_width_bound, spec_str_width, width_capped};
use vstd::prelude::*;

verus! {

/// The lines a group of nodes renders to, where images go, and where each node starts.
pub struct RenderResult {
    pub lines: Vec<StyledLine>,
    /// Line index, source and alternative text of each image.
    pub image_positions: Vec<(usize, String, String)>,
    pub node_line_starts: Vec<usize>,
}

pub struct RenderV {
    pub lines: Seq<Seq<SpanV>>,
    pub images: Seq<(int, Seq<char>, Seq<char>)>,
    pub starts: Seq<int>,
}

pub open spec fn image_view(t: (usize, String, String)) -> (int, Seq<char>, Seq<char>) {
    (t.0 as int, t.1@, t.2@)
}

pub open spec fn images_view(s: Seq<(usize, String, String)>) -> Seq<(int, Seq<char>, Seq<char>)> {
    Seq::new(s.len(), |i: int| image_view(s[i]))
}

pub open spec fn ints(s: Seq<usize>) -> Seq<int> {
    Seq::new(s.len(), |i: int| s[i] as int)
}

impl View for RenderResult {
    type V = RenderV;

    open spec fn view(&self) -> RenderV {
        RenderV {
            lines: views(self.lines@),
            images: images_view(self.image_positions@),
            starts: ints(self.node_line_starts@),
        }
    }
}

/// The spans a heading wraps: its `#` prefix, a space and its text, in the heading style.
pub open spec fn heading_spans(level: u8, text: Seq<char>) -> Seq<SpanV> {
    let st = SpanStyle::Heading(level);
    seq![
        SpanV { content: spec_heading_prefix(level), style: st },
        SpanV { content: seq![' '], style: st },
        SpanV { content: text, style: st },
    ]
}

/// The styled spans that inline spans render as.
pub open spec fn rendered_spans(spans: Seq<InlineSpanV>) -> Seq<SpanV> {
    spans.map_values(|s: InlineSpanV| spec_render_span(s))
}

/// The bullet of an unordered list item at `depth`; the four shapes take turns.
pub open spec fn list_bullet(depth: usize) -> Seq<char> {
    if depth % 4 == 0 {
        seq!['•']
    } else if depth % 4 == 1 {
        seq!['◦']
    } else if depth % 4 == 2 {
        seq!['▸']
    } else {
        seq!['▹']
    }
}

/// The bullet text of a list item: indentation, then `n. ` or the bullet and a space.
pub open spec fn spec_bullet(depth: usize, ordered: bool, number: Option<u64>) -> Seq<char> {
    let indent = spec_repeat(seq![' '], (LIST_INDENT_PER_DEPTH * depth) as nat);
    if ordered {
        indent + spec_decimal(
            match number {
                Some(k) => k,
                None => 1,
            },
        ) + seq!['.', ' ']
    } else {
        indent + list_bullet(depth) + seq![' ']
    }
}

/// The columns a list item's text wraps to at `width`: what the bullet leaves, but at
/// least the minimum.
pub open spec fn list_avail(depth: usize, ordered: bool, number: Option<u64>, width: nat, cjk: bool) -> nat {
    let avail = sat_sub(width, spec_str_width(spec_bullet(depth, ordered, number), cjk));
    if avail > LIST_MIN_AVAILABLE_WIDTH {
        avail
    } else {
        LIST_MIN_AVAILABLE_WIDTH as nat
    }
}

/// The lines of a list item: the bullet before its first wrapped line, spaces as wide as
/// the bullet before the others.
pub open spec fn list_lines(depth: usize, bullet: Seq<char>, wrapped: Seq<Seq<SpanV>>, cjk: bool) -> Seq<Seq<SpanV>> {
    let bw = spec_str_width(bullet, cjk);
    Seq::new(
        wrapped.len(),
        |i: int|
            if i == 0 {
                seq![SpanV { content: bullet, style: SpanStyle::Bullet(depth) }] + wrapped[0]
            } else {
                seq![SpanV { content: spec_repeat(seq![' '], bw), style: SpanStyle::Plain }]
                    + wrapped[i]
            },
    )
}

/// The placeholder line of an image.
pub open spec fn image_placeholder(src: Seq<char>, alt: Seq<char>) -> Seq<char> {
    "[image: "@ + (if alt.len() == 0 {
        src
    } else {
        alt
    }) + seq![']']
}

/// The sum of the widths of a line's spans.
pub open spec fn spans_width(l: Seq<SpanV>, cjk: bool) -> nat
    decreases l.len(),
{
    if l.len() == 0 {
        0
    } else {
        spans_width(l.drop_last(), cjk) + spec_str_width(l.last().content, cjk)
    }
}

/// `a - b`, or 0.
pub open spec fn sat_sub(a: nat, b: nat) -> nat {
    if a >= b {
        (a - b) as nat
    } else {
        0
    }
}

pub open spec fn bar(s: Seq<char>) -> SpanV {
    SpanV { content: s, style: SpanStyle::BlockquoteBar }
}

/// A line of quoted content inside the side bars, padded to `inner` columns.
pub open spec fn quote_line(l: Seq<SpanV>, inner: nat, cjk: bool) -> Seq<SpanV> {
    let pad = sat_sub(inner, spans_width(l, cjk));
    seq![bar(BLOCKQUOTE_LEFT_BORDER@)] + l + (if pad > 0 {
        seq![SpanV { content: spec_repeat(seq![' '], pad), style: SpanStyle::Plain }]
    } else {
        Seq::empty()
    }) + seq![bar(BLOCKQUOTE_RIGHT_BORDER@)]
}

/// A horizontal bar of a quote box `w` columns wide.
pub open spec fn quote_rule(left: Seq<char>, right: Seq<char>, w: nat, cjk: bool) -> Seq<SpanV> {
    let n = sat_sub(w, spec_str_width(left, cjk) + spec_str_width(right, cjk));
    seq![bar(left + spec_repeat(BLOCKQUOTE_HORIZONTAL@, n) + right)]
}

/// The columns inside a quote box `w` columns wide (at least one).
pub open spec fn quote_inner(w: nat, cjk: bool) -> nat {
    let inner = sat_sub(
        w,
        spec_str_width(BLOCKQUOTE_LEFT_BORDER@, cjk) + spec_str_width(BLOCKQUOTE_RIGHT_BORDER@, cjk),
    );
    if inner > 1 {
        inner
    } else {
        1
    }
}

/// `imgs` moved down by `by` lines.
pub open spec fn shift_images(imgs: Seq<(int, Seq<char>, Seq<char>)>, by: int) -> Seq<(int, Seq<char>, Seq<char>)> {
    Seq::new(imgs.len(), |i: int| (imgs[i].0 + by, imgs[i].1, imgs[i].2))
}

/// The lines one node renders to at `w` columns (`fw` for rules), and its images, counted
/// from the node's first line.
pub open spec fn spec_render_node(n: DocNodeV, w: nat, fw: nat, cjk: bool) -> (Seq<Seq<SpanV>>, Seq<(int, Seq<char>, Seq<char>)>)
    decreases n, 1nat,
{
    match n {
        DocNodeV::Heading { level, text } => (spec_soft_wrap(heading_spans(level, text), w, cjk), Seq::empty()),
        DocNodeV::Paragraph(spans) => (spec_soft_wrap(rendered_spans(spans), w, cjk), Seq::empty()),
        DocNodeV::CodeBlock { language, code } => (
            spec_code_lines(code_label(language), highlighted_regions(code_label(language), code), w, cjk),
            Seq::empty(),
        ),
        DocNodeV::BlockQuote(children) => {
            let inner = quote_inner(w, cjk);
            let nested = spec_render_nodes(children, inner, inner, cjk);
            (quote_added(nested, w, inner, cjk), quote_images(nested))
        },
        DocNodeV::ListItem { depth, ordered, number, children } => (
            list_lines(
                depth,
                spec_bullet(depth, ordered, number),
                spec_soft_wrap(rendered_spans(children), list_avail(depth, ordered, number, w, cjk), cjk),
                cjk,
            ),
            Seq::empty(),
        ),
        DocNodeV::Table { headers, rows } => (spec_table_lines(headers, rows, w, cjk), Seq::empty()),
        DocNodeV::Rule => (seq![seq![SpanV { content: spec_repeat(RULE_CHAR@, fw), style: SpanStyle::Rule }]], Seq::empty()),
        DocNodeV::Image { src, alt } => (
            seq![seq![SpanV { content: image_placeholder(src, alt), style: SpanStyle::Subtext }]]
                + Seq::new((IMAGE_RENDER_HEIGHT - 1) as nat, |i: int| Seq::<SpanV>::empty()),
            seq![(0int, src, alt)],
        ),
        DocNodeV::Blank => (seq![Seq::<SpanV>::empty()], Seq::empty()),
    }
}

/// The rendering of nodes one after another: their lines in order, their images at their
/// place among those lines, and the first line of each node.
pub open spec fn spec_render_nodes(s: Seq<DocNodeV>, w: nat, fw: nat, cjk: bool) -> RenderV
    decreases s, 0nat,
{
    if s.len() == 0 {
        RenderV { lines: Seq::empty(), images: Seq::empty(), starts: Seq::empty() }
    } else {
        let p = spec_render_nodes(s.drop_last(), w, fw, cjk);
        let r = spec_render_node(s.last(), w, fw, cjk);
        RenderV {
            lines: p.lines + r.0,
            images: p.images + shift_images(r.1, p.lines.len() as int),
            starts: p.starts.push(p.lines.len() as int),
        }
    }
}

/// List depths, table sizes and code labels of a node are small enough to lay it out.
pub open spec fn render_ok(n: DocNodeV, cjk: bool) -> bool
    decreases n, 1nat,
{
    match n {
        DocNodeV::ListItem { depth, .. } => depth <= usize::MAX / 8,
        DocNodeV::Table { headers, rows } => table_ok(headers, rows, cjk),
        DocNodeV::CodeBlock { language, .. } => spec_str_width(code_label(language), cjk) <= usize::MAX - 16,
        DocNodeV::BlockQuote(children) => nodes_render_ok(children, cjk),
        _ => true,
    }
}

/// Every node of `s` is [`render_ok`].
pub open spec fn nodes_render_ok(s: Seq<DocNodeV>, cjk: bool) -> bool
    decreases s, 0nat,
{
    if s.len() == 0 {
        true
    } else {
        nodes_render_ok(s.drop_last(), cjk) && render_ok(s.last(), cjk)
    }
}

proof fn lemma_render_ok_index(s: Seq<DocNodeV>, k: int, cjk: bool)
    requires
        nodes_render_ok(s, cjk),
        0 <= k < s.len(),
    ensures
        render_ok(s[k], cjk),
    decreases s.len(),
{
    if k < s.len() - 1 {
        lemma_render_ok_index(s.drop_last(), k, cjk);
    }
}

proof fn lemma_render_ok_take(s: Seq<DocNodeV>, k: int, cjk: bool)
    requires
        nodes_render_ok(s, cjk),
        0 <= k <= s.len(),
    ensures
        nodes_render_ok(s.take(k), cjk),
    decreases s.len() - k,
{
    if k < s.len() {
        lemma_render_ok_take(s.drop_last(), k, cjk);
        assert(s.drop_last().take(k) =~= s.take(k));
    } else {
        assert(s.take(k) =~= s);
    }
}

/// Every image line lies within the lines.
pub open spec fn images_within(r: RenderV) -> bool {
    forall|i: int| 0 <= i < r.images.len() ==> 0 <= #[trigger] r.images[i].0 < r.lines.len()
}

/// Images within some lines stay within more lines.
proof fn lemma_within_grow(
    lines: Seq<Seq<SpanV>>,
    more: Seq<Seq<SpanV>>,
    imgs: Seq<(int, Seq<char>, Seq<char>)>,
)
    requires
        images_within(RenderV { lines, images: imgs, starts: Seq::empty() }),
        lines.len() <= more.len(),
    ensures
        images_within(RenderV { lines: more, images: imgs, starts: Seq::empty() }),
{
    assert forall|i: int| 0 <= i < imgs.len() implies 0 <= #[trigger] imgs[i].0 < more.len() by {
        assert(RenderV { lines, images: imgs, starts: Seq::empty() }.images[i] == imgs[i]);
    }
}

/// The output being built: lines and images so far.
struct Out {
    lines: Vec<StyledLine>,
    images: Vec<(usize, String, String)>,
}

fn span_of(text: &str, style: SpanStyle) -> (s: StyledSpan)
    ensures
        s@ == (SpanV { content: text@, style }),
{
    let mut content = String::new();
    push_str(&mut content, text);
    StyledSpan { content, style }
}

/// Appends `more` to `lines`.
fn append_lines(lines: &mut Vec<StyledLine>, more: Vec<StyledLine>)
    ensures
        views(final(lines)@) == views(old(lines)@) + views(more@),
{
    let mut more = more;
    let ghost a = lines@;
    let ghost b = more@;
    lines.append(&mut more);
    assert(views(lines@) =~= views(a) + views(b));
}

/// The width of `spans` together, capped at `cap + 1`.
fn spans_width_capped(spans: &Vec<StyledSpan>, cap: usize, cjk: bool) -> (w: usize)
    requires
        cap <= u16::MAX,
    ensures
        w == capped(spans_width(views(spans@), cjk), cap as nat),
{
    let ghost l = views(spans@);
    let mut acc: usize = 0;
    let mut k: usize = 0;
    while k < spans.len()
        invariant
            k <= spans@.len(),
            l == views(spans@),
            cap <= u16::MAX,
            acc == capped(spans_width(l.take(k as int), cjk), cap as nat),
        decreases spans@.len() - k,
    {
        assert(l.take(k + 1).drop_last() =~= l.take(k as int));
        let chars = chars_of(spans[k].content.as_str());
        let c = width_capped(&chars, 0, chars.len(), cap, cjk);
        assert(chars@.subrange(0, chars@.len() as int) =~= chars@);
        let sum = acc + c;
        acc = if sum > cap {
            cap + 1
        } else {
            sum
        };
        k = k + 1;
    }
    assert(l.take(spans@.len() as int) =~= l);
    acc
}

/// A horizontal bar of a quote box `w` columns wide.
fn quote_rule_line(left: &str, right: &str, w: usize, cjk: bool) -> (line: StyledLine)
    requires
        left@.len() <= 4,
        right@.len() <= 4,
    ensures
        line@ == quote_rule(left@, right@, w as nat, cjk),
{
    proof {
        lemma_width_bound(left@, cjk);
        lemma_width_bound(right@, cjk);
    }
    let n = w.saturating_sub(display_width(left, cjk) + display_width(right, cjk));
    let mut s = String::new();
    push_str(&mut s, left);
    let dashes = repeat_str(BLOCKQUOTE_HORIZONTAL, n);
    push_str(&mut s, dashes.as_str());
    push_str(&mut s, right);
    StyledLine::from_span(s, SpanStyle::BlockquoteBar)
}

/// A line of quoted content inside the side bars.
fn quote_content_line(line: StyledLine, inner: usize, cjk: bool) -> (q: StyledLine)
    requires
        inner <= u16::MAX,
    ensures
        q@ == quote_line(line@, inner as nat, cjk),
{
    let content_width = spans_width_capped(&line.spans, inner, cjk);
    let padding = if content_width <= inner {
        inner - content_width
    } else {
        0
    };
    let ghost l = line@;
    let mut spans: Vec<StyledSpan> = Vec::new();
    spans.push(span_of(BLOCKQUOTE_LEFT_BORDER, SpanStyle::BlockquoteBar));
    let mut rest = line.spans;
    spans.append(&mut rest);
    assert(views(spans@) =~= seq![bar(BLOCKQUOTE_LEFT_BORDER@)] + l);
    if padding > 0 {
        proof {
            reveal_strlit(" ");
            assert(" "@ =~= seq![' ']);
        }
        let sp = StyledSpan { content: repeat_str(" ", padding), style: SpanStyle::Plain };
        proof {
            lemma_views_push(spans@, sp);
        }
        spans.push(sp);
    }
    let r = span_of(BLOCKQUOTE_RIGHT_BORDER, SpanStyle::BlockquoteBar);
    proof {
        lemma_views_push(spans@, r);
    }
    spans.push(r);
    let q = StyledLine { spans };
    assert(q@ =~= quote_line(l, inner as nat, cjk));
    q
}

/// The bullet text of a list item.
fn bullet_text(depth: usize, ordered: bool, number: Option<u64>) -> (s: String)
    requires
        depth <= usize::MAX / 8,
    ensures
        s@ == spec_bullet(depth, ordered, number),
{
    proof {
        reveal_strlit(" ");
        assert(" "@ =~= seq![' ']);
    }
    let mut s = repeat_str(" ", LIST_INDENT_PER_DEPTH * depth);
    if ordered {
        let n = match number {
            Some(k) => k,
            None => 1,
        };
        push_decimal(&mut s, n);
        push_char(&mut s, '.');
        push_char(&mut s, ' ');
    } else {
        let b = if depth % 4 == 0 {
            '•'
        } else if depth % 4 == 1 {
            '◦'
        } else if depth % 4 == 2 {
            '▸'
        } else {
            '▹'
        };
        push_char(&mut s, b);
        push_char(&mut s, ' ');
    }
    assert(s@ =~= spec_bullet(depth, ordered, number));
    s
}

/// The columns a list item's text wraps to at `w`.
pub(crate) fn list_item_avail(depth: usize, ordered: bool, number: Option<u64>, w: usize, cjk: bool) -> (avail: usize)
    requires
        depth <= usize::MAX / 8,
        w <= u16::MAX,
    ensures
        avail == list_avail(depth, ordered, number, w as nat, cjk),
        avail <= u16::MAX,
{
    let bullet = bullet_text(depth, ordered, number);
    proof {
        crate::text::lemma_decimal_len(match number {
            Some(k) => k,
            None => 1,
        });
        lemma_width_bound(bullet@, cjk);
        crate::text::lemma_repeat_len(seq![' '], (LIST_INDENT_PER_DEPTH * depth) as nat);
        assert(seq![' '].len() == 1);
        let ind = (LIST_INDENT_PER_DEPTH * depth) as nat;
        assert(ind * 1 == ind) by (nonlinear_arith);
        assert(spec_repeat(seq![' '], ind).len() == 2 * depth);
        assert(bullet@.len() <= 2 * depth + 22);
    }
    let bullet_width = display_width(bullet.as_str(), cjk);
    let avail = w.saturating_sub(bullet_width);
    if avail > LIST_MIN_AVAILABLE_WIDTH {
        avail
    } else {
        LIST_MIN_AVAILABLE_WIDTH
    }
}

/// Lays out a list item.
fn render_list_item(
    out: &mut Vec<StyledLine>,
    depth: usize,
    ordered: bool,
    number: Option<u64>,
    children: &Vec<crate::parser::InlineSpan>,
    w: usize,
    cjk: bool,
)
    requires
        depth <= usize::MAX / 8,
        w <= u16::MAX,
    ensures
        views(final(out)@) == views(old(out)@) + spec_render_node(
            DocNodeV::ListItem { depth, ordered, number, children: views(children@) },
            w as nat,
            0,
            cjk,
        ).0,
{
    let bullet = bullet_text(depth, ordered, number);
    proof {
        crate::text::lemma_decimal_len(match number {
            Some(k) => k,
            None => 1,
        });
        lemma_width_bound(bullet@, cjk);
        crate::text::lemma_repeat_len(seq![' '], (LIST_INDENT_PER_DEPTH * depth) as nat);
        assert(seq![' '].len() == 1);
        let ind = (LIST_INDENT_PER_DEPTH * depth) as nat;
        assert(ind * 1 == ind) by (nonlinear_arith);
        assert(spec_repeat(seq![' '], ind).len() == 2 * depth);
        assert(bullet@.len() <= 2 * depth + 22);
    }
    let bullet_width = display_width(bullet.as_str(), cjk);
    let avail = list_item_avail(depth, ordered, number, w, cjk);
    let rendered = render_inline_spans(children);
    let wrapped = soft_wrap_spans(rendered, avail, cjk);
    let ghost wv = views(wrapped@);
    proof {
        reveal_strlit(" ");
        assert(" "@ =~= seq![' ']);
    }
    let ghost start = views(out@);
    let ghost expected = list_lines(depth, bullet@, wv, cjk);
    let ghost wseq = wrapped@;
    let n = wrapped.len();
    let mut k: usize = 0;
    proof {
        broadcast use vstd::std_specs::vec::axiom_spec_into_iter;
    }
    for wl in it: wrapped.into_iter()
        invariant
            it.seq() == wseq,
            wseq.len() == n,
            " "@ == seq![' '],
            wv == views(wseq),
            k == it.index(),
            bullet_width == spec_str_width(bullet@, cjk),
            expected == list_lines(depth, bullet@, wv, cjk),
            views(out@) == start + expected.take(k as int),
    {
        assert(k < wseq.len());
        assert(wl == wseq[k as int]);
        assert(wv[k as int] == wl@);
        let mut spans: Vec<StyledSpan> = Vec::new();
        if k == 0 {
            let mut b = String::new();
            push_str(&mut b, bullet.as_str());
            spans.push(StyledSpan { content: b, style: SpanStyle::Bullet(depth) });
        } else {
            spans.push(StyledSpan { content: repeat_str(" ", bullet_width), style: SpanStyle::Plain });
        }
        let mut more = wl.spans;
        let ghost more_v = views(more@);
        let ghost first = views(spans@);
        spans.append(&mut more);
        let line = StyledLine { spans };
        assert(line@ =~= first + more_v);
        assert(wv[k as int] == more_v);
        assert(line@ == expected[k as int]);
        proof {
            lemma_views_push(out@, line);
        }
        out.push(line);
        assert(expected.take(k + 1) =~= expected.take(k as int).push(expected[k as int]));
        k = k + 1;
    }
    assert(expected.take(k as int) =~= expected);
}

/// The lines of a block quote around `nv`, `w` columns wide with `inner` inside.
pub open spec fn quote_added(nv: RenderV, w: nat, inner: nat, cjk: bool) -> Seq<Seq<SpanV>> {
    if nv.lines.len() == 0 {
        Seq::empty()
    } else {
        seq![quote_rule(BLOCKQUOTE_TOP_LEFT@, BLOCKQUOTE_TOP_RIGHT@, w, cjk)]
            + Seq::new(nv.lines.len(), |i: int| quote_line(nv.lines[i], inner, cjk))
            + seq![quote_rule(BLOCKQUOTE_BOTTOM_LEFT@, BLOCKQUOTE_BOTTOM_RIGHT@, w, cjk)]
    }
}

/// The images of a block quote around `nv`, below its top bar.
pub open spec fn quote_images(nv: RenderV) -> Seq<(int, Seq<char>, Seq<char>)> {
    if nv.lines.len() == 0 {
        nv.images
    } else {
        shift_images(nv.images, 1)
    }
}

/// Appends the lines and images of `nested`, boxed as a block quote `w` columns wide with
/// `inner` columns inside, to `out`.
fn push_quote(out: &mut Out, nested: RenderResult, w: usize, inner: usize, cjk: bool)
    requires
        inner <= u16::MAX,
        images_within(nested@),
        images_within(RenderV { lines: views(old(out).lines@), images: images_view(old(out).images@), starts: Seq::empty() }),
    ensures
        views(final(out).lines@) == views(old(out).lines@) + quote_added(nested@, w as nat, inner as nat, cjk),
        images_view(final(out).images@) == images_view(old(out).images@) + shift_images(
            quote_images(nested@),
            old(out).lines@.len() as int,
        ),
        images_within(RenderV { lines: views(final(out).lines@), images: images_view(final(out).images@), starts: Seq::empty() }),
{
    proof {
        reveal_strlit("╭─");
        reveal_strlit("─╮");
        reveal_strlit("╰─");
        reveal_strlit("─╯");
    }
    let ghost nv = nested@;
    let ghost start_lines = views(out.lines@);
    let ghost start_imgs = images_view(out.images@);
    let start_idx = out.lines.len();
    let has_lines = nested.lines.len() > 0;
    if has_lines {
        let top = quote_rule_line(BLOCKQUOTE_TOP_LEFT, BLOCKQUOTE_TOP_RIGHT, w, cjk);
        proof {
            lemma_views_push(out.lines@, top);
        }
        out.lines.push(top);
    }
    let ghost after_top = views(out.lines@);
    let ghost quoted = Seq::new(nv.lines.len(), |i: int| quote_line(nv.lines[i], inner as nat, cjk));
    let ghost lseq = nested.lines@;
    let nlines = nested.lines.len();
    let mut k: usize = 0;
    proof {
        broadcast use vstd::std_specs::vec::axiom_spec_into_iter;
    }
    for line in it: nested.lines.into_iter()
        invariant
            it.seq() == lseq,
            lseq.len() == nlines,
            nv.lines == views(lseq),
            inner <= u16::MAX,
            k == it.index(),
            quoted == Seq::new(nv.lines.len(), |i: int| quote_line(nv.lines[i], inner as nat, cjk)),
            views(out.lines@) == after_top + quoted.take(k as int),
            images_view(out.images@) == start_imgs,
    {
        assert(line == lseq[k as int]);
        let q = quote_content_line(line, inner, cjk);
        proof {
            lemma_views_push(out.lines@, q);
            assert(quoted.take(k + 1) =~= quoted.take(k as int).push(quoted[k as int]));
        }
        out.lines.push(q);
        k = k + 1;
    }
    assert(quoted.take(nlines as int) =~= quoted);
    if has_lines {
        let bottom = quote_rule_line(BLOCKQUOTE_BOTTOM_LEFT, BLOCKQUOTE_BOTTOM_RIGHT, w, cjk);
        proof {
            lemma_views_push(out.lines@, bottom);
        }
        out.lines.push(bottom);
    }
    let total = out.lines.len();
    assert(views(out.lines@) =~= start_lines + quote_added(nv, w as nat, inner as nat, cjk));
    let offset: usize = if has_lines { 1 } else { 0 };
    let ghost iseq = nested.image_positions@;
    let ghost imgs = quote_images(nv);
    let nimgs = nested.image_positions.len();
    let mut j: usize = 0;
    assert(start_imgs + shift_images(imgs, start_idx as int).take(0) =~= start_imgs);
    assert(images_view(out.images@) == start_imgs);
    proof {
        lemma_within_grow(start_lines, views(out.lines@), start_imgs);
        assert forall|m: int| 0 <= m < images_view(out.images@).len() implies 0 <= #[trigger] images_view(out.images@)[m].0 < total by {
            assert(RenderV { lines: views(out.lines@), images: start_imgs, starts: Seq::empty() }.images[m] == start_imgs[m]);
        }
    }
    for img in it: nested.image_positions.into_iter()
        invariant
            it.seq() == iseq,
            iseq.len() == nimgs,
            nv.images == images_view(iseq),
            nv.lines.len() == nlines,
            images_within(nv),
            j == it.index(),
            total == out.lines@.len(),
            views(out.lines@) == start_lines + quote_added(nv, w as nat, inner as nat, cjk),
            total == start_idx + offset + nlines + offset,
            offset == (if nlines > 0 { 1usize } else { 0usize }),
            imgs == quote_images(nv),
            images_view(out.images@) == start_imgs + shift_images(imgs, start_idx as int).take(j as int),
            images_within(RenderV { lines: views(out.lines@), images: start_imgs, starts: Seq::empty() }),
            start_imgs.len() <= images_view(out.images@).len(),
            forall|m: int| 0 <= m < images_view(out.images@).len() ==> 0 <= #[trigger] images_view(out.images@)[m].0 < total,
    {
        assert(img == iseq[j as int]);
        assert(nv.images[j as int].0 < nlines);
        let (line_idx, src, alt) = img;
        let entry = (start_idx + offset + line_idx, src, alt);
        let ghost before = out.images@;
        out.images.push(entry);
        assert(images_view(out.images@) =~= images_view(before).push(image_view(entry)));
        assert(shift_images(imgs, start_idx as int).take(j + 1) =~= shift_images(imgs, start_idx as int).take(j as int).push(image_view(entry)));
        j = j + 1;
    }
    assert(shift_images(imgs, start_idx as int).take(nimgs as int) =~= shift_images(imgs, start_idx as int));
    assert forall|m: int| 0 <= m < images_view(out.images@).len() implies 0 <= #[trigger] images_view(out.images@)[m].0 < views(out.lines@).len() by {
    }
}

/// Lays a heading out.
fn render_heading(lines: &mut Vec<StyledLine>, level: u8, text: &String, w: usize, cjk: bool)
    requires
        w <= u16::MAX,
    ensures
        views(final(lines)@) == views(old(lines)@) + spec_soft_wrap(heading_spans(level, text@), w as nat, cjk),
{
    let spans = heading_styled_spans(level, text);
    let wrapped = soft_wrap_spans(spans, w, cjk);
    append_lines(lines, wrapped);
}

/// The spans a heading wraps.
pub(crate) fn heading_styled_spans(level: u8, text: &String) -> (spans: Vec<StyledSpan>)
    ensures
        views(spans@) == heading_spans(level, text@),
{
    let st = SpanStyle::Heading(level);
    let mut spans: Vec<StyledSpan> = Vec::new();
    spans.push(span_of(heading_prefix(level), st));
    spans.push(span_of(" ", st));
    spans.push(StyledSpan { content: text.clone(), style: st });
    proof {
        reveal_strlit(" ");
        assert(" "@ =~= seq![' ']);
    }
    assert(views(spans@) =~= heading_spans(level, text@));
    spans
}

/// Lays an image out: its placeholder line, then empty lines up to the image height.
fn render_image(out: &mut Out, src: &String, alt: &String)
    requires
        images_within(RenderV { lines: views(old(out).lines@), images: images_view(old(out).images@), starts: Seq::empty() }),
    ensures
        views(final(out).lines@) == views(old(out).lines@) + spec_render_node(DocNodeV::Image { src: src@, alt: alt@ }, 0, 0, false).0,
        images_view(final(out).images@) == images_view(old(out).images@) + shift_images(
            seq![(0int, src@, alt@)],
            old(out).lines@.len() as int,
        ),
        images_within(RenderV { lines: views(final(out).lines@), images: images_view(final(out).images@), starts: Seq::empty() }),
{
    let ghost lines0 = views(out.lines@);
    let ghost imgs0 = images_view(out.images@);
    let line_idx = out.lines.len();
    let ghost before = out.images@;
    out.images.push((line_idx, src.clone(), alt.clone()));
    assert(images_view(out.images@) =~= images_view(before).push((line_idx as int, src@, alt@)));
    let label = if alt.as_str().is_empty() {
        src
    } else {
        alt
    };
    let mut placeholder = String::new();
    push_str(&mut placeholder, "[image: ");
    push_str(&mut placeholder, label.as_str());
    push_char(&mut placeholder, ']');
    assert(placeholder@ =~= image_placeholder(src@, alt@));
    let line = StyledLine::from_span(placeholder, SpanStyle::Subtext);
    proof {
        lemma_views_push(out.lines@, line);
    }
    out.lines.push(line);
    let ghost head = seq![seq![SpanV { content: image_placeholder(src@, alt@), style: SpanStyle::Subtext }]];
    assert(views(out.lines@) =~= lines0 + head + Seq::new(0, |i: int| Seq::<SpanV>::empty()));
    let mut k: usize = 1;
    while k < IMAGE_RENDER_HEIGHT
        invariant
            1 <= k <= IMAGE_RENDER_HEIGHT,
            out.lines@.len() == line_idx + k,
            images_view(out.images@) == imgs0.push((line_idx as int, src@, alt@)),
            views(out.lines@) == lines0 + head + Seq::new((k - 1) as nat, |i: int| Seq::<SpanV>::empty()),
        decreases IMAGE_RENDER_HEIGHT - k,
    {
        let empty = StyledLine { spans: Vec::new() };
        assert(empty@ =~= Seq::<SpanV>::empty());
        proof {
            lemma_views_push(out.lines@, empty);
        }
        out.lines.push(empty);
        k = k + 1;
        assert(views(out.lines@) =~= lines0 + head + Seq::new((k - 1) as nat, |i: int| Seq::<SpanV>::empty()));
    }
    assert(shift_images(seq![(0int, src@, alt@)], lines0.len() as int) =~= seq![(line_idx as int, src@, alt@)]);
    assert forall|m: int| 0 <= m < images_view(out.images@).len() implies 0 <= #[trigger] images_view(out.images@)[m].0 < views(out.lines@).len() by {
        if m < imgs0.len() {
            assert(RenderV { lines: lines0, images: imgs0, starts: Seq::empty() }.images[m] == imgs0[m]);
        }
    }
}

/// Lays one node out after the lines already in `out`.
#[verifier::rlimit(40)]
fn render_node(out: &mut Out, node: &DocNode, width: u16, full_width: u16, hl: &CodeHighlighter, cjk: bool)
    requires
        render_ok(node@, cjk),
        images_within(RenderV { lines: views(old(out).lines@), images: images_view(old(out).images@), starts: Seq::empty() }),
    ensures
        views(final(out).lines@) == views(old(out).lines@) + spec_render_node(node@, width as nat, full_width as nat, cjk).0,
        images_view(final(out).images@) == images_view(old(out).images@) + shift_images(
            spec_render_node(node@, width as nat, full_width as nat, cjk).1,
            old(out).lines@.len() as int,
        ),
        images_within(RenderV { lines: views(final(out).lines@), images: images_view(final(out).images@), starts: Seq::empty() }),
    decreases node,
{
    let w = width as usize;
    let ghost lines0 = views(out.lines@);
    let ghost imgs0 = images_view(out.images@);
    match node {
        DocNode::Heading { level, text } => {
            render_heading(&mut out.lines, *level, text, w, cjk);
            assert(images_view(out.images@) =~= imgs0 + shift_images(Seq::empty(), lines0.len() as int));
            proof {
                lemma_within_grow(lines0, views(out.lines@), imgs0);
            }
        },
        DocNode::Paragraph(spans) => {
            let rendered = render_inline_spans(spans);
            let wrapped = soft_wrap_spans(rendered, w, cjk);
            append_lines(&mut out.lines, wrapped);
            assert(images_view(out.images@) =~= imgs0 + shift_images(Seq::empty(), lines0.len() as int));
            proof {
                lemma_within_grow(lines0, views(out.lines@), imgs0);
            }
        },
        DocNode::CodeBlock { language, code } => {
            render_code_block(&mut out.lines, language, code, w, hl, cjk);
            assert(images_view(out.images@) =~= imgs0 + shift_images(Seq::empty(), lines0.len() as int));
            proof {
                lemma_within_grow(lines0, views(out.lines@), imgs0);
            }
        },
        DocNode::BlockQuote(children) => {
            proof {
                reveal_strlit("│ ");
                reveal_strlit("│");
                lemma_width_bound(BLOCKQUOTE_LEFT_BORDER@, cjk);
                lemma_width_bound(BLOCKQUOTE_RIGHT_BORDER@, cjk);
                lemma_nodes_views(children@);
                assert(decreases_to!(*node => node->BlockQuote_0));
                assert(node->BlockQuote_0 == *children);
            }
            let lb = display_width(BLOCKQUOTE_LEFT_BORDER, cjk);
            let rb = display_width(BLOCKQUOTE_RIGHT_BORDER, cjk);
            let inner: u16 = width.saturating_sub((lb + rb) as u16);
            let inner: u16 = if inner > 1 {
                inner
            } else {
                1
            };
            assert(views(children@).subrange(0, children@.len() as int) =~= views(children@));
            let nested = render_node_range(children, 0, children.len(), inner, inner, hl, cjk);
            push_quote(out, nested, w, inner as usize, cjk);
        },
        DocNode::ListItem { depth, ordered, number, children } => {
            render_list_item(&mut out.lines, *depth, *ordered, *number, children, w, cjk);
            assert(images_view(out.images@) =~= imgs0 + shift_images(Seq::empty(), lines0.len() as int));
            proof {
                lemma_within_grow(lines0, views(out.lines@), imgs0);
            }
        },
        DocNode::Table { headers, rows } => {
            render_table(&mut out.lines, headers, rows, w, cjk);
            assert(images_view(out.images@) =~= imgs0 + shift_images(Seq::empty(), lines0.len() as int));
            proof {
                lemma_within_grow(lines0, views(out.lines@), imgs0);
            }
        },
        DocNode::Rule => {
            let rule = repeat_str(RULE_CHAR, full_width as usize);
            let line = StyledLine::from_span(rule, SpanStyle::Rule);
            proof {
                lemma_views_push(out.lines@, line);
            }
            out.lines.push(line);
            assert(images_view(out.images@) =~= imgs0 + shift_images(Seq::empty(), lines0.len() as int));
            proof {
                lemma_within_grow(lines0, views(out.lines@), imgs0);
            }
        },
        DocNode::Image { src, alt } => {
            render_image(out, src, alt);
        },
        DocNode::Blank => {
            let empty = StyledLine { spans: Vec::new() };
            assert(empty@ =~= Seq::<SpanV>::empty());
            proof {
                lemma_views_push(out.lines@, empty);
            }
            out.lines.push(empty);
            assert(images_view(out.images@) =~= imgs0 + shift_images(Seq::empty(), lines0.len() as int));
            proof {
                lemma_within_grow(lines0, views(out.lines@), imgs0);
            }
        },
    }
}

/// The lines `nodes[from..to]` render to one after another.
fn render_node_range(
    nodes: &Vec<DocNode>,
    from: usize,
    to: usize,
    width: u16,
    full_width: u16,
    highlighter: &CodeHighlighter,
    cjk: bool,
) -> (r: RenderResult)
    requires
        from <= to <= nodes@.len(),
        nodes_render_ok(views(nodes@), cjk),
    ensures
        r@ == spec_render_nodes(views(nodes@).subrange(from as int, to as int), width as nat, full_width as nat, cjk),
        images_within(r@),
    decreases nodes,
{
    let ghost nv = views(nodes@).subrange(from as int, to as int);
    let mut out = Out { lines: Vec::new(), images: Vec::new() };
    let mut starts: Vec<usize> = Vec::new();
    assert(views(out.lines@) =~= Seq::<Seq<SpanV>>::empty());
    assert(images_view(out.images@) =~= Seq::<(int, Seq<char>, Seq<char>)>::empty());
    assert(ints(starts@) =~= Seq::<int>::empty());
    let mut k: usize = from;
    while k < to
        invariant
            from <= k <= to <= nodes@.len(),
            nv == views(nodes@).subrange(from as int, to as int),
            nodes_render_ok(views(nodes@), cjk),
            ({
                let p = spec_render_nodes(nv.take(k - from), width as nat, full_width as nat, cjk);
                &&& views(out.lines@) == p.lines
                &&& images_view(out.images@) == p.images
                &&& ints(starts@) == p.starts
            }),
            images_within(RenderV { lines: views(out.lines@), images: images_view(out.images@), starts: Seq::empty() }),
        decreases to - k,
    {
        proof {
            lemma_render_ok_index(views(nodes@), k as int, cjk);
            assert(nv.take(k - from + 1).drop_last() =~= nv.take(k - from));
            assert(nv[k - from] == nodes@[k as int]@);
            assert(decreases_to!(*nodes => nodes@));
            assert(decreases_to!(nodes@ => nodes@[k as int]));
        }
        let ghost before_starts = starts@;
        starts.push(out.lines.len());
        assert(ints(starts@) =~= ints(before_starts).push(views(out.lines@).len() as int));
        render_node(&mut out, &nodes[k], width, full_width, highlighter, cjk);
        k = k + 1;
    }
    assert(nv.take(to - from) =~= nv);
    let r = RenderResult { lines: out.lines, image_positions: out.images, node_line_starts: starts };
    assert forall|i: int| 0 <= i < r@.images.len() implies 0 <= #[trigger] r@.images[i].0 < r@.lines.len() by {
        assert(RenderV { lines: r@.lines, images: r@.images, starts: Seq::empty() }.images[i] == r@.images[i]);
    }
    r
}

/// The lines `nodes` render to one after another, `width` columns wide (`full_width`
/// for rules), with where their images go and where each node starts.
pub fn render_nodes(
    nodes: &Vec<DocNode>,
    width: u16,
    full_width: u16,
    highlighter: &CodeHighlighter,
    cjk: bool,
) -> (r: RenderResult)
    requires
        nodes_render_ok(views(nodes@), cjk),
    ensures
        r@ == spec_render_nodes(views(nodes@), width as nat, full_width as nat, cjk),
        images_within(r@),
{
    assert(views(nodes@).subrange(0, nodes@.len() as int) =~= views(nodes@));
    render_node_range(nodes, 0, nodes.len(), width, full_width, highlighter, cjk)
}

// ---------------------------------------------------------------------------
// Rendering only what is on screen
// ---------------------------------------------------------------------------

/// How many of `starts` are at most `line`.
pub open spec fn count_at_most(starts: Seq<usize>, line: nat) -> nat
    decreases starts.len(),
{
    if starts.len() == 0 {
        0
    } else {
        count_at_most(starts.drop_last(), line) + if starts.last() <= line {
            1nat
        } else {
            0nat
        }
    }
}

/// The node holding line `line`: the last one starting at or before it (the first if none).
pub open spec fn first_visible(starts: Seq<usize>, line: nat) -> int {
    let c = count_at_most(starts, line);
    if c == 0 {
        0
    } else {
        c - 1
    }
}

/// One past the first node from `i` on whose end (start plus measured height) reaches
/// line `last`; the number of nodes if none does.
pub open spec fn visible_end(nodes: Seq<DocNodeV>, starts: Seq<usize>, i: int, last: nat, width: nat, cjk: bool) -> int
    decreases nodes.len() - i,
{
    if i < 0 || i >= nodes.len() {
        i
    } else if sat_add_usize(starts[i] as int, crate::renderer::measure::spec_node_height(nodes[i], width, cjk) as int) >= last {
        i + 1
    } else {
        visible_end(nodes, starts, i + 1, last, width, cjk)
    }
}

/// `a + b`, at most `usize::MAX`.
pub open spec fn sat_add_usize(a: int, b: int) -> int {
    if a + b <= usize::MAX {
        a + b
    } else {
        usize::MAX as int
    }
}

/// What [`render_viewport`] returns: the nodes that cover lines `first..last` rendered,
/// starts and image lines made absolute by the first rendered node's start, and the lines
/// from `first` on, at most `last - first` of them.
pub open spec fn spec_viewport(
    nodes: Seq<DocNodeV>,
    starts: Seq<usize>,
    first: nat,
    last: nat,
    width: nat,
    full_width: nat,
    cjk: bool,
) -> RenderV {
    let empty = RenderV { lines: Seq::empty(), images: Seq::empty(), starts: Seq::empty() };
    if nodes.len() == 0 || first >= last {
        empty
    } else {
        let from = first_visible(starts, first);
        let e = visible_end(nodes, starts, from, last, width, cjk);
        let to = if e < nodes.len() {
            e
        } else {
            nodes.len() as int
        };
        if from >= to || from >= nodes.len() {
            empty
        } else {
            let r = spec_render_nodes(nodes.subrange(from, to), width, full_width, cjk);
            let base = starts[from] as int;
            let skip = sat_sub(first, base as nat);
            let lines = if skip < r.lines.len() {
                let rest = r.lines.skip(skip as int);
                if last - first < rest.len() {
                    rest.take(last - first)
                } else {
                    rest
                }
            } else {
                Seq::empty()
            };
            RenderV {
                lines,
                images: Seq::new(r.images.len(), |i: int| (sat_add_usize(r.images[i].0, base), r.images[i].1, r.images[i].2)),
                starts: Seq::new(r.starts.len(), |i: int| sat_add_usize(r.starts[i], base)),
            }
        }
    }
}

/// Nondecreasing.
pub open spec fn sorted(s: Seq<usize>) -> bool {
    forall|i: int, j: int| 0 <= i <= j < s.len() ==> s[i] <= s[j]
}

proof fn lemma_count_at_most_len(s: Seq<usize>, line: nat)
    ensures
        count_at_most(s, line) <= s.len(),
    decreases s.len(),
{
    if s.len() > 0 {
        lemma_count_at_most_len(s.drop_last(), line);
    }
}

proof fn lemma_count_at_most(s: Seq<usize>, line: nat, lo: int)
    requires
        sorted(s),
        0 <= lo <= s.len(),
        forall|i: int| 0 <= i < lo ==> s[i] <= line,
        forall|i: int| lo <= i < s.len() ==> s[i] > line,
    ensures
        count_at_most(s, line) == lo,
    decreases s.len(),
{
    if s.len() > 0 {
        if lo == s.len() {
            lemma_count_at_most(s.drop_last(), line, lo - 1);
        } else {
            lemma_count_at_most(s.drop_last(), line, lo);
        }
    }
}

/// How many of the sorted `starts` are at most `line` (binary search).
fn count_starts_at_most(starts: &Vec<usize>, line: usize) -> (c: usize)
    requires
        sorted(starts@),
    ensures
        c == count_at_most(starts@, line as nat),
{
    let mut lo: usize = 0;
    let mut hi: usize = starts.len();
    while lo < hi
        invariant
            lo <= hi <= starts@.len(),
            sorted(starts@),
            forall|i: int| 0 <= i < lo ==> starts@[i] <= line,
            forall|i: int| hi <= i < starts@.len() ==> starts@[i] > line,
        decreases hi - lo,
    {
        let mid = lo + (hi - lo) / 2;
        if starts[mid] <= line {
            lo = mid + 1;
        } else {
            hi = mid;
        }
    }
    proof {
        lemma_count_at_most(starts@, line as nat, lo as int);
    }
    lo
}

/// Renders only the nodes that cover lines `viewport_first..viewport_last` of the
/// document, given where each node starts, and returns those lines.
pub fn render_viewport(
    nodes: &Vec<DocNode>,
    node_line_starts: &Vec<usize>,
    viewport_first: usize,
    viewport_last: usize,
    width: u16,
    full_width: u16,
    highlighter: &CodeHighlighter,
    cjk: bool,
) -> (r: RenderResult)
    requires
        node_line_starts@.len() == nodes@.len(),
        sorted(node_line_starts@),
        nodes_render_ok(views(nodes@), cjk),
        crate::renderer::measure::nodes_ok(views(nodes@)),
    ensures
        r@ == spec_viewport(
            views(nodes@),
            node_line_starts@,
            viewport_first as nat,
            viewport_last as nat,
            width as nat,
            full_width as nat,
            cjk,
        ),
{
    let ghost nv = views(nodes@);
    if nodes.len() == 0 || viewport_first >= viewport_last {
        let r = RenderResult { lines: Vec::new(), image_positions: Vec::new(), node_line_starts: Vec::new() };
        assert(r@.lines =~= Seq::<Seq<SpanV>>::empty());
        assert(r@.images =~= Seq::<(int, Seq<char>, Seq<char>)>::empty());
        assert(r@.starts =~= Seq::<int>::empty());
        return r;
    }
    let c = count_starts_at_most(node_line_starts, viewport_first);
    proof {
        lemma_count_at_most_len(node_line_starts@, viewport_first as nat);
    }
    let first = if c == 0 {
        0
    } else {
        c - 1
    };
    let mut i = first;
    let mut done = false;
    while i < nodes.len() && !done
        invariant
            first <= i,
            node_line_starts@.len() == nodes@.len(),
            nv == views(nodes@),
            crate::renderer::measure::nodes_ok(nv),
            done ==> i == visible_end(nv, node_line_starts@, first as int, viewport_last as nat, width as nat, cjk),
            !done ==> visible_end(nv, node_line_starts@, i as int, viewport_last as nat, width as nat, cjk)
                == visible_end(nv, node_line_starts@, first as int, viewport_last as nat, width as nat, cjk),
            i <= nodes@.len(),
        decreases nodes@.len() - i, if done { 0int } else { 1int },
    {
        proof {
            crate::renderer::measure::lemma_nodes_ok_index(nv, i as int);
        }
        let h = crate::renderer::measure::measure_node_height(&nodes[i], width, cjk);
        let node_end = node_line_starts[i].saturating_add(h);
        if node_end >= viewport_last {
            done = true;
        }
        i = i + 1;
    }
    let last = if i < nodes.len() {
        i
    } else {
        nodes.len()
    };
    if first >= last || first >= nodes.len() {
        let r = RenderResult { lines: Vec::new(), image_positions: Vec::new(), node_line_starts: Vec::new() };
        assert(r@.lines =~= Seq::<Seq<SpanV>>::empty());
        assert(r@.images =~= Seq::<(int, Seq<char>, Seq<char>)>::empty());
        assert(r@.starts =~= Seq::<int>::empty());
        return r;
    }
    let rendered = render_node_range(nodes, first, last, width, full_width, highlighter, cjk);
    let ghost rv = rendered@;
    let base = node_line_starts[first];
    let mut starts: Vec<usize> = Vec::new();
    let mut k: usize = 0;
    while k < rendered.node_line_starts.len()
        invariant
            k <= rendered.node_line_starts@.len(),
            rv.starts == ints(rendered.node_line_starts@),
            starts@.len() == k,
            forall|m: int| 0 <= m < k ==> #[trigger] starts@[m] as int == sat_add_usize(rv.starts[m], base as int),
        decreases rendered.node_line_starts@.len() - k,
    {
        starts.push(rendered.node_line_starts[k].saturating_add(base));
        k = k + 1;
    }
    let mut images: Vec<(usize, String, String)> = Vec::new();
    let ghost iseq = rendered.image_positions@;
    let nimgs = rendered.image_positions.len();
    let mut j: usize = 0;
    proof {
        broadcast use vstd::std_specs::vec::axiom_spec_into_iter;
    }
    for img in it: rendered.image_positions.into_iter()
        invariant
            it.seq() == iseq,
            iseq.len() == nimgs,
            rv.images == images_view(iseq),
            j == it.index(),
            images@.len() == j,
            forall|m: int|
                0 <= m < j ==> #[trigger] image_view(images@[m]) == (
                    sat_add_usize(rv.images[m].0, base as int),
                    rv.images[m].1,
                    rv.images[m].2,
                ),
    {
        assert(img == iseq[j as int]);
        let (line, src, alt) = img;
        images.push((line.saturating_add(base), src, alt));
        j = j + 1;
    }
    let mut lines = rendered.lines;
    let start_idx = viewport_first.saturating_sub(base);
    if start_idx < lines.len() {
        let mut rest = lines.split_off(start_idx);
        rest.truncate(viewport_last - viewport_first);
        lines = rest;
    } else {
        lines.clear();
    }
    let r = RenderResult { lines, image_positions: images, node_line_starts: starts };
    let ghost expected = spec_viewport(
        nv,
        node_line_starts@,
        viewport_first as nat,
        viewport_last as nat,
        width as nat,
        full_width as nat,
        cjk,
    );
    assert(r@.starts =~= expected.starts);
    assert(r@.images =~= expected.images);
    assert(r@.lines =~= expected.lines);
    r
}


// ---------------------------------------------------------------------------
// Measured heights are rendered heights
// ---------------------------------------------------------------------------

/// The highlighter takes every line of each code block the node is or holds.
pub open spec fn code_fits(n: DocNodeV) -> bool
    decreases n,
{
    match n {
        DocNodeV::CodeBlock { language, code } => lines_highlighted(code_label(language), code),
        DocNodeV::BlockQuote(children) => codes_fit(children),
        _ => true,
    }
}

/// Every node of `s` is [`code_fits`].
pub open spec fn codes_fit(s: Seq<DocNodeV>) -> bool
    decreases s,
{
    if s.len() == 0 {
        true
    } else {
        codes_fit(s.drop_last()) && code_fits(s.last())
    }
}

/// The heights of the nodes of `s` added up.
pub open spec fn heights_sum(s: Seq<DocNodeV>, w: nat, cjk: bool) -> nat
    decreases s.len(),
{
    if s.len() == 0 {
        0
    } else {
        heights_sum(s.drop_last(), w, cjk) + spec_node_height(s.last(), w, cjk)
    }
}

proof fn lemma_node_height_rendered(n: DocNodeV, w: nat, fw: nat, cjk: bool)
    requires
        code_fits(n),
        spec_render_node(n, w, fw, cjk).0.len() <= usize::MAX,
    ensures
        spec_node_height(n, w, cjk) == spec_render_node(n, w, fw, cjk).0.len(),
    decreases n, 1nat,
{
    match n {
        DocNodeV::BlockQuote(children) => {
            let inner = quote_inner(w, cjk);
            let nested = spec_render_nodes(children, inner, inner, cjk);
            if nested.lines.len() > 0 {
                assert(quote_added(nested, w, inner, cjk).len() == nested.lines.len() + 2);
            }
            lemma_nodes_height_rendered(children, inner, inner, cjk);
        },
        DocNodeV::Table { headers, rows } => {
            crate::renderer::table::lemma_table_lines_len(headers, rows, w, cjk);
        },
        DocNodeV::CodeBlock { language, code } => {
            law_highlighted_lines_make_up_code(code_label(language), code);
            lemma_code_block_height(code_label(language), highlighted_regions(code_label(language), code), code, w, cjk);
        },
        DocNodeV::Image { src, alt } => {
        },
        _ => {},
    }
}

proof fn lemma_nodes_height_rendered(s: Seq<DocNodeV>, w: nat, fw: nat, cjk: bool)
    requires
        codes_fit(s),
        spec_render_nodes(s, w, fw, cjk).lines.len() <= usize::MAX,
    ensures
        spec_nodes_height(s, w, cjk) == spec_render_nodes(s, w, fw, cjk).lines.len(),
        heights_sum(s, w, cjk) == spec_render_nodes(s, w, fw, cjk).lines.len(),
    decreases s, 0nat,
{
    if s.len() > 0 {
        lemma_nodes_height_rendered(s.drop_last(), w, fw, cjk);
        lemma_node_height_rendered(s.last(), w, fw, cjk);
    }
}

proof fn lemma_codes_fit_take(s: Seq<DocNodeV>, k: int)
    requires
        codes_fit(s),
        0 <= k <= s.len(),
    ensures
        codes_fit(s.take(k)),
        forall|i: int| 0 <= i < k ==> code_fits(#[trigger] s[i]),
    decreases s.len() - k,
{
    if k < s.len() {
        lemma_codes_fit_take(s.drop_last(), k);
        assert(s.drop_last().take(k) =~= s.take(k));
        assert forall|i: int| 0 <= i < k implies code_fits(#[trigger] s[i]) by {
            assert(s[i] == s.drop_last()[i]);
        }
    } else {
        assert(s.take(k) =~= s);
        assert forall|i: int| 0 <= i < k implies code_fits(#[trigger] s[i]) by {
            lemma_codes_fit_index(s, i);
        }
    }
}

proof fn lemma_codes_fit_index(s: Seq<DocNodeV>, i: int)
    requires
        codes_fit(s),
        0 <= i < s.len(),
    ensures
        code_fits(s[i]),
    decreases s.len(),
{
    if i < s.len() - 1 {
        lemma_codes_fit_index(s.drop_last(), i);
        assert(s[i] == s.drop_last()[i]);
    }
}

proof fn lemma_render_prefix(s: Seq<DocNodeV>, k: int, w: nat, fw: nat, cjk: bool)
    requires
        0 <= k < s.len(),
    ensures
        spec_render_nodes(s, w, fw, cjk).starts.len() == s.len(),
        spec_render_nodes(s, w, fw, cjk).starts[k] == spec_render_nodes(s.take(k), w, fw, cjk).lines.len(),
        spec_render_nodes(s.take(k), w, fw, cjk).lines.len() <= spec_render_nodes(s, w, fw, cjk).lines.len(),
    decreases s.len(),
{
    lemma_render_starts_len(s, w, fw, cjk);
    if k < s.len() - 1 {
        lemma_render_prefix(s.drop_last(), k, w, fw, cjk);
        assert(s.drop_last().take(k) =~= s.take(k));
    } else {
        assert(s.drop_last() =~= s.take(k));
    }
}

proof fn lemma_render_starts_len(s: Seq<DocNodeV>, w: nat, fw: nat, cjk: bool)
    ensures
        spec_render_nodes(s, w, fw, cjk).starts.len() == s.len(),
    decreases s.len(),
{
    if s.len() > 0 {
        lemma_render_starts_len(s.drop_last(), w, fw, cjk);
    }
}

/// Measuring a document gives what rendering it does: each node's height is the number
/// of lines it renders to, the heights add up to the document's lines, and each node
/// starts after the heights of those before it. This holds where the highlighter takes
/// every line of each code block and the lines can be counted.
pub proof fn law_measured_heights_match_rendering(s: Seq<DocNodeV>, w: nat, fw: nat, cjk: bool)
    requires
        codes_fit(s),
        spec_render_nodes(s, w, fw, cjk).lines.len() <= usize::MAX,
    ensures
        heights_sum(s, w, cjk) == spec_render_nodes(s, w, fw, cjk).lines.len(),
        spec_render_nodes(s, w, fw, cjk).starts.len() == s.len(),
        forall|k: int|
            0 <= k < s.len() ==> #[trigger] spec_render_nodes(s, w, fw, cjk).starts[k] == heights_sum(
                s.take(k),
                w,
                cjk,
            ),
        forall|k: int|
            0 <= k < s.len() ==> spec_node_height(#[trigger] s[k], w, cjk) == spec_render_node(s[k], w, fw, cjk).0.len(),
{
    lemma_nodes_height_rendered(s, w, fw, cjk);
    lemma_render_starts_len(s, w, fw, cjk);
    assert forall|k: int| 0 <= k < s.len() implies #[trigger] spec_render_nodes(s, w, fw, cjk).starts[k]
        == heights_sum(s.take(k), w, cjk) by {
        lemma_render_prefix(s, k, w, fw, cjk);
        lemma_codes_fit_take(s, k);
        lemma_nodes_height_rendered(s.take(k), w, fw, cjk);
    }
    assert forall|k: int| 0 <= k < s.len() implies spec_node_height(#[trigger] s[k], w, cjk)
        == spec_render_node(s[k], w, fw, cjk).0.len() by {
        lemma_codes_fit_index(s, k);
        lemma_render_prefix(s, k, w, fw, cjk);
        lemma_codes_fit_take(s, k + 1);
        if k + 1 < s.len() {
            lemma_render_prefix(s, k + 1, w, fw, cjk);
        }
        lemma_node_len_within(s, k, w, fw, cjk);
        lemma_node_height_rendered(s[k], w, fw, cjk);
    }
}

proof fn lemma_node_len_within(s: Seq<DocNodeV>, k: int, w: nat, fw: nat, cjk: bool)
    requires
        0 <= k < s.len(),
    ensures
        spec_render_node(s[k], w, fw, cjk).0.len() <= spec_render_nodes(s, w, fw, cjk).lines.len(),
    decreases s.len(),
{
    if k < s.len() - 1 {
        lemma_node_len_within(s.drop_last(), k, w, fw, cjk);
        assert(s[k] == s.drop_last()[k]);
    }
}

// ---------------------------------------------------------------------------
// What the viewport shows
// ---------------------------------------------------------------------------

/// Rendering two runs of nodes one after the other gives the lines of each, in order.
proof fn lemma_render_concat(x: Seq<DocNodeV>, y: Seq<DocNodeV>, w: nat, fw: nat, cjk: bool)
    ensures
        spec_render_nodes(x + y, w, fw, cjk).lines == spec_render_nodes(x, w, fw, cjk).lines + spec_render_nodes(
            y,
            w,
            fw,
            cjk,
        ).lines,
    decreases y.len(),
{
    if y.len() == 0 {
        assert(x + y =~= x);
        assert(spec_render_nodes(x, w, fw, cjk).lines + spec_render_nodes(y, w, fw, cjk).lines
            =~= spec_render_nodes(x, w, fw, cjk).lines);
    } else {
        lemma_render_concat(x, y.drop_last(), w, fw, cjk);
        assert((x + y).drop_last() =~= x + y.drop_last());
        assert((x + y).last() == y.last());
        let a = spec_render_nodes(x, w, fw, cjk).lines;
        let b = spec_render_nodes(y.drop_last(), w, fw, cjk).lines;
        let c = spec_render_node(y.last(), w, fw, cjk).0;
        assert(a + b + c =~= a + (b + c));
    }
}

/// How many lines the first `k` nodes render to.
#[verifier::opaque]
pub open spec fn lines_before(nodes: Seq<DocNodeV>, k: int, w: nat, fw: nat, cjk: bool) -> nat {
    spec_render_nodes(nodes.take(k), w, fw, cjk).lines.len()
}

/// The nodes `a..b` render to the lines of the whole rendering that lie between the lines
/// before `a` and the lines before `b`.
proof fn lemma_render_slice(nodes: Seq<DocNodeV>, a: int, b: int, w: nat, fw: nat, cjk: bool)
    requires
        0 <= a <= b <= nodes.len(),
    ensures
        lines_before(nodes, a, w, fw, cjk) <= lines_before(nodes, b, w, fw, cjk) <= spec_render_nodes(nodes, w, fw, cjk).lines.len(),
        spec_render_nodes(nodes.subrange(a, b), w, fw, cjk).lines == spec_render_nodes(nodes, w, fw, cjk).lines.subrange(
            lines_before(nodes, a, w, fw, cjk) as int,
            lines_before(nodes, b, w, fw, cjk) as int,
        ),
{
    reveal(lines_before);
    let full = spec_render_nodes(nodes, w, fw, cjk).lines;
    let pa = spec_render_nodes(nodes.take(a), w, fw, cjk).lines;
    let pb = spec_render_nodes(nodes.take(b), w, fw, cjk).lines;
    let mid = spec_render_nodes(nodes.subrange(a, b), w, fw, cjk).lines;
    let tail = spec_render_nodes(nodes.skip(b), w, fw, cjk).lines;
    assert(nodes.take(a) + nodes.subrange(a, b) =~= nodes.take(b));
    lemma_render_concat(nodes.take(a), nodes.subrange(a, b), w, fw, cjk);
    assert(nodes.take(b) + nodes.skip(b) =~= nodes);
    lemma_render_concat(nodes.take(b), nodes.skip(b), w, fw, cjk);
    assert(pb == pa + mid);
    assert(full == pb + tail);
    assert(full.subrange(pa.len() as int, pb.len() as int) =~= mid);
}

/// The lines before all nodes are the whole rendering; before none, there are none; and
/// before each node, as many as rendering counts where it starts.
proof fn lemma_lines_before_ends(nodes: Seq<DocNodeV>, w: nat, fw: nat, cjk: bool)
    ensures
        lines_before(nodes, nodes.len() as int, w, fw, cjk) == spec_render_nodes(nodes, w, fw, cjk).lines.len(),
        lines_before(nodes, 0, w, fw, cjk) == 0,
        forall|k: int| 0 <= k < nodes.len() ==> #[trigger] spec_render_nodes(nodes, w, fw, cjk).starts[k] == lines_before(nodes, k, w, fw, cjk),
{
    reveal(lines_before);
    assert(nodes.take(nodes.len() as int) =~= nodes);
    assert(nodes.take(0) =~= Seq::<DocNodeV>::empty());
    assert forall|k: int| 0 <= k < nodes.len() implies #[trigger] spec_render_nodes(nodes, w, fw, cjk).starts[k]
        == lines_before(nodes, k, w, fw, cjk) by {
        lemma_render_prefix(nodes, k, w, fw, cjk);
    }
}

/// The lines before node `i + 1` are those before node `i` and node `i`'s own.
proof fn lemma_lines_before_step(nodes: Seq<DocNodeV>, i: int, w: nat, fw: nat, cjk: bool)
    requires
        0 <= i < nodes.len(),
    ensures
        lines_before(nodes, i + 1, w, fw, cjk) == lines_before(nodes, i, w, fw, cjk) + spec_render_node(nodes[i], w, fw, cjk).0.len(),
{
    reveal(lines_before);
    assert(nodes.take(i + 1).drop_last() =~= nodes.take(i));
    assert(nodes.take(i + 1).last() == nodes[i]);
}

/// Where the lines before each node are where rendering starts it, the count of starts at
/// or before a line covers the first node, and every start counted is at or before it.
proof fn lemma_count_sorted_prefix(s: Seq<usize>, x: nat)
    requires
        sorted(s),
    ensures
        count_at_most(s, x) <= s.len(),
        forall|i: int| 0 <= i < count_at_most(s, x) ==> #[trigger] s[i] <= x,
        s.len() > 0 && s[0] <= x ==> count_at_most(s, x) >= 1,
    decreases s.len(),
{
    if s.len() > 0 {
        let d = s.drop_last();
        assert(sorted(d));
        lemma_count_sorted_prefix(d, x);
        assert forall|i: int| 0 <= i < count_at_most(s, x) implies #[trigger] s[i] <= x by {
            if i < count_at_most(d, x) {
                assert(s[i] == d[i]);
            } else {
                assert(s.last() <= x);
            }
        }
        if s[0] <= x && s.len() > 1 {
            assert(d[0] == s[0]);
        }
    }
}

/// Where each measured height is the number of lines the node renders to, the search for
/// the last node to render stops past its start, and at a node whose end reaches `last`
/// or at the end of the document.
proof fn lemma_visible_end(
    nodes: Seq<DocNodeV>,
    starts: Seq<usize>,
    i: int,
    last: nat,
    w: nat,
    fw: nat,
    cjk: bool,
)
    requires
        0 <= i <= nodes.len(),
        starts.len() == nodes.len(),
        lines_before(nodes, nodes.len() as int, w, fw, cjk) <= usize::MAX,
        forall|k: int| 0 <= k < nodes.len() ==> #[trigger] starts[k] as int == lines_before(nodes, k, w, fw, cjk),
        forall|k: int| 0 <= k < nodes.len() ==> spec_node_height(#[trigger] nodes[k], w, cjk) == spec_render_node(nodes[k], w, fw, cjk).0.len(),
    ensures
        i == nodes.len() ==> visible_end(nodes, starts, i, last, w, cjk) == i,
        i < nodes.len() ==> {
            let e = visible_end(nodes, starts, i, last, w, cjk);
            &&& i < e <= nodes.len()
            &&& (e == nodes.len() || lines_before(nodes, e, w, fw, cjk) >= last)
        },
    decreases nodes.len() - i,
{
    if i < nodes.len() {
        lemma_lines_before_step(nodes, i, w, fw, cjk);
        lemma_render_slice(nodes, i + 1, nodes.len() as int, w, fw, cjk);
        lemma_lines_before_ends(nodes, w, fw, cjk);
        assert(lines_before(nodes, i + 1, w, fw, cjk) == starts[i] + spec_node_height(nodes[i], w, cjk));
        lemma_visible_end(nodes, starts, i + 1, last, w, fw, cjk);
    }
}

/// Where starts are the lines before each node and heights are what each renders to:
/// the node range the viewport renders, its first node starting at or before `first`, and
/// its end reaching `last` or the document's end.
proof fn lemma_viewport_range(
    nodes: Seq<DocNodeV>,
    starts: Seq<usize>,
    first: nat,
    last: nat,
    w: nat,
    fw: nat,
    cjk: bool,
) -> (ft: (int, int))
    requires
        nodes.len() > 0,
        starts.len() == nodes.len(),
        lines_before(nodes, nodes.len() as int, w, fw, cjk) <= usize::MAX,
        lines_before(nodes, 0, w, fw, cjk) == 0,
        forall|k: int| 0 <= k < nodes.len() ==> #[trigger] starts[k] as int == lines_before(nodes, k, w, fw, cjk),
        forall|k: int| 0 <= k < nodes.len() ==> spec_node_height(#[trigger] nodes[k], w, cjk) == spec_render_node(nodes[k], w, fw, cjk).0.len(),
    ensures
        ft.0 == first_visible(starts, first),
        ft.1 == visible_end(nodes, starts, ft.0, last, w, cjk),
        0 <= ft.0 < ft.1 <= nodes.len(),
        starts[ft.0] as int == lines_before(nodes, ft.0, w, fw, cjk),
        starts[ft.0] <= first,
        ft.1 < nodes.len() ==> lines_before(nodes, ft.1, w, fw, cjk) >= last,
{
    assert(sorted(starts)) by {
        assert forall|i: int, j: int| 0 <= i <= j < starts.len() implies starts[i] <= starts[j] by {
            lemma_render_slice(nodes, i, j, w, fw, cjk);
        }
    }
    assert(starts[0] == 0);
    lemma_count_sorted_prefix(starts, first);
    let from = count_at_most(starts, first) - 1;
    assert(starts[from] <= first);
    lemma_visible_end(nodes, starts, from, last, w, fw, cjk);
    let to = visible_end(nodes, starts, from, last, w, cjk);
    (from, to)
}

/// The viewport shows the document's lines: rendering only the nodes around lines
/// `first..last` gives the same lines as rendering the whole document and keeping those
/// lines (fewer where the document ends sooner). This holds where each node's measured
/// height is what it renders to and each start is where rendering puts the node.
#[verifier::rlimit(50)]
pub proof fn law_viewport_shows_document_lines(
    nodes: Seq<DocNodeV>,
    starts: Seq<usize>,
    first: nat,
    last: nat,
    w: nat,
    fw: nat,
    cjk: bool,
)
    requires
        first < last,
        starts.len() == nodes.len(),
        spec_render_nodes(nodes, w, fw, cjk).lines.len() <= usize::MAX,
        forall|k: int| 0 <= k < nodes.len() ==> #[trigger] starts[k] as int == spec_render_nodes(nodes, w, fw, cjk).starts[k],
        forall|k: int| 0 <= k < nodes.len() ==> spec_node_height(#[trigger] nodes[k], w, cjk) == spec_render_node(nodes[k], w, fw, cjk).0.len(),
    ensures
        ({
            let full = spec_render_nodes(nodes, w, fw, cjk).lines;
            let t = full.len() as int;
            spec_viewport(nodes, starts, first, last, w, fw, cjk).lines == full.subrange(
                if first < t { first as int } else { t },
                if last < t { last as int } else { t },
            )
        }),
{
    let full = spec_render_nodes(nodes, w, fw, cjk).lines;
    let t = full.len() as int;
    if nodes.len() == 0 {
        assert(full =~= Seq::<Seq<SpanV>>::empty());
        assert(full.subrange(0, 0) =~= Seq::<Seq<SpanV>>::empty());
        return;
    }
    lemma_lines_before_ends(nodes, w, fw, cjk);
    let (from, to) = lemma_viewport_range(nodes, starts, first, last, w, fw, cjk);
    lemma_render_slice(nodes, from, to, w, fw, cjk);
    let pf = lines_before(nodes, from, w, fw, cjk) as int;
    let pt = lines_before(nodes, to, w, fw, cjk) as int;
    assert(to == nodes.len() ==> pt == t);
    let r = spec_render_nodes(nodes.subrange(from, to), w, fw, cjk);
    assert(r.lines == full.subrange(pf, pt));
    let skip = sat_sub(first, starts[from] as nat);
    assert(skip == first - pf);
    let v = spec_viewport(nodes, starts, first, last, w, fw, cjk).lines;
    if first < pt {
        let rest = r.lines.skip(skip as int);
        assert(rest =~= full.subrange(first as int, pt));
        if last - first < rest.len() {
            assert(v == rest.take(last - first));
            assert(rest.take(last - first) =~= full.subrange(first as int, last as int));
        } else {
            assert(v == rest);
        }
    } else {
        assert(r.lines.len() == pt - pf);
        assert(v =~= Seq::<Seq<SpanV>>::empty());
        assert(full.subrange(t, t) =~= Seq::<Seq<SpanV>>::empty());
    }
}


proof fn lemma_prefix_sum_heights(nodes: Seq<DocNodeV>, heights: Seq<usize>, k: int, w: nat, cjk: bool)
    requires
        0 <= k <= nodes.len(),
        heights.len() == nodes.len(),
        forall|j: int| 0 <= j < nodes.len() ==> (#[trigger] heights[j]) as nat == spec_node_height(nodes[j], w, cjk),
    ensures
        prefix_sum(heights, k) == heights_sum(nodes.take(k), w, cjk),
    decreases k,
{
    if k > 0 {
        lemma_prefix_sum_heights(nodes, heights, k - 1, w, cjk);
        assert(nodes.take(k).drop_last() =~= nodes.take(k - 1));
        assert(nodes.take(k).last() == nodes[k - 1]);
    } else {
        assert(nodes.take(0) =~= Seq::<DocNodeV>::empty());
    }
}

/// Laying a document out by measuring agrees with rendering it, where the highlighter
/// takes every line of its code blocks and the lines can be counted: the measured heights
/// add up to the rendered lines, their running sums are where rendering starts each node,
/// and the viewport cut out with those starts holds the document's lines.
pub proof fn law_measured_layout_matches_rendering(
    nodes: Seq<DocNodeV>,
    heights: Seq<usize>,
    starts: Seq<usize>,
    first: nat,
    last: nat,
    w: nat,
    fw: nat,
    cjk: bool,
)
    requires
        codes_fit(nodes),
        spec_render_nodes(nodes, w, fw, cjk).lines.len() <= usize::MAX,
        heights.len() == nodes.len(),
        forall|k: int| 0 <= k < nodes.len() ==> (#[trigger] heights[k]) as nat == spec_node_height(nodes[k], w, cjk),
        starts.len() == nodes.len(),
        forall|k: int| 0 <= k < nodes.len() ==> (#[trigger] starts[k]) as nat == prefix_sum(heights, k),
    ensures
        prefix_sum(heights, heights.len() as int) == spec_render_nodes(nodes, w, fw, cjk).lines.len(),
        forall|k: int| 0 <= k < nodes.len() ==> (#[trigger] starts[k]) as int == spec_render_nodes(nodes, w, fw, cjk).starts[k],
        first < last ==> ({
            let full = spec_render_nodes(nodes, w, fw, cjk).lines;
            let t = full.len() as int;
            spec_viewport(nodes, starts, first, last, w, fw, cjk).lines == full.subrange(
                if first < t { first as int } else { t },
                if last < t { last as int } else { t },
            )
        }),
{
    law_measured_heights_match_rendering(nodes, w, fw, cjk);
    lemma_prefix_sum_heights(nodes, heights, nodes.len() as int, w, cjk);
    assert(nodes.take(nodes.len() as int) =~= nodes);
    assert forall|k: int| 0 <= k < nodes.len() implies (#[trigger] starts[k]) as int == spec_render_nodes(
        nodes,
        w,
        fw,
        cjk,
    ).starts[k] by {
        lemma_prefix_sum_heights(nodes, heights, k, w, cjk);
    }
    if first < last {
        law_viewport_shows_document_lines(nodes, starts, first, last, w, fw, cjk);
    }
}


/// A link shows its text in the link style and never its address: the span a link
/// renders to holds exactly the link's text, and giving the link another address leaves
/// the paragraph's rendered lines as they were.
pub proof fn law_links_show_their_text(
    spans: Seq<InlineSpanV>,
    i: int,
    other_url: Seq<char>,
    w: nat,
    fw: nat,
    cjk: bool,
)
    requires
        0 <= i < spans.len(),
        spans[i] is Link,
    ensures
        rendered_spans(spans).len() == spans.len(),
        rendered_spans(spans)[i] == (SpanV { content: spans[i]->Link_text, style: SpanStyle::Link }),
        spec_render_node(
            DocNodeV::Paragraph(spans.update(i, InlineSpanV::Link { text: spans[i]->Link_text, url: other_url })),
            w,
            fw,
            cjk,
        ) == spec_render_node(DocNodeV::Paragraph(spans), w, fw, cjk),
{
    let moved = spans.update(i, InlineSpanV::Link { text: spans[i]->Link_text, url: other_url });
    assert(rendered_spans(moved) =~= rendered_spans(spans));
}

} // verus!
