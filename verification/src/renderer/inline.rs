//! Inline rendering: heading prefixes, inline spans and soft wrapping.
use crate::parser::{lemma_views_push, views, InlineSpan, InlineSpanV};
use crate::renderer::{SpanStyle, SpanV, StyledLine, StyledSpan, INLINE_CODE_PADDING};
use crate::text::{
    chars_of, push_char, push_str, spec_split, spec_split_words, split_chars, split_words,
    string_of_range,
};
use crate::width::{
    capped, char_width, lemma_width_concat, spec_char_width, spec_str_width, width_capped,
};
use vstd::prelude::*;

verus! {

// ---------------------------------------------------------------------------
// Splitting text at a column
// ---------------------------------------------------------------------------

/// How many characters from index `k` on still fit when `width` columns are used.
pub open spec fn fit_count(s: Seq<char>, k: int, width: nat, max: nat, cjk: bool) -> int
    decreases s.len() - k,
{
    if k < 0 || k >= s.len() {
        k
    } else if width + spec_char_width(s[k], cjk) > max {
        k
    } else {
        fit_count(s, k + 1, width + spec_char_width(s[k], cjk), max, cjk)
    }
}

/// How many leading characters of `s` fill at most `max` columns; a first character
/// wider than `max` is taken alone.
pub open spec fn split_count(s: Seq<char>, max: nat, cjk: bool) -> int {
    if s.len() == 0 {
        0
    } else if spec_char_width(s[0], cjk) > max {
        1
    } else {
        fit_count(s, 1, spec_char_width(s[0], cjk), max, cjk)
    }
}

pub proof fn lemma_fit_count_range(s: Seq<char>, k: int, width: nat, max: nat, cjk: bool)
    requires
        0 <= k <= s.len(),
    ensures
        k <= fit_count(s, k, width, max, cjk) <= s.len(),
    decreases s.len() - k,
{
    if k < s.len() && width + spec_char_width(s[k], cjk) <= max {
        lemma_fit_count_range(s, k + 1, width + spec_char_width(s[k], cjk), max, cjk);
    }
}

pub proof fn lemma_split_count_range(s: Seq<char>, max: nat, cjk: bool)
    ensures
        s.len() > 0 ==> 1 <= split_count(s, max, cjk) <= s.len(),
        s.len() == 0 ==> split_count(s, max, cjk) == 0,
{
    if s.len() > 0 && spec_char_width(s[0], cjk) <= max {
        lemma_fit_count_range(s, 1, spec_char_width(s[0], cjk), max, cjk);
    }
}

/// The characters that `fit_count` takes fit the width.
pub proof fn lemma_fit_count_width(s: Seq<char>, k: int, w: nat, max: nat, cjk: bool)
    requires
        0 <= k <= s.len(),
        w == spec_str_width(s.take(k), cjk),
        w <= max,
    ensures
        spec_str_width(s.take(fit_count(s, k, w, max, cjk)), cjk) <= max,
    decreases s.len() - k,
{
    if k < s.len() && w + spec_char_width(s[k], cjk) <= max {
        assert(s.take(k + 1).drop_last() =~= s.take(k));
        lemma_fit_count_width(s, k + 1, w + spec_char_width(s[k], cjk), max, cjk);
    }
}

/// The number of characters of `v[from..]` that fill at most `max` columns.
pub(crate) fn split_count_exec(v: &Vec<char>, from: usize, max: usize, cjk: bool) -> (k: usize)
    requires
        from < v@.len(),
        max < usize::MAX - 3,
    ensures
        k == split_count(v@.skip(from as int), max as nat, cjk),
        1 <= k <= v@.len() - from,
{
    let ghost s = v@.skip(from as int);
    proof {
        lemma_split_count_range(s, max as nat, cjk);
    }
    let w0 = char_width(v[from], cjk);
    if w0 > max {
        return 1;
    }
    let mut width = w0;
    let mut k: usize = 1;
    while k < v.len() - from
        invariant
            from < v@.len(),
            1 <= k <= v@.len() - from,
            s == v@.skip(from as int),
            width <= max,
            max < usize::MAX - 3,
            fit_count(s, k as int, width as nat, max as nat, cjk) == split_count(s, max as nat, cjk),
        decreases v@.len() - from - k,
    {
        let cw = char_width(v[from + k], cjk);
        if width + cw > max {
            return k;
        }
        width = width + cw;
        k = k + 1;
    }
    k
}

/// The number of UTF-8 bytes that encode `c`.
pub open spec fn spec_utf8_len(c: char) -> nat {
    if (c as u32) < 0x80 {
        1
    } else if (c as u32) < 0x800 {
        2
    } else if (c as u32) < 0x10000 {
        3
    } else {
        4
    }
}

/// The number of UTF-8 bytes that encode `s`.
pub open spec fn spec_utf8_bytes(s: Seq<char>) -> nat
    decreases s.len(),
{
    if s.len() == 0 {
        0
    } else {
        spec_utf8_bytes(s.drop_last()) + spec_utf8_len(s.last())
    }
}

pub fn utf8_len(c: char) -> (n: usize)
    ensures
        n == spec_utf8_len(c),
{
    let u = c as u32;
    if u < 0x80 {
        1
    } else if u < 0x800 {
        2
    } else if u < 0x10000 {
        3
    } else {
        4
    }
}

/// With room for three columns a character, every character from `k` on fits.
proof fn lemma_fit_all(s: Seq<char>, k: int, width: nat, max: nat, cjk: bool)
    requires
        0 <= k <= s.len(),
        width + 3 * (s.len() - k) <= max,
    ensures
        fit_count(s, k, width, max, cjk) == s.len(),
    decreases s.len() - k,
{
    if k < s.len() {
        assert(spec_char_width(s[k], cjk) <= 3);
        lemma_fit_all(s, k + 1, width + spec_char_width(s[k], cjk), max, cjk);
    }
}

/// With room for three columns a character, the whole text fits.
proof fn lemma_split_all(s: Seq<char>, max: nat, cjk: bool)
    requires
        s.len() > 0,
        3 * s.len() <= max,
    ensures
        split_count(s, max, cjk) == s.len(),
{
    assert(spec_char_width(s[0], cjk) <= 3);
    lemma_fit_all(s, 1, spec_char_width(s[0], cjk), max, cjk);
}

/// The byte offset in `text` after the characters that fill at most `max_width` columns
/// (at least one character when `text` is not empty).
pub fn byte_index_for_width(text: &str, max_width: usize, cjk: bool) -> (r: usize)
    requires
        text@.len() <= usize::MAX / 4,
    ensures
        r == spec_utf8_bytes(text@.take(split_count(text@, max_width as nat, cjk))),
{
    let v = chars_of(text);
    if v.len() == 0 {
        assert(text@.take(0) =~= Seq::<char>::empty());
        return 0;
    }
    let room = 3 * v.len();
    let m = if max_width > room {
        room
    } else {
        max_width
    };
    let k = split_count_exec(&v, 0, m, cjk);
    assert(v@.skip(0) =~= v@);
    proof {
        if max_width > room {
            lemma_split_all(v@, m as nat, cjk);
            lemma_split_all(v@, max_width as nat, cjk);
        }
    }
    let mut bytes: usize = 0;
    let mut j: usize = 0;
    while j < k
        invariant
            j <= k <= v@.len(),
            v@ == text@,
            text@.len() <= usize::MAX / 4,
            bytes == spec_utf8_bytes(v@.take(j as int)),
            bytes <= 4 * j,
        decreases k - j,
    {
        assert(v@.take(j + 1).drop_last() =~= v@.take(j as int));
        bytes = bytes + utf8_len(v[j]);
        j = j + 1;
    }
    bytes
}

// ---------------------------------------------------------------------------
// Heading prefixes and inline spans
// ---------------------------------------------------------------------------

/// The `#` marks shown before a heading of `level` (six for levels outside 1 to 5).
pub open spec fn spec_heading_prefix(level: u8) -> Seq<char> {
    Seq::new(
        if 1 <= level <= 5 {
            level as nat
        } else {
            6
        },
        |i: int| '#',
    )
}

/// The `#` marks shown before a heading of `level`.
pub fn heading_prefix(level: u8) -> (p: &'static str)
    ensures
        p@ == spec_heading_prefix(level),
{
    let p = match level {
        1 => "#",
        2 => "##",
        3 => "###",
        4 => "####",
        5 => "#####",
        6 => "######",
        _ => "######",
    };
    proof {
        reveal_strlit("#");
        reveal_strlit("##");
        reveal_strlit("###");
        reveal_strlit("####");
        reveal_strlit("#####");
        reveal_strlit("######");
    }
    assert(p@ =~= spec_heading_prefix(level));
    p
}

/// The styled span an inline span renders as.
pub open spec fn spec_render_span(s: InlineSpanV) -> SpanV {
    match s {
        InlineSpanV::Text(t) => SpanV { content: t, style: SpanStyle::Text },
        InlineSpanV::Bold(t) => SpanV { content: t, style: SpanStyle::Bold },
        InlineSpanV::Italic(t) => SpanV { content: t, style: SpanStyle::Italic },
        InlineSpanV::BoldItalic(t) => SpanV { content: t, style: SpanStyle::BoldItalic },
        InlineSpanV::Code(t) => SpanV {
            content: seq![' '] + t + seq![' '],
            style: SpanStyle::InlineCode,
        },
        InlineSpanV::Strikethrough(t) => SpanV { content: t, style: SpanStyle::Strikethrough },
        InlineSpanV::Link { text, url } => SpanV { content: text, style: SpanStyle::Link },
        InlineSpanV::Image { src, alt } => SpanV {
            content: "[image: "@ + (if alt.len() == 0 {
                src
            } else {
                alt
            }) + seq![']'],
            style: SpanStyle::Subtext,
        },
        InlineSpanV::SoftBreak => SpanV { content: seq![' '], style: SpanStyle::Plain },
        InlineSpanV::HardBreak => SpanV { content: seq!['\n'], style: SpanStyle::Plain },
    }
}

fn one_char(c: char) -> (s: String)
    ensures
        s@ == seq![c],
{
    let mut s = String::new();
    push_char(&mut s, c);
    assert(s@ =~= seq![c]);
    s
}

fn render_span(span: &InlineSpan) -> (r: StyledSpan)
    ensures
        r@ == spec_render_span(span@),
{
    match span {
        InlineSpan::Text(t) => StyledSpan { content: t.clone(), style: SpanStyle::Text },
        InlineSpan::Bold(t) => StyledSpan { content: t.clone(), style: SpanStyle::Bold },
        InlineSpan::Italic(t) => StyledSpan { content: t.clone(), style: SpanStyle::Italic },
        InlineSpan::BoldItalic(t) => StyledSpan { content: t.clone(), style: SpanStyle::BoldItalic },
        InlineSpan::Code(t) => {
            let mut s = String::new();
            push_char(&mut s, ' ');
            push_str(&mut s, t.as_str());
            push_char(&mut s, ' ');
            assert(s@ =~= seq![' '] + t@ + seq![' ']);
            StyledSpan { content: s, style: SpanStyle::InlineCode }
        },
        InlineSpan::Strikethrough(t) => StyledSpan {
            content: t.clone(),
            style: SpanStyle::Strikethrough,
        },
        InlineSpan::Link { text, url } => StyledSpan { content: text.clone(), style: SpanStyle::Link },
        InlineSpan::Image { src, alt } => {
            let label = if alt.as_str().is_empty() {
                src
            } else {
                alt
            };
            let mut s = String::new();
            push_str(&mut s, "[image: ");
            push_str(&mut s, label.as_str());
            push_char(&mut s, ']');
            assert(s@ =~= "[image: "@ + label@ + seq![']']);
            StyledSpan { content: s, style: SpanStyle::Subtext }
        },
        InlineSpan::SoftBreak => StyledSpan { content: one_char(' '), style: SpanStyle::Plain },
        InlineSpan::HardBreak => StyledSpan { content: one_char('\n'), style: SpanStyle::Plain },
    }
}

/// The styled spans that inline spans render as.
pub fn render_inline_spans(spans: &Vec<InlineSpan>) -> (r: Vec<StyledSpan>)
    ensures
        views(r@) == views(spans@).map_values(|s: InlineSpanV| spec_render_span(s)),
{
    let mut r: Vec<StyledSpan> = Vec::new();
    let mut k: usize = 0;
    while k < spans.len()
        invariant
            k <= spans@.len(),
            views(r@) == views(spans@.take(k as int)).map_values(|s: InlineSpanV| spec_render_span(s)),
        decreases spans@.len() - k,
    {
        let s = render_span(&spans[k]);
        proof {
            lemma_views_push(r@, s);
            assert(views(spans@.take(k + 1)).map_values(|s: InlineSpanV| spec_render_span(s)) =~= views(
                spans@.take(k as int),
            ).map_values(|s: InlineSpanV| spec_render_span(s)).push(spec_render_span(spans@[k as int]@)));
        }
        r.push(s);
        k = k + 1;
    }
    assert(spans@.take(spans@.len() as int) =~= spans@);
    r
}

// ---------------------------------------------------------------------------
// Soft wrapping
// ---------------------------------------------------------------------------

/// Lines finished so far, the line being filled, and its width.
pub struct WrapState {
    pub lines: Seq<Seq<SpanV>>,
    pub cur: Seq<SpanV>,
    pub cw: nat,
}

/// A wrap that has produced nothing yet.
pub open spec fn wrap_start() -> WrapState {
    WrapState { lines: Seq::empty(), cur: Seq::empty(), cw: 0 }
}

/// Ends the line being filled.
pub open spec fn wrap_break(st: WrapState) -> WrapState {
    WrapState { lines: st.lines.push(st.cur), cur: Seq::empty(), cw: 0 }
}

/// Places a chunk of text greedily: on the current line if it fits, else on a fresh
/// line, split where it is wider than a whole line.
pub open spec fn spec_push_chunk(
    st: WrapState,
    text: Seq<char>,
    style: SpanStyle,
    max: nat,
    cjk: bool,
) -> WrapState
    decreases text.len(), if st.cw > 0 { 1int } else { 0int },
{
    if text.len() == 0 {
        st
    } else {
        let rw = spec_str_width(text, cjk);
        if st.cw > 0 && st.cw + rw > max {
            spec_push_chunk(wrap_break(st), text, style, max, cjk)
        } else if rw <= max {
            WrapState { cur: st.cur.push(SpanV { content: text, style }), cw: st.cw + rw, ..st }
        } else {
            let k = split_count(text, max, cjk);
            if 1 <= k <= text.len() {
                spec_push_chunk(
                    wrap_break(
                        WrapState { cur: st.cur.push(SpanV { content: text.take(k), style }), ..st },
                    ),
                    text.skip(k),
                    style,
                    max,
                    cjk,
                )
            } else {
                st
            }
        }
    }
}

/// Places the first `k` words in turn.
pub open spec fn spec_push_words(
    st: WrapState,
    words: Seq<Seq<char>>,
    k: int,
    style: SpanStyle,
    max: nat,
    cjk: bool,
) -> WrapState
    decreases k,
{
    if k <= 0 {
        st
    } else {
        spec_push_chunk(spec_push_words(st, words, k - 1, style, max, cjk), words[k - 1], style, max, cjk)
    }
}

/// Places segment `idx` of a span's text (the text between line feeds): an empty segment
/// at the start of a line adds an empty line; a line feed after a segment ends the line.
pub open spec fn seg_step(
    st: WrapState,
    segs: Seq<Seq<char>>,
    idx: int,
    style: SpanStyle,
    max: nat,
    cjk: bool,
) -> WrapState {
    let seg = segs[idx];
    if seg.len() == 0 && st.cur.len() == 0 {
        WrapState { lines: st.lines.push(Seq::empty()), ..st }
    } else {
        let words = spec_split_words(seg);
        let st2 = spec_push_words(st, words, words.len() as int, style, max, cjk);
        if idx + 1 < segs.len() {
            wrap_break(st2)
        } else {
            st2
        }
    }
}

/// Places the first `k` segments.
pub open spec fn spec_push_segs(
    st: WrapState,
    segs: Seq<Seq<char>>,
    k: int,
    style: SpanStyle,
    max: nat,
    cjk: bool,
) -> WrapState
    decreases k,
{
    if k <= 0 {
        st
    } else {
        seg_step(spec_push_segs(st, segs, k - 1, style, max, cjk), segs, k - 1, style, max, cjk)
    }
}

/// Places a whole span.
pub open spec fn span_step(st: WrapState, span: SpanV, max: nat, cjk: bool) -> WrapState {
    let segs = spec_split(span.content, '\n');
    spec_push_segs(st, segs, segs.len() as int, span.style, max, cjk)
}

/// Places the spans in turn.
pub open spec fn spec_push_spans(st: WrapState, spans: Seq<SpanV>, max: nat, cjk: bool) -> WrapState
    decreases spans.len(),
{
    if spans.len() == 0 {
        st
    } else {
        span_step(spec_push_spans(st, spans.drop_last(), max, cjk), spans.last(), max, cjk)
    }
}

/// The lines that `spans` wrap to at `max` columns; a width of zero disables wrapping.
pub open spec fn spec_soft_wrap(spans: Seq<SpanV>, max: nat, cjk: bool) -> Seq<Seq<SpanV>> {
    if max == 0 {
        seq![spans]
    } else {
        let st = spec_push_spans(wrap_start(), spans, max, cjk);
        let lines = if st.cur.len() > 0 {
            st.lines.push(st.cur)
        } else {
            st.lines
        };
        if lines.len() == 0 {
            seq![Seq::empty()]
        } else {
            lines
        }
    }
}

/// A wrap in progress.
struct Wrapper {
    lines: Vec<StyledLine>,
    cur: Vec<StyledSpan>,
    cw: usize,
}

impl View for Wrapper {
    type V = WrapState;

    closed spec fn view(&self) -> WrapState {
        WrapState { lines: views(self.lines@), cur: views(self.cur@), cw: self.cw as nat }
    }
}

fn break_line(w: &mut Wrapper)
    ensures
        final(w)@ == wrap_break(old(w)@),
{
    let mut cur = Vec::new();
    std::mem::swap(&mut cur, &mut w.cur);
    let line = StyledLine { spans: cur };
    proof {
        lemma_views_push(w.lines@, line);
    }
    w.lines.push(line);
    w.cw = 0;
    assert(views(w.cur@) =~= Seq::<SpanV>::empty());
}

fn push_wrapped_chunk(w: &mut Wrapper, text: &Vec<char>, style: SpanStyle, max_width: usize, cjk: bool)
    requires
        max_width < usize::MAX - 3,
        old(w).cw <= max_width,
    ensures
        final(w)@ == spec_push_chunk(old(w)@, text@, style, max_width as nat, cjk),
        final(w).cw <= max_width,
{
    let ghost target = spec_push_chunk(w@, text@, style, max_width as nat, cjk);
    let mut from: usize = 0;
    assert(text@.skip(0) =~= text@);
    while from < text.len()
        invariant
            from <= text@.len(),
            max_width < usize::MAX - 3,
            w.cw <= max_width,
            target == spec_push_chunk(old(w)@, text@, style, max_width as nat, cjk),
            spec_push_chunk(w@, text@.skip(from as int), style, max_width as nat, cjk) == target,
        decreases text@.len() - from, if w.cw > 0 { 1int } else { 0int },
    {
        let ghost rest = text@.skip(from as int);
        assert(rest =~= text@.subrange(from as int, text@.len() as int));
        let rw = width_capped(text, from, text.len(), max_width, cjk);
        if w.cw > 0 && rw > max_width - w.cw {
            break_line(w);
        } else if rw <= max_width {
            let piece = string_of_range(text, from, text.len());
            let sp = StyledSpan { content: piece, style };
            proof {
                lemma_views_push(w.cur@, sp);
            }
            w.cur.push(sp);
            w.cw = w.cw + rw;
            from = text.len();
            assert(text@.skip(from as int).len() == 0);
        } else {
            let k = split_count_exec(text, from, max_width, cjk);
            let piece = string_of_range(text, from, from + k);
            assert(rest.take(k as int) =~= text@.subrange(from as int, from + k));
            assert(rest.skip(k as int) =~= text@.skip(from + k));
            let sp = StyledSpan { content: piece, style };
            proof {
                lemma_views_push(w.cur@, sp);
            }
            w.cur.push(sp);
            break_line(w);
            from = from + k;
        }
    }
    assert(text@.skip(from as int).len() == 0);
}

fn push_words(
    w: &mut Wrapper,
    words: &Vec<Vec<char>>,
    style: SpanStyle,
    max_width: usize,
    cjk: bool,
    spec_words: Ghost<Seq<Seq<char>>>,
)
    requires
        max_width < usize::MAX - 3,
        old(w).cw <= max_width,
        words@.len() == spec_words@.len(),
        forall|k: int| 0 <= k < words@.len() ==> (#[trigger] words@[k])@ == spec_words@[k],
    ensures
        final(w)@ == spec_push_words(
            old(w)@,
            spec_words@,
            spec_words@.len() as int,
            style,
            max_width as nat,
            cjk,
        ),
        final(w).cw <= max_width,
{
    let mut k: usize = 0;
    while k < words.len()
        invariant
            k <= words@.len(),
            max_width < usize::MAX - 3,
            w.cw <= max_width,
            words@.len() == spec_words@.len(),
            forall|j: int| 0 <= j < words@.len() ==> (#[trigger] words@[j])@ == spec_words@[j],
            w@ == spec_push_words(old(w)@, spec_words@, k as int, style, max_width as nat, cjk),
        decreases words@.len() - k,
    {
        push_wrapped_chunk(w, &words[k], style, max_width, cjk);
        k = k + 1;
    }
}

fn push_span_wrapped(w: &mut Wrapper, span: &StyledSpan, max_width: usize, cjk: bool)
    requires
        max_width < usize::MAX - 3,
        old(w).cw <= max_width,
    ensures
        final(w)@ == span_step(old(w)@, span@, max_width as nat, cjk),
        final(w).cw <= max_width,
{
    let chars = chars_of(span.content.as_str());
    let segs = split_chars(&chars, '\n');
    let ghost ssegs = spec_split(span@.content, '\n');
    let mut k: usize = 0;
    while k < segs.len()
        invariant
            k <= segs@.len(),
            max_width < usize::MAX - 3,
            w.cw <= max_width,
            segs@.len() == ssegs.len(),
            forall|j: int| 0 <= j < segs@.len() ==> (#[trigger] segs@[j])@ == ssegs[j],
            w@ == spec_push_segs(old(w)@, ssegs, k as int, span.style, max_width as nat, cjk),
        decreases segs@.len() - k,
    {
        let seg = &segs[k];
        if seg.len() == 0 && w.cur.len() == 0 {
            let line = StyledLine { spans: Vec::new() };
            assert(line@ =~= Seq::<SpanV>::empty());
            proof {
                lemma_views_push(w.lines@, line);
            }
            w.lines.push(line);
        } else {
            let words = split_words(seg);
            push_words(w, &words, span.style, max_width, cjk, Ghost(spec_split_words(seg@)));
            if k + 1 < segs.len() {
                break_line(w);
            }
        }
        k = k + 1;
    }
}

/// Breaks styled spans into lines at most `max_width` columns wide, at spaces where
/// possible, and at line feeds.
pub fn soft_wrap_spans(spans: Vec<StyledSpan>, max_width: usize, cjk: bool) -> (lines: Vec<StyledLine>)
    requires
        max_width < usize::MAX - 3,
    ensures
        views(lines@) == spec_soft_wrap(views(spans@), max_width as nat, cjk),
{
    if max_width == 0 {
        let mut lines = Vec::new();
        let line = StyledLine { spans };
        lines.push(line);
        assert(views(lines@) =~= seq![line@]);
        return lines;
    }
    let mut w = Wrapper { lines: Vec::new(), cur: Vec::new(), cw: 0 };
    assert(w@ == wrap_start()) by {
        assert(views(w.lines@) =~= Seq::<Seq<SpanV>>::empty());
        assert(views(w.cur@) =~= Seq::<SpanV>::empty());
    }
    let ghost sv = views(spans@);
    let mut k: usize = 0;
    while k < spans.len()
        invariant
            k <= spans@.len(),
            sv == views(spans@),
            max_width < usize::MAX - 3,
            w.cw <= max_width,
            w@ == spec_push_spans(wrap_start(), sv.take(k as int), max_width as nat, cjk),
        decreases spans@.len() - k,
    {
        assert(sv.take(k + 1).drop_last() =~= sv.take(k as int));
        push_span_wrapped(&mut w, &spans[k], max_width, cjk);
        k = k + 1;
    }
    assert(sv.take(spans@.len() as int) =~= sv);
    if w.cur.len() > 0 {
        break_line(&mut w);
    }
    if w.lines.len() == 0 {
        let line = StyledLine { spans: Vec::new() };
        assert(line@ =~= Seq::<SpanV>::empty());
        proof {
            lemma_views_push(w.lines@, line);
        }
        w.lines.push(line);
    }
    w.lines
}


// ---------------------------------------------------------------------------
// Wrapped lines fit
// ---------------------------------------------------------------------------

/// No character of `s` is wider than `max` columns.
pub open spec fn chars_fit(s: Seq<char>, max: nat, cjk: bool) -> bool {
    forall|i: int| 0 <= i < s.len() ==> #[trigger] spec_char_width(s[i], cjk) <= max
}

/// The lines done so far fit in `max` columns, and `cw` is the width of the line being filled.
pub open spec fn wrap_ok(st: WrapState, max: nat, cjk: bool) -> bool {
    &&& forall|i: int| 0 <= i < st.lines.len() ==> crate::renderer::line_width(#[trigger] st.lines[i], cjk) <= max
    &&& crate::renderer::line_width(st.cur, cjk) == st.cw
    &&& st.cw <= max
}

proof fn lemma_line_push_width(l: Seq<SpanV>, x: SpanV, cjk: bool)
    ensures
        crate::renderer::line_width(l.push(x), cjk) == crate::renderer::line_width(l, cjk) + spec_str_width(x.content, cjk),
{
    assert(l.push(x).drop_last() =~= l);
    lemma_width_concat(crate::renderer::line_text(l), x.content, cjk);
}

proof fn lemma_empty_line_width(cjk: bool)
    ensures
        crate::renderer::line_width(Seq::<SpanV>::empty(), cjk) == 0,
{
}

proof fn lemma_wrap_break_ok(st: WrapState, max: nat, cjk: bool)
    requires
        wrap_ok(st, max, cjk),
    ensures
        wrap_ok(wrap_break(st), max, cjk),
{
    lemma_empty_line_width(cjk);
    let b = wrap_break(st);
    assert forall|i: int| 0 <= i < b.lines.len() implies crate::renderer::line_width(#[trigger] b.lines[i], cjk) <= max by {
        if i < st.lines.len() {
            assert(b.lines[i] == st.lines[i]);
        }
    }
}

proof fn lemma_push_chunk_ok(st: WrapState, text: Seq<char>, style: SpanStyle, max: nat, cjk: bool)
    requires
        wrap_ok(st, max, cjk),
        chars_fit(text, max, cjk),
        max > 0,
    ensures
        wrap_ok(spec_push_chunk(st, text, style, max, cjk), max, cjk),
    decreases text.len(), if st.cw > 0 { 1int } else { 0int },
{
    if text.len() > 0 {
        let rw = spec_str_width(text, cjk);
        if st.cw > 0 && st.cw + rw > max {
            lemma_wrap_break_ok(st, max, cjk);
            lemma_push_chunk_ok(wrap_break(st), text, style, max, cjk);
        } else if rw <= max {
            lemma_line_push_width(st.cur, SpanV { content: text, style }, cjk);
        } else {
            lemma_split_count_range(text, max, cjk);
            let k = split_count(text, max, cjk);
            assert(spec_char_width(text[0], cjk) <= max);
            assert(text.take(1).drop_last() =~= Seq::<char>::empty());
            assert(text.take(1).last() == text[0]);
            assert(spec_str_width(Seq::<char>::empty(), cjk) == 0);
            assert(spec_str_width(text.take(1), cjk) == spec_str_width(text.take(1).drop_last(), cjk) + spec_char_width(text.take(1).last(), cjk));
            lemma_fit_count_width(text, 1, spec_char_width(text[0], cjk), max, cjk);
            let st1 = WrapState { cur: st.cur.push(SpanV { content: text.take(k), style }), ..st };
            lemma_line_push_width(st.cur, SpanV { content: text.take(k), style }, cjk);
            assert(wrap_ok(WrapState { cw: spec_str_width(text.take(k), cjk), ..st1 }, max, cjk));
            lemma_wrap_break_ok(WrapState { cw: spec_str_width(text.take(k), cjk), ..st1 }, max, cjk);
            assert(wrap_break(WrapState { cw: spec_str_width(text.take(k), cjk), ..st1 }) == wrap_break(st1));
            assert forall|i: int| 0 <= i < text.skip(k).len() implies #[trigger] spec_char_width(text.skip(k)[i], cjk) <= max by {
                assert(text.skip(k)[i] == text[i + k]);
            }
            lemma_push_chunk_ok(wrap_break(st1), text.skip(k), style, max, cjk);
        }
    }
}

proof fn lemma_push_words_ok(st: WrapState, words: Seq<Seq<char>>, k: int, style: SpanStyle, max: nat, cjk: bool)
    requires
        wrap_ok(st, max, cjk),
        0 <= k <= words.len(),
        forall|j: int| 0 <= j < words.len() ==> chars_fit(#[trigger] words[j], max, cjk),
        max > 0,
    ensures
        wrap_ok(spec_push_words(st, words, k, style, max, cjk), max, cjk),
    decreases k,
{
    if k > 0 {
        lemma_push_words_ok(st, words, k - 1, style, max, cjk);
        assert(chars_fit(words[k - 1], max, cjk));
        lemma_push_chunk_ok(spec_push_words(st, words, k - 1, style, max, cjk), words[k - 1], style, max, cjk);
    }
}

proof fn lemma_split_fit(s: Seq<char>, sep: char, max: nat, cjk: bool)
    requires
        chars_fit(s, max, cjk),
    ensures
        forall|j: int| 0 <= j < spec_split(s, sep).len() ==> chars_fit(#[trigger] spec_split(s, sep)[j], max, cjk),
    decreases s.len(),
{
    if s.len() > 0 {
        let d = s.drop_last();
        assert forall|i: int| 0 <= i < d.len() implies #[trigger] spec_char_width(d[i], cjk) <= max by {
            assert(d[i] == s[i]);
        }
        lemma_split_fit(d, sep, max, cjk);
        crate::text::lemma_split_nonempty(d, sep);
        let r = spec_split(d, sep);
        assert(spec_char_width(s[s.len() - 1], cjk) <= max);
        if s.last() != sep {
            let nl = r.last().push(s.last());
            assert(chars_fit(r[r.len() - 1], max, cjk));
            assert forall|i: int| 0 <= i < nl.len() implies #[trigger] spec_char_width(nl[i], cjk) <= max by {
                if i < nl.len() - 1 {
                    assert(nl[i] == r.last()[i]);
                }
            }
            assert forall|j: int| 0 <= j < r.update(r.len() - 1, nl).len() implies chars_fit(#[trigger] r.update(r.len() - 1, nl)[j], max, cjk) by {
                if j < r.len() - 1 {
                    assert(r.update(r.len() - 1, nl)[j] == r[j]);
                }
            }
        } else {
            assert forall|j: int| 0 <= j < r.push(Seq::<char>::empty()).len() implies chars_fit(#[trigger] r.push(Seq::<char>::empty())[j], max, cjk) by {
                if j < r.len() {
                    assert(r.push(Seq::<char>::empty())[j] == r[j]);
                }
            }
        }
    }
}

proof fn lemma_split_words_fit(s: Seq<char>, max: nat, cjk: bool)
    requires
        chars_fit(s, max, cjk),
    ensures
        forall|j: int| 0 <= j < spec_split_words(s).len() ==> chars_fit(#[trigger] spec_split_words(s)[j], max, cjk),
    decreases s.len(),
{
    if s.len() > 0 {
        let d = s.drop_last();
        assert forall|i: int| 0 <= i < d.len() implies #[trigger] spec_char_width(d[i], cjk) <= max by {
            assert(d[i] == s[i]);
        }
        lemma_split_words_fit(d, max, cjk);
        let r = spec_split_words(d);
        assert(spec_char_width(s[s.len() - 1], cjk) <= max);
        if r.len() == 0 || r.last().last() == ' ' {
            assert forall|j: int| 0 <= j < r.push(seq![s.last()]).len() implies chars_fit(#[trigger] r.push(seq![s.last()])[j], max, cjk) by {
                if j < r.len() {
                    assert(r.push(seq![s.last()])[j] == r[j]);
                }
            }
        } else {
            let nl = r.last().push(s.last());
            assert(chars_fit(r[r.len() - 1], max, cjk));
            assert forall|i: int| 0 <= i < nl.len() implies #[trigger] spec_char_width(nl[i], cjk) <= max by {
                if i < nl.len() - 1 {
                    assert(nl[i] == r.last()[i]);
                }
            }
            assert forall|j: int| 0 <= j < r.update(r.len() - 1, nl).len() implies chars_fit(#[trigger] r.update(r.len() - 1, nl)[j], max, cjk) by {
                if j < r.len() - 1 {
                    assert(r.update(r.len() - 1, nl)[j] == r[j]);
                }
            }
        }
    }
}

proof fn lemma_push_segs_ok(st: WrapState, segs: Seq<Seq<char>>, k: int, style: SpanStyle, max: nat, cjk: bool)
    requires
        wrap_ok(st, max, cjk),
        0 <= k <= segs.len(),
        forall|j: int| 0 <= j < segs.len() ==> chars_fit(#[trigger] segs[j], max, cjk),
        max > 0,
    ensures
        wrap_ok(spec_push_segs(st, segs, k, style, max, cjk), max, cjk),
    decreases k,
{
    if k > 0 {
        lemma_push_segs_ok(st, segs, k - 1, style, max, cjk);
        let s0 = spec_push_segs(st, segs, k - 1, style, max, cjk);
        let seg = segs[k - 1];
        if seg.len() == 0 && s0.cur.len() == 0 {
            lemma_empty_line_width(cjk);
            let s1 = WrapState { lines: s0.lines.push(Seq::empty()), ..s0 };
            assert forall|i: int| 0 <= i < s1.lines.len() implies crate::renderer::line_width(#[trigger] s1.lines[i], cjk) <= max by {
                if i < s0.lines.len() {
                    assert(s1.lines[i] == s0.lines[i]);
                }
            }
        } else {
            let words = spec_split_words(seg);
            assert(chars_fit(seg, max, cjk));
            lemma_split_words_fit(seg, max, cjk);
            lemma_push_words_ok(s0, words, words.len() as int, style, max, cjk);
            lemma_wrap_break_ok(spec_push_words(s0, words, words.len() as int, style, max, cjk), max, cjk);
        }
    }
}

proof fn lemma_push_spans_ok(st: WrapState, spans: Seq<SpanV>, max: nat, cjk: bool)
    requires
        wrap_ok(st, max, cjk),
        forall|j: int| 0 <= j < spans.len() ==> chars_fit(#[trigger] spans[j].content, max, cjk),
        max > 0,
    ensures
        wrap_ok(spec_push_spans(st, spans, max, cjk), max, cjk),
    decreases spans.len(),
{
    if spans.len() > 0 {
        let d = spans.drop_last();
        assert forall|j: int| 0 <= j < d.len() implies chars_fit(#[trigger] d[j].content, max, cjk) by {
            assert(d[j] == spans[j]);
        }
        lemma_push_spans_ok(st, d, max, cjk);
        let last = spans.last();
        assert(chars_fit(spans[spans.len() - 1].content, max, cjk));
        lemma_split_fit(last.content, '\n', max, cjk);
        let segs = spec_split(last.content, '\n');
        lemma_push_segs_ok(spec_push_spans(st, d, max, cjk), segs, segs.len() as int, last.style, max, cjk);
    }
}

/// Every line that soft wrapping produces is at most `max` columns wide, where no single
/// character is wider than `max` (a wider character is placed alone on a line, and a width
/// of zero turns wrapping off).
pub proof fn law_wrapped_lines_fit(spans: Seq<SpanV>, max: nat, cjk: bool)
    requires
        max > 0,
        forall|j: int| 0 <= j < spans.len() ==> chars_fit(#[trigger] spans[j].content, max, cjk),
    ensures
        forall|i: int| 0 <= i < spec_soft_wrap(spans, max, cjk).len()
            ==> crate::renderer::line_width(#[trigger] spec_soft_wrap(spans, max, cjk)[i], cjk) <= max,
{
    lemma_empty_line_width(cjk);
    assert(wrap_ok(wrap_start(), max, cjk));
    lemma_push_spans_ok(wrap_start(), spans, max, cjk);
    let st = spec_push_spans(wrap_start(), spans, max, cjk);
    let lines = if st.cur.len() > 0 {
        st.lines.push(st.cur)
    } else {
        st.lines
    };
    assert forall|i: int| 0 <= i < lines.len() implies crate::renderer::line_width(#[trigger] lines[i], cjk) <= max by {
        if i < st.lines.len() {
            assert(lines[i] == st.lines[i]);
        }
    }
}

} // verus!
