//! Code blocks: syntax highlighting and the bordered box around the code.
use crate::parser::{lemma_views_push, views};
use crate::renderer::{
    display_width, CodeStyle, SpanStyle, SpanV, StyledLine, StyledSpan, CODE_BLOCK_BOTTOM_LEFT,
    CODE_BLOCK_BOTTOM_RIGHT, CODE_BLOCK_LEFT_BORDER, CODE_BLOCK_RIGHT_BORDER,
    CODE_BLOCK_SPACE_BEFORE_DASHES, CODE_BLOCK_TOP_LEFT, CODE_BLOCK_TOP_RIGHT,
};
use crate::renderer::measure::{code_chars, code_lines, sat_add, sat_inc, spec_code_rows};
use crate::text::{
    chars_of, lemma_split_nonempty, push_char, push_str, repeat_str, spec_repeat, spec_split, string_of,
    string_of_range,
};
use crate::width::{char_width, lemma_width_bound, spec_char_width, spec_str_width};
use syntect::easy::HighlightLines;
use syntect::highlighting::{FontStyle, Theme, ThemeSet};
use syntect::parsing::{SyntaxReference, SyntaxSet};
use vstd::prelude::*;

verus! {

#[verifier::external_type_specification]
#[verifier::external_body]
pub struct ExSyntaxSet(SyntaxSet);

#[verifier::external_type_specification]
#[verifier::external_body]
pub struct ExTheme(Theme);

#[verifier::external_type_specification]
#[verifier::external_body]
pub struct ExSyntaxReference(SyntaxReference);

#[verifier::external_type_specification]
#[verifier::external_body]
pub struct ExHighlightLines<'a>(HighlightLines<'a>);

/// The theme code is highlighted with.
pub const CODE_THEME: &'static str = "base16-ocean.dark";

/// A run of highlighted code.
#[derive(Clone, Debug)]
pub struct CodeRegion {
    pub style: CodeStyle,
    pub text: String,
}

pub struct RegionV {
    pub style: CodeStyle,
    pub text: Seq<char>,
}

impl View for CodeRegion {
    type V = RegionV;

    open spec fn view(&self) -> RegionV {
        RegionV { style: self.style, text: self.text@ }
    }
}

/// syntect's default syntaxes and the code theme, loaded once.
pub struct CodeHighlighter {
    syntaxes: SyntaxSet,
    theme: Theme,
}

/// Calls `SyntaxSet::load_defaults_newlines`, which loads syntect's bundled syntaxes.
#[verifier::external_body]
fn load_syntaxes() -> SyntaxSet {
    SyntaxSet::load_defaults_newlines()
}

/// Calls `ThemeSet::load_defaults` and takes theme `name` out of the bundled set, which
/// holds the code theme (indexing the set by a name it lacks would panic).
#[verifier::external_body]
fn load_bundled_theme(name: &str) -> Theme
    requires
        name@ == CODE_THEME@,
{
    ThemeSet::load_defaults().themes[name].clone()
}

/// Calls `SyntaxSet::find_syntax_by_token` on the bundled syntaxes: the syntax a
/// language name or file extension names, if any.
#[verifier::external_body]
fn find_syntax<'a>(h: &'a CodeHighlighter, token: &str) -> Option<&'a SyntaxReference> {
    h.syntaxes.find_syntax_by_token(token)
}

/// Calls `SyntaxSet::find_syntax_plain_text` on the bundled syntaxes, which hold it.
#[verifier::external_body]
fn plain_text_syntax<'a>(h: &'a CodeHighlighter) -> &'a SyntaxReference {
    h.syntaxes.find_syntax_plain_text()
}

/// Calls `HighlightLines::new` with `syntax` and the code theme.
#[verifier::external_body]
fn start_lines<'a>(h: &'a CodeHighlighter, syntax: &'a SyntaxReference) -> HighlightLines<'a> {
    HighlightLines::new(syntax, &h.theme)
}

/// A highlighter going through one block of code a line at a time: syntect's line
/// highlighter, started for `language`, and the text given to it so far.
pub struct LineHighlighter<'a> {
    lines: HighlightLines<'a>,
    owner: &'a CodeHighlighter,
    language: String,
    given: String,
}

impl<'a> LineHighlighter<'a> {
    /// The language the highlighter was started for.
    pub closed spec fn language(&self) -> Seq<char> {
        self.language@
    }

    /// The text given to the highlighter so far.
    pub closed spec fn given(&self) -> Seq<char> {
        self.given@
    }

    /// A highlighter for `language`: the syntax that names it, else plain text.
    pub fn new(h: &'a CodeHighlighter, language: &str) -> (l: LineHighlighter<'a>)
        ensures
            l.language() == language@,
            l.given() == Seq::<char>::empty(),
    {
        let syntax = match find_syntax(h, language) {
            Some(s) => s,
            None => plain_text_syntax(h),
        };
        let mut name = String::new();
        push_str(&mut name, language);
        LineHighlighter { lines: start_lines(h, syntax), owner: h, language: name, given: String::new() }
    }
}

/// What syntect's `HighlightLines::highlight_line` gives for the whole line `line` when
/// started for `language` (bundled syntaxes, code theme) and given the whole lines of
/// `before` first, one call per line: the pieces, or `None` where it fails.
pub uninterp spec fn syntect_line(language: Seq<char>, before: Seq<char>, line: Seq<char>) -> Option<Seq<RegionV>>;

/// The texts of regions, one after another.
pub open spec fn joined(rs: Seq<RegionV>) -> Seq<char>
    decreases rs.len(),
{
    if rs.len() == 0 {
        Seq::empty()
    } else {
        joined(rs.drop_last()) + rs.last().text
    }
}

/// Calls `HighlightLines::highlight_line` on the next line of a block and keeps the line
/// among those given. The highlighter carries its parse state from call to call, so it is
/// only ever given whole lines: what came before is empty or ends in a line break, and
/// `line` has a break at most at its end. A highlighter started the same way and given
/// the same lines before highlights a line the same way, so the result is named by the
/// language, the lines before and the line. Where it succeeds, the pieces (each keeping
/// the foreground colour, bold and italic) are the ranges of the line one after another,
/// so they make up the line.
#[verifier::external_body]
fn highlight_next(l: &mut LineHighlighter, line: &str) -> (r: Option<Vec<CodeRegion>>)
    requires
        old(l).given().len() == 0 || old(l).given().last() == '\n',
        forall|j: int| 0 <= j < line@.len() - 1 ==> line@[j] != '\n',
    ensures
        r matches Some(v) ==> syntect_line(old(l).language(), old(l).given(), line@) == Some(views(v@)),
        r is None ==> syntect_line(old(l).language(), old(l).given(), line@) is None,
        r matches Some(v) ==> joined(views(v@)) == line@,
        final(l).language() == old(l).language(),
        final(l).given() == old(l).given() + line@,
{
    let r = l.lines.highlight_line(line, &l.owner.syntaxes);
    l.given.push_str(line);
    let pieces = r.ok()?;
    Some(pieces.into_iter().map(|(s, t)| CodeRegion {
        style: CodeStyle { r: s.foreground.r, g: s.foreground.g, b: s.foreground.b, bold: s.font_style.contains(FontStyle::BOLD), italic: s.font_style.contains(FontStyle::ITALIC) },
        text: t.to_string(),
    }).collect())
}

/// One past the first line break at or after `i` in `code`, or its end.
pub open spec fn line_end(code: Seq<char>, i: int) -> int
    decreases code.len() - i,
{
    if i >= code.len() {
        code.len() as int
    } else if code[i] == '\n' {
        i + 1
    } else {
        line_end(code, i + 1)
    }
}

pub proof fn lemma_line_end(code: Seq<char>, i: int)
    requires
        0 <= i < code.len(),
    ensures
        i < line_end(code, i) <= code.len(),
    decreases code.len() - i,
{
    if code[i] != '\n' {
        if i + 1 < code.len() {
            lemma_line_end(code, i + 1);
        } else {
            assert(line_end(code, i + 1) == code.len());
        }
    }
}

/// The lines of `code` from character `i` on, each with its line break, as syntect's
/// `LinesWithEndings` gives them.
pub open spec fn lines_from(code: Seq<char>, i: int) -> Seq<Seq<char>>
    decreases code.len() - i,
{
    if i < 0 || i >= code.len() {
        Seq::empty()
    } else {
        proof {
            lemma_line_end(code, i);
        }
        seq![code.subrange(i, line_end(code, i))] + lines_from(code, line_end(code, i))
    }
}

/// Where the line from `i` ends: at the end of `code`, or just past a line break.
proof fn lemma_line_end_break(code: Seq<char>, i: int)
    requires
        0 <= i < code.len(),
    ensures
        line_end(code, i) == code.len() || code[line_end(code, i) - 1] == '\n',
    decreases code.len() - i,
{
    if code[i] != '\n' {
        if i + 1 < code.len() {
            lemma_line_end_break(code, i + 1);
        } else {
            assert(line_end(code, i + 1) == code.len());
        }
    }
}

/// The lines from `i` on are whole lines: each has a break at most at its end, and each
/// but the last ends in one.
proof fn lemma_lines_from_whole(code: Seq<char>, i: int)
    requires
        0 <= i,
    ensures
        forall|k: int, j: int|
            0 <= k < lines_from(code, i).len() && 0 <= j < lines_from(code, i)[k].len() - 1
                ==> #[trigger] lines_from(code, i)[k][j] != '\n',
        forall|k: int|
            0 <= k < lines_from(code, i).len() - 1 ==> #[trigger] lines_from(code, i)[k].len() > 0
                && lines_from(code, i)[k].last() == '\n',
        forall|k: int| 0 <= k < lines_from(code, i).len() ==> #[trigger] lines_from(code, i)[k].len() > 0,
    decreases code.len() - i,
{
    if i < code.len() {
        lemma_line_end(code, i);
        lemma_line_end_no_break(code, i);
        lemma_line_end_break(code, i);
        let e = line_end(code, i);
        let line = code.subrange(i, e);
        lemma_lines_from_whole(code, e);
        let rest = lines_from(code, e);
        let all = lines_from(code, i);
        assert(all == seq![line] + rest);
        assert forall|k: int, j: int| 0 <= k < all.len() && 0 <= j < all[k].len() - 1 implies #[trigger] all[k][j]
            != '\n' by {
            if k == 0 {
                assert(all[0] == line);
                assert(line[j] == code[i + j]);
            } else {
                assert(all[k] == rest[k - 1]);
            }
        }
        assert forall|k: int| 0 <= k < all.len() - 1 implies #[trigger] all[k].len() > 0 && all[k].last() == '\n' by {
            if k == 0 {
                assert(all[0] == line);
                assert(rest.len() > 0);
                assert(e < code.len());
                assert(line.last() == code[e - 1]);
            } else {
                assert(all[k] == rest[k - 1]);
            }
        }
        assert forall|k: int| 0 <= k < all.len() implies #[trigger] all[k].len() > 0 by {
            if k == 0 {
                assert(all[0] == line);
            } else {
                assert(all[k] == rest[k - 1]);
            }
        }
    }
}

/// `s` without the line breaks at its end.
pub open spec fn trim_breaks(s: Seq<char>) -> Seq<char>
    decreases s.len(),
{
    if s.len() > 0 && s.last() == '\n' {
        trim_breaks(s.drop_last())
    } else {
        s
    }
}

/// The region a line syntect fails on becomes: the line without its break, in syntect's
/// default style (black, neither bold nor italic).
pub open spec fn fallback_region(line: Seq<char>) -> RegionV {
    RegionV { style: CodeStyle { r: 0, g: 0, b: 0, bold: false, italic: false }, text: trim_breaks(line) }
}

/// The regions of `lines` highlighted one after another for `language`, after `before`.
pub open spec fn regions_of_lines(language: Seq<char>, lines: Seq<Seq<char>>, before: Seq<char>) -> Seq<RegionV>
    decreases lines.len(),
{
    if lines.len() == 0 {
        Seq::empty()
    } else {
        let here = match syntect_line(language, before, lines[0]) {
            Some(v) => v,
            None => seq![fallback_region(lines[0])],
        };
        here + regions_of_lines(language, lines.drop_first(), before + lines[0])
    }
}

/// The highlighted regions of `code` in `language`: each of its lines highlighted in
/// turn by one highlighter, a line it fails on kept plain.
pub open spec fn highlighted_regions(language: Seq<char>, code: Seq<char>) -> Seq<RegionV> {
    regions_of_lines(language, lines_from(code, 0), Seq::empty())
}

/// Past the characters of `v` from `i` to `k`, none a line break, and at `k` a break or
/// the end: the line from `i` ends there.
proof fn lemma_line_end_at(code: Seq<char>, i: int, k: int)
    requires
        0 <= i <= k <= code.len(),
        forall|j: int| i <= j < k ==> code[j] != '\n',
        k == code.len() || code[k] == '\n',
    ensures
        line_end(code, i) == (if k == code.len() { k } else { k + 1 }),
    decreases k - i,
{
    if i < k {
        lemma_line_end_at(code, i + 1, k);
    }
}

/// The lines of `v`, each with its line break.
fn split_lines(v: &Vec<char>) -> (r: Vec<String>)
    ensures
        views(r@) == lines_from(v@, 0),
{
    let mut out: Vec<String> = Vec::new();
    let mut start: usize = 0;
    let mut k: usize = 0;
    let n = v.len();
    assert(views(out@) =~= Seq::<Seq<char>>::empty());
    while k < n
        invariant
            n == v@.len(),
            start <= k <= n,
            forall|j: int| start <= j < k ==> v@[j] != '\n',
            views(out@) + lines_from(v@, start as int) == lines_from(v@, 0),
        decreases n - k,
    {
        if v[k] == '\n' {
            proof {
                lemma_line_end_at(v@, start as int, k as int);
            }
            let line = string_of_range(v, start, k + 1);
            let ghost before = out@;
            out.push(line);
            proof {
                lemma_views_push(before, line);
                assert(lines_from(v@, start as int) =~= seq![v@.subrange(start as int, k + 1)] + lines_from(v@, k + 1));
                assert(views(before) + lines_from(v@, start as int) =~= views(out@) + lines_from(v@, k + 1));
            }
            start = k + 1;
        }
        k = k + 1;
    }
    if start < n {
        proof {
            lemma_line_end_at(v@, start as int, n as int);
        }
        let line = string_of_range(v, start, n);
        let ghost before = out@;
        out.push(line);
        proof {
            lemma_views_push(before, line);
            assert(lines_from(v@, n as int) =~= Seq::<Seq<char>>::empty());
            assert(lines_from(v@, start as int) =~= seq![v@.subrange(start as int, n as int)]);
            assert(views(before) + lines_from(v@, start as int) =~= views(out@));
        }
    } else {
        assert(lines_from(v@, start as int) =~= Seq::<Seq<char>>::empty());
        assert(views(out@) + Seq::<Seq<char>>::empty() =~= views(out@));
    }
    out
}

/// The region for a line syntect failed on.
fn fallback_for(line: &str) -> (r: CodeRegion)
    ensures
        r@ == fallback_region(line@),
{
    let v = chars_of(line);
    let mut end = v.len();
    assert(v@.take(end as int) =~= v@);
    while end > 0 && v[end - 1] == '\n'
        invariant
            end <= v@.len(),
            trim_breaks(v@.take(end as int)) == trim_breaks(v@),
        decreases end,
    {
        assert(v@.take(end as int).drop_last() =~= v@.take(end - 1));
        end = end - 1;
    }
    proof {
        if end == v@.len() {
            assert(v@.take(end as int) =~= v@);
        }
        assert(v@.take(end as int) =~= v@.subrange(0, end as int));
    }
    CodeRegion { style: CodeStyle { r: 0, g: 0, b: 0, bold: false, italic: false }, text: string_of_range(&v, 0, end) }
}

impl CodeHighlighter {
    /// Loads the bundled syntaxes and the code theme. This is the only way to make a
    /// highlighter, and every one holds the same bundled syntaxes and theme, which is why
    /// what highlighting gives ([`syntect_line`]) need not name the highlighter; nothing is
    /// stated of what the loaded syntaxes and theme hold.
    pub fn new() -> CodeHighlighter {
        CodeHighlighter { syntaxes: load_syntaxes(), theme: load_bundled_theme(CODE_THEME) }
    }

    /// The highlighted regions of `code` in `language`: its lines highlighted in turn, a
    /// line syntect fails on kept as one plain region without its line break.
    pub fn highlight(&self, language: &str, code: &str) -> (r: Vec<CodeRegion>)
        ensures
            views(r@) == highlighted_regions(language@, code@),
            lines_succeed(language@, lines_from(code@, 0), Seq::empty()) ==> lines_highlighted(language@, code@),
            lines_succeed(language@, lines_from(code@, 0), Seq::empty()) ==> pieces_make_up(views(r@), code@),
    {
        let lines = split_lines(&chars_of(code));
        let mut hl = LineHighlighter::new(self, language);
        let mut out: Vec<CodeRegion> = Vec::new();
        let ghost all = views(lines@);
        let ghost mut ok = true;
        proof {
            lemma_lines_from_whole(code@, 0);
        }
        let mut i: usize = 0;
        assert(all.skip(0) =~= all);
        assert(views(out@) =~= Seq::<RegionV>::empty());
        while i < lines.len()
            invariant
                i <= lines@.len(),
                all == views(lines@),
                all == lines_from(code@, 0),
                hl.language() == language@,
                views(out@) + regions_of_lines(language@, all.skip(i as int), hl.given()) == highlighted_regions(language@, code@),
                lines_succeed(language@, all, Seq::empty()) ==> ok && lines_succeed(language@, all.skip(i as int), hl.given()),
                i < all.len() ==> hl.given().len() == 0 || hl.given().last() == '\n',
                forall|k: int| 0 <= k < all.len() ==> #[trigger] all[k].len() > 0,
                forall|k: int, j: int| 0 <= k < all.len() && 0 <= j < all[k].len() - 1 ==> #[trigger] all[k][j] != '\n',
                forall|k: int| 0 <= k < all.len() - 1 ==> #[trigger] all[k].len() > 0 && all[k].last() == '\n',
                ok ==> (lines_taken(language@, all.skip(i as int), hl.given()) ==> lines_taken(language@, all, Seq::empty())),
            decreases lines@.len() - i,
        {
            let ghost fed = hl.given();
            let ghost out0 = views(out@);
            let line = lines[i].as_str();
            assert(all.skip(i as int)[0] == line@);
            assert(all.skip(i as int).drop_first() =~= all.skip(i + 1));
            let r = highlight_next(&mut hl, line);
            proof {
                if r is None {
                    ok = false;
                }
            }
            match r {
                Some(v) => {
                    let mut k: usize = 0;
                    while k < v.len()
                        invariant
                            k <= v@.len(),
                            views(out@) == out0 + views(v@).take(k as int),
                        decreases v@.len() - k,
                    {
                        let ghost o = out@;
                        out.push(v[k].clone_region());
                        proof {
                            lemma_views_push(o, out@.last());
                            assert(views(v@).take(k + 1) =~= views(v@).take(k as int).push(v@[k as int]@));
                        }
                        k = k + 1;
                    }
                    assert(views(v@).take(v@.len() as int) =~= views(v@));
                    assert(out0 + views(v@) + regions_of_lines(language@, all.skip(i + 1), fed + line@)
                        =~= out0 + (views(v@) + regions_of_lines(language@, all.skip(i + 1), fed + line@)));
                },
                None => {
                    let ghost o = out@;
                    let f = fallback_for(line);
                    out.push(f);
                    proof {
                        lemma_views_push(o, f);
                        assert(out0 + seq![fallback_region(line@)] + regions_of_lines(language@, all.skip(i + 1), fed + line@)
                            =~= out0 + (seq![fallback_region(line@)] + regions_of_lines(language@, all.skip(i + 1), fed + line@)));
                    }
                },
            }
            i = i + 1;
        }
        assert(all.skip(i as int) =~= Seq::<Seq<char>>::empty());
        assert(views(out@) + Seq::<RegionV>::empty() =~= views(out@));
        proof {
            if lines_succeed(language@, all, Seq::empty()) {
                law_highlighted_lines_make_up_code(language@, code@);
            }
        }
        out
    }
}

impl CodeRegion {
    /// A copy of the region.
    pub fn clone_region(&self) -> (r: CodeRegion)
        ensures
            r@ == self@,
    {
        let v = chars_of(self.text.as_str());
        CodeRegion { style: self.style, text: string_of(&v) }
    }
}

// ---------------------------------------------------------------------------
// Laying the regions out in a box
// ---------------------------------------------------------------------------

/// Lines done so far, the spans of the current line, and the columns it holds.
pub struct CodeState {
    pub lines: Seq<Seq<SpanV>>,
    pub cur: Seq<SpanV>,
    pub w: nat,
}

pub open spec fn border_span(s: Seq<char>) -> SpanV {
    SpanV { content: s, style: SpanStyle::CodeBlockBorder }
}

/// A fresh line inside the box: just the left border.
pub open spec fn fresh_code_line() -> Seq<SpanV> {
    seq![border_span(CODE_BLOCK_LEFT_BORDER@)]
}

/// Ends the current line: spaces up to `maxc` columns, the right border; starts a fresh one.
pub open spec fn close_code_line(st: CodeState, maxc: nat) -> CodeState {
    let pad: nat = if maxc > st.w {
        (maxc - st.w) as nat
    } else {
        0
    };
    let cur = if pad > 0 {
        st.cur.push(SpanV { content: spec_repeat(seq![' '], pad), style: SpanStyle::Plain })
    } else {
        st.cur
    };
    CodeState {
        lines: st.lines.push(cur.push(border_span(CODE_BLOCK_RIGHT_BORDER@))),
        cur: fresh_code_line(),
        w: 0,
    }
}

/// `cur` with `chunk` appended as a span, unless it is empty.
pub open spec fn flush_chunk(cur: Seq<SpanV>, chunk: Seq<char>, s: SpanStyle) -> Seq<SpanV> {
    if chunk.len() > 0 {
        cur.push(SpanV { content: chunk, style: s })
    } else {
        cur
    }
}

/// Places one character, wrapping to a new line when it does not fit in `maxc` columns.
pub open spec fn code_char(st: CodeState, chunk: Seq<char>, c: char, s: SpanStyle, maxc: nat, cjk: bool) -> (CodeState, Seq<char>) {
    let cw = spec_char_width(c, cjk);
    if st.w + cw > maxc {
        let closed = close_code_line(
            CodeState { lines: st.lines, cur: flush_chunk(st.cur, chunk, s), w: st.w },
            maxc,
        );
        (CodeState { lines: closed.lines, cur: closed.cur, w: cw }, seq![c])
    } else {
        (CodeState { lines: st.lines, cur: st.cur, w: st.w + cw }, chunk.push(c))
    }
}

pub open spec fn code_text(st: CodeState, chunk: Seq<char>, t: Seq<char>, s: SpanStyle, maxc: nat, cjk: bool) -> (CodeState, Seq<char>)
    decreases t.len(),
{
    if t.len() == 0 {
        (st, chunk)
    } else {
        let p = code_text(st, chunk, t.drop_last(), s, maxc, cjk);
        code_char(p.0, p.1, t.last(), s, maxc, cjk)
    }
}

/// `t` without its trailing line breaks.
pub open spec fn trim_newlines(t: Seq<char>) -> Seq<char>
    decreases t.len(),
{
    if t.len() > 0 && t.last() == '\n' {
        trim_newlines(t.drop_last())
    } else {
        t
    }
}

/// Places one region: its text without trailing line breaks, then a line end if it had one.
pub open spec fn code_region(st: CodeState, r: RegionV, maxc: nat, cjk: bool) -> CodeState {
    let t = trim_newlines(r.text);
    let s = SpanStyle::Code(r.style);
    let placed = if t.len() > 0 {
        let p = code_text(st, Seq::empty(), t, s, maxc, cjk);
        CodeState { lines: p.0.lines, cur: flush_chunk(p.0.cur, p.1, s), w: p.0.w }
    } else {
        st
    };
    if r.text.len() > 0 && r.text.last() == '\n' {
        close_code_line(placed, maxc)
    } else {
        placed
    }
}

pub open spec fn code_regions(st: CodeState, rs: Seq<RegionV>, maxc: nat, cjk: bool) -> CodeState
    decreases rs.len(),
{
    if rs.len() == 0 {
        st
    } else {
        code_region(code_regions(st, rs.drop_last(), maxc, cjk), rs.last(), maxc, cjk)
    }
}

/// `a - b`, or 0.
pub open spec fn sat_sub(a: nat, b: nat) -> nat {
    if a >= b {
        (a - b) as nat
    } else {
        0
    }
}

/// The top line of the box: the language label set into the border.
pub open spec fn code_top_line(label: Seq<char>, width: nat, cjk: bool) -> Seq<SpanV> {
    let used = spec_str_width(CODE_BLOCK_TOP_LEFT@, cjk) + spec_str_width(label, cjk)
        + (CODE_BLOCK_SPACE_BEFORE_DASHES as nat) + spec_str_width(CODE_BLOCK_TOP_RIGHT@, cjk);
    seq![
        border_span(CODE_BLOCK_TOP_LEFT@),
        SpanV { content: label, style: SpanStyle::CodeBlockLang },
        border_span(seq![' '] + spec_repeat(seq!['─'], sat_sub(width, used)) + CODE_BLOCK_TOP_RIGHT@),
    ]
}

/// The bottom line of the box.
pub open spec fn code_bottom_line(width: nat, cjk: bool) -> Seq<SpanV> {
    let used = spec_str_width(CODE_BLOCK_BOTTOM_LEFT@, cjk) + spec_str_width(CODE_BLOCK_BOTTOM_RIGHT@, cjk);
    seq![border_span(CODE_BLOCK_BOTTOM_LEFT@ + spec_repeat(seq!['─'], sat_sub(width, used)) + CODE_BLOCK_BOTTOM_RIGHT@)]
}

/// The columns inside the box's side borders.
pub open spec fn code_inner_width(width: nat, cjk: bool) -> nat {
    sat_sub(width, spec_str_width(CODE_BLOCK_LEFT_BORDER@, cjk) + spec_str_width(CODE_BLOCK_RIGHT_BORDER@, cjk))
}

/// The lines of a code block `width` columns wide holding the regions `rs`: the top line,
/// the code wrapped at the inner width (each line padded to it and closed by the right
/// border; a last line without a line break is closed too), the bottom line.
pub open spec fn spec_code_lines(label: Seq<char>, rs: Seq<RegionV>, width: nat, cjk: bool) -> Seq<Seq<SpanV>> {
    let maxc = code_inner_width(width, cjk);
    let body = code_regions(CodeState { lines: Seq::empty(), cur: fresh_code_line(), w: 0 }, rs, maxc, cjk);
    let closed = if body.cur.len() > 1 || body.w > 0 {
        close_code_line(body, maxc).lines
    } else {
        body.lines
    };
    seq![code_top_line(label, width, cjk)] + closed + seq![code_bottom_line(width, cjk)]
}

/// The label of a code block: its language, or `text`.
pub open spec fn code_label(language: Option<Seq<char>>) -> Seq<char> {
    match language {
        Some(l) => l,
        None => "text"@,
    }
}

/// The box state held while regions are placed.
struct CodeBox {
    lines: Vec<StyledLine>,
    cur: Vec<StyledSpan>,
    w: usize,
}

impl CodeBox {
    closed spec fn state(&self) -> CodeState {
        CodeState { lines: views(self.lines@), cur: views(self.cur@), w: self.w as nat }
    }
}

fn border(s: &str) -> (sp: StyledSpan)
    ensures
        sp@ == border_span(s@),
{
    let mut content = String::new();
    push_str(&mut content, s);
    StyledSpan { content, style: SpanStyle::CodeBlockBorder }
}

fn fresh_line() -> (v: Vec<StyledSpan>)
    ensures
        views(v@) == fresh_code_line(),
{
    let mut v = Vec::new();
    v.push(border(CODE_BLOCK_LEFT_BORDER));
    assert(views(v@) =~= fresh_code_line());
    v
}

fn close_line(b: &mut CodeBox, maxc: usize)
    ensures
        final(b).state() == close_code_line(old(b).state(), maxc as nat),
{
    let pad = maxc.saturating_sub(b.w);
    let mut cur = fresh_line();
    std::mem::swap(&mut cur, &mut b.cur);
    let ghost before = cur@;
    if pad > 0 {
        proof {
            reveal_strlit(" ");
            assert(" "@ =~= seq![' ']);
        }
        let sp = StyledSpan { content: repeat_str(" ", pad), style: SpanStyle::Plain };
        proof {
            lemma_views_push(cur@, sp);
        }
        cur.push(sp);
    }
    let r = border(CODE_BLOCK_RIGHT_BORDER);
    proof {
        lemma_views_push(cur@, r);
    }
    cur.push(r);
    let line = StyledLine { spans: cur };
    proof {
        lemma_views_push(b.lines@, line);
    }
    b.lines.push(line);
    b.w = 0;
}

fn flush(b: &mut CodeBox, chunk: String, s: SpanStyle)
    ensures
        final(b).state() == (CodeState {
            lines: old(b).state().lines,
            cur: flush_chunk(old(b).state().cur, chunk@, s),
            w: old(b).state().w,
        }),
{
    if !chunk.as_str().is_empty() {
        let sp = StyledSpan { content: chunk, style: s };
        proof {
            lemma_views_push(b.cur@, sp);
        }
        b.cur.push(sp);
    } else {
        proof {
            assert(chunk@.len() == 0);
        }
    }
}

/// Places the characters of `t`, starting a new line where one does not fit.
fn place_text(b: &mut CodeBox, t: &Vec<char>, end: usize, s: SpanStyle, maxc: usize, cjk: bool)
    requires
        end <= t@.len(),
        old(b).state().w <= maxc + 3,
    ensures
        ({
            let p = code_text(old(b).state(), Seq::empty(), t@.take(end as int), s, maxc as nat, cjk);
            final(b).state() == (CodeState { lines: p.0.lines, cur: flush_chunk(p.0.cur, p.1, s), w: p.0.w })
        }),
        final(b).state().w <= maxc + 3,
{
    let ghost st0 = b.state();
    let mut chunk = String::new();
    let mut k: usize = 0;
    while k < end
        invariant
            k <= end <= t@.len(),
            b.w <= maxc + 3,
            (b.state(), chunk@) == code_text(st0, Seq::empty(), t@.take(k as int), s, maxc as nat, cjk),
        decreases end - k,
    {
        assert(t@.take(k + 1).drop_last() =~= t@.take(k as int));
        let c = t[k];
        let cw = char_width(c, cjk);
        if b.w > maxc || cw > maxc - b.w {
            let mut done = String::new();
            std::mem::swap(&mut done, &mut chunk);
            flush(b, done, s);
            close_line(b, maxc);
            push_char(&mut chunk, c);
            assert(chunk@ =~= seq![c]);
            b.w = cw;
        } else {
            push_char(&mut chunk, c);
            b.w = b.w + cw;
        }
        k = k + 1;
    }
    flush(b, chunk, s);
}

/// The number of characters of `t` left after dropping its trailing line breaks.
fn trimmed_len(t: &Vec<char>) -> (n: usize)
    ensures
        n <= t@.len(),
        t@.take(n as int) == trim_newlines(t@),
{
    let mut n = t.len();
    assert(t@.take(n as int) =~= t@);
    while n > 0 && t[n - 1] == '\n'
        invariant
            n <= t@.len(),
            trim_newlines(t@.take(n as int)) == trim_newlines(t@),
        decreases n,
    {
        assert(t@.take(n as int).drop_last() =~= t@.take(n - 1));
        n = n - 1;
    }
    n
}

/// Appends a code block, holding the highlighted regions `regions`, to `lines`.
#[verifier::rlimit(30)]
pub fn render_code_regions(
    lines: &mut Vec<StyledLine>,
    label: &str,
    regions: &Vec<CodeRegion>,
    width: usize,
    cjk: bool,
)
    requires
        spec_str_width(label@, cjk) <= usize::MAX - 16,
    ensures
        views(final(lines)@) == views(old(lines)@) + spec_code_lines(label@, views(regions@), width as nat, cjk),
{
    proof {
        reveal_strlit("╭─ ");
        reveal_strlit("╮");
        reveal_strlit("│ ");
        reveal_strlit("│");
        reveal_strlit("╰─");
        reveal_strlit("┘");
        reveal_strlit("─");
        reveal_strlit(" ");
        lemma_width_bound(CODE_BLOCK_TOP_LEFT@, cjk);
        lemma_width_bound(CODE_BLOCK_TOP_RIGHT@, cjk);
        lemma_width_bound(CODE_BLOCK_LEFT_BORDER@, cjk);
        lemma_width_bound(CODE_BLOCK_RIGHT_BORDER@, cjk);
        lemma_width_bound(CODE_BLOCK_BOTTOM_LEFT@, cjk);
        lemma_width_bound(CODE_BLOCK_BOTTOM_RIGHT@, cjk);
        assert("─"@ =~= seq!['─']);
        assert(" "@ =~= seq![' ']);
    }
    let ghost start = views(lines@);
    let label_width = display_width(label, cjk);
    let top_border_width = display_width(CODE_BLOCK_TOP_LEFT, cjk) + label_width
        + CODE_BLOCK_SPACE_BEFORE_DASHES + display_width(CODE_BLOCK_TOP_RIGHT, cjk);
    let top_right = repeat_str("─", width.saturating_sub(top_border_width));
    let mut tail = String::new();
    push_char(&mut tail, ' ');
    push_str(&mut tail, top_right.as_str());
    push_str(&mut tail, CODE_BLOCK_TOP_RIGHT);
    let mut top: Vec<StyledSpan> = Vec::new();
    top.push(border(CODE_BLOCK_TOP_LEFT));
    let mut label_text = String::new();
    push_str(&mut label_text, label);
    top.push(StyledSpan { content: label_text, style: SpanStyle::CodeBlockLang });
    top.push(border(tail.as_str()));
    let top_line = StyledLine { spans: top };
    assert(top_line@ =~= code_top_line(label@, width as nat, cjk));
    proof {
        lemma_views_push(lines@, top_line);
    }
    lines.push(top_line);
    let ghost after_top = views(lines@);
    let maxc = width.saturating_sub(display_width(CODE_BLOCK_LEFT_BORDER, cjk) + display_width(CODE_BLOCK_RIGHT_BORDER, cjk));
    let mut b = CodeBox { lines: Vec::new(), cur: fresh_line(), w: 0 };
    assert(views(b.lines@) =~= Seq::<Seq<SpanV>>::empty());
    let ghost st0 = b.state();
    let ghost rs = views(regions@);
    let mut i: usize = 0;
    while i < regions.len()
        invariant
            i <= regions@.len(),
            rs == views(regions@),
            b.w <= maxc + 3,
            b.state() == code_regions(st0, rs.take(i as int), maxc as nat, cjk),
        decreases regions@.len() - i,
    {
        assert(rs.take(i + 1).drop_last() =~= rs.take(i as int));
        let region = &regions[i];
        let text = chars_of(region.text.as_str());
        let n = trimmed_len(&text);
        let s = SpanStyle::Code(region.style);
        if n > 0 {
            place_text(&mut b, &text, n, s, maxc, cjk);
        }
        if text.len() > 0 && text[text.len() - 1] == '\n' {
            close_line(&mut b, maxc);
        }
        i = i + 1;
    }
    assert(rs.take(regions@.len() as int) =~= rs);
    if b.cur.len() > 1 || b.w > 0 {
        close_line(&mut b, maxc);
    }
    let ghost body = views(b.lines@);
    lines.append(&mut b.lines);
    let bot = repeat_str("─", width.saturating_sub(display_width(CODE_BLOCK_BOTTOM_LEFT, cjk) + display_width(CODE_BLOCK_BOTTOM_RIGHT, cjk)));
    let mut bottom = String::new();
    push_str(&mut bottom, CODE_BLOCK_BOTTOM_LEFT);
    push_str(&mut bottom, bot.as_str());
    push_str(&mut bottom, CODE_BLOCK_BOTTOM_RIGHT);
    let mut spans: Vec<StyledSpan> = Vec::new();
    spans.push(border(bottom.as_str()));
    let bottom_line = StyledLine { spans };
    assert(bottom_line@ =~= code_bottom_line(width as nat, cjk));
    proof {
        lemma_views_push(lines@, bottom_line);
    }
    lines.push(bottom_line);
    assert(views(lines@) =~= start + spec_code_lines(label@, rs, width as nat, cjk));
}

/// Appends a code block for `code` in `language` (labelled `text` when there is none),
/// highlighted by `highlighter`, to `lines`.
pub fn render_code_block(
    lines: &mut Vec<StyledLine>,
    language: &Option<String>,
    code: &String,
    width: usize,
    highlighter: &CodeHighlighter,
    cjk: bool,
)
    requires
        spec_str_width(code_label(crate::parser::opt_view(*language)), cjk) <= usize::MAX - 16,
    ensures
        views(final(lines)@) == views(old(lines)@) + spec_code_lines(
            code_label(crate::parser::opt_view(*language)),
            highlighted_regions(code_label(crate::parser::opt_view(*language)), code@),
            width as nat,
            cjk,
        ),
{
    proof {
        reveal_strlit("text");
    }
    let label: &str = match language {
        Some(l) => l.as_str(),
        None => "text",
    };
    let regions = highlighter.highlight(label, code.as_str());
    render_code_regions(lines, label, &regions, width, cjk);
}


// ---------------------------------------------------------------------------
// The rows of a code block, counted on its text and on its regions
// ---------------------------------------------------------------------------

/// No region's text holds a line break but as its last character.
pub open spec fn breaks_end_pieces(rs: Seq<RegionV>) -> bool {
    forall|i: int, j: int|
        0 <= i < rs.len() && 0 <= j < rs[i].text.len() - 1 ==> #[trigger] rs[i].text[j] != '\n'
}

/// The regions make up `code`, each line break ending a region, as the pieces of
/// highlighted lines do.
pub open spec fn pieces_make_up(rs: Seq<RegionV>, code: Seq<char>) -> bool {
    joined(rs) == code && breaks_end_pieces(rs)
}

/// Rows so far and the columns of the last, after one more character at `maxc` columns.
pub open spec fn wrap_step(st: (nat, nat), c: char, maxc: nat, cjk: bool) -> (nat, nat) {
    let cw = spec_char_width(c, cjk);
    if st.1 + cw > maxc {
        (st.0 + 1, cw)
    } else {
        (st.0, st.1 + cw)
    }
}

/// [`wrap_step`] over the characters of `s`.
pub open spec fn wrap_fold(st: (nat, nat), s: Seq<char>, maxc: nat, cjk: bool) -> (nat, nat)
    decreases s.len(),
{
    if s.len() == 0 {
        st
    } else {
        wrap_step(wrap_fold(st, s.drop_last(), maxc, cjk), s.last(), maxc, cjk)
    }
}

/// Rows and columns after the characters of `s`, a line break starting a new row.
pub open spec fn row_fold(st: (nat, nat), s: Seq<char>, maxc: nat, cjk: bool) -> (nat, nat)
    decreases s.len(),
{
    if s.len() == 0 {
        st
    } else {
        let p = row_fold(st, s.drop_last(), maxc, cjk);
        if s.last() == '\n' {
            (p.0 + 1, 0)
        } else {
            wrap_step(p, s.last(), maxc, cjk)
        }
    }
}

/// Rows of the first `k` of `lines`, each line starting a row, counted without a cap.
pub open spec fn lines_fold(count: nat, lines: Seq<Seq<char>>, k: int, maxc: nat, cjk: bool) -> nat
    decreases k,
{
    if k <= 0 {
        count
    } else {
        wrap_fold((lines_fold(count, lines, k - 1, maxc, cjk), 0), lines[k - 1], maxc, cjk).0 + 1
    }
}

/// `t`, or `usize::MAX` where it is larger.
pub open spec fn capped(t: nat) -> nat {
    if t <= usize::MAX {
        t
    } else {
        usize::MAX as nat
    }
}

proof fn lemma_code_chars_capped(a: nat, w: nat, s: Seq<char>, maxc: nat, cjk: bool)
    ensures
        code_chars((capped(a), w), s, maxc, cjk) == (
            capped(wrap_fold((a, w), s, maxc, cjk).0),
            wrap_fold((a, w), s, maxc, cjk).1,
        ),
    decreases s.len(),
{
    if s.len() > 0 {
        lemma_code_chars_capped(a, w, s.drop_last(), maxc, cjk);
    }
}

proof fn lemma_code_lines_capped(c: nat, lines: Seq<Seq<char>>, k: int, maxc: nat, cjk: bool)
    ensures
        code_lines(capped(c), lines, k, maxc, cjk) == capped(lines_fold(c, lines, k, maxc, cjk)),
    decreases k,
{
    if k > 0 {
        lemma_code_lines_capped(c, lines, k - 1, maxc, cjk);
        lemma_code_chars_capped(lines_fold(c, lines, k - 1, maxc, cjk), 0, lines[k - 1], maxc, cjk);
    }
}

proof fn lemma_lines_fold_agree(c: nat, a: Seq<Seq<char>>, b: Seq<Seq<char>>, k: int, maxc: nat, cjk: bool)
    requires
        k <= a.len(),
        k <= b.len(),
        forall|j: int| 0 <= j < k ==> a[j] == b[j],
    ensures
        lines_fold(c, a, k, maxc, cjk) == lines_fold(c, b, k, maxc, cjk),
    decreases k,
{
    if k > 0 {
        lemma_lines_fold_agree(c, a, b, k - 1, maxc, cjk);
    }
}

/// Rows counted on the text are rows counted line by line.
proof fn lemma_row_fold_lines(s: Seq<char>, maxc: nat, cjk: bool)
    ensures
        spec_split(s, '\n').len() >= 1,
        row_fold((0, 0), s, maxc, cjk) == wrap_fold(
            (lines_fold(0, spec_split(s, '\n'), spec_split(s, '\n').len() - 1, maxc, cjk), 0),
            spec_split(s, '\n').last(),
            maxc,
            cjk,
        ),
    decreases s.len(),
{
    lemma_split_nonempty(s, '\n');
    if s.len() > 0 {
        let t = s.drop_last();
        lemma_row_fold_lines(t, maxc, cjk);
        let a = spec_split(t, '\n');
        let b = spec_split(s, '\n');
        let k = a.len() - 1;
        lemma_lines_fold_agree(0, a, b, k, maxc, cjk);
        if s.last() == '\n' {
            assert(b == a.push(Seq::<char>::empty()));
            assert(b[k] == a.last());
            assert(wrap_fold((lines_fold(0, b, k + 1, maxc, cjk), 0), Seq::<char>::empty(), maxc, cjk)
                == (lines_fold(0, b, k + 1, maxc, cjk), 0nat));
        } else {
            assert(b.len() == a.len());
            assert(b.last() == a.last().push(s.last()));
            assert(b.last().drop_last() =~= a.last());
        }
    }
}

/// The rows a code block measures: those counted on its text, and one more for a last
/// line without a break.
proof fn lemma_code_rows_counted(code: Seq<char>, maxc: nat, cjk: bool)
    requires
        row_fold((0, 0), code, maxc, cjk).0 + 1 <= usize::MAX,
    ensures
        code.len() == 0 ==> spec_code_rows(code, maxc, cjk) == 0,
        code.len() > 0 && code.last() == '\n' ==> spec_code_rows(code, maxc, cjk) == row_fold(
            (0, 0),
            code,
            maxc,
            cjk,
        ).0,
        code.len() > 0 && code.last() != '\n' ==> spec_code_rows(code, maxc, cjk) == row_fold(
            (0, 0),
            code,
            maxc,
            cjk,
        ).0 + 1,
{
    let lines = spec_split(code, '\n');
    lemma_row_fold_lines(code, maxc, cjk);
    lemma_code_lines_capped(0, lines, lines.len() as int, maxc, cjk);
    assert(capped(0) == 0);
    assert(lines.last() == lines[lines.len() - 1]);
}

proof fn lemma_code_text_rows(st: CodeState, chunk: Seq<char>, t: Seq<char>, s: SpanStyle, maxc: nat, cjk: bool)
    requires
        st.cur.len() >= 1,
    ensures
        (code_text(st, chunk, t, s, maxc, cjk).0.lines.len(), code_text(st, chunk, t, s, maxc, cjk).0.w)
            == wrap_fold((st.lines.len(), st.w), t, maxc, cjk),
        code_text(st, chunk, t, s, maxc, cjk).0.cur.len() >= 1,
        t.len() > 0 ==> code_text(st, chunk, t, s, maxc, cjk).1.len() > 0,
    decreases t.len(),
{
    if t.len() > 0 {
        lemma_code_text_rows(st, chunk, t.drop_last(), s, maxc, cjk);
    }
}

proof fn lemma_row_fold_plain(st: (nat, nat), s: Seq<char>, maxc: nat, cjk: bool)
    requires
        forall|j: int| 0 <= j < s.len() ==> s[j] != '\n',
    ensures
        row_fold(st, s, maxc, cjk) == wrap_fold(st, s, maxc, cjk),
    decreases s.len(),
{
    if s.len() > 0 {
        lemma_row_fold_plain(st, s.drop_last(), maxc, cjk);
        assert(s.last() == s[s.len() - 1]);
    }
}

proof fn lemma_row_fold_append(st: (nat, nat), a: Seq<char>, b: Seq<char>, maxc: nat, cjk: bool)
    ensures
        row_fold(st, a + b, maxc, cjk) == row_fold(row_fold(st, a, maxc, cjk), b, maxc, cjk),
    decreases b.len(),
{
    if b.len() == 0 {
        assert(a + b =~= a);
    } else {
        lemma_row_fold_append(st, a, b.drop_last(), maxc, cjk);
        assert((a + b).drop_last() =~= a + b.drop_last());
        assert((a + b).last() == b.last());
    }
}

proof fn lemma_trim_piece(text: Seq<char>)
    requires
        forall|j: int| 0 <= j < text.len() - 1 ==> text[j] != '\n',
    ensures
        text.len() > 0 && text.last() == '\n' ==> trim_newlines(text) == text.drop_last(),
        !(text.len() > 0 && text.last() == '\n') ==> trim_newlines(text) == text,
        forall|j: int| 0 <= j < trim_newlines(text).len() ==> trim_newlines(text)[j] != '\n',
{
    if text.len() > 0 && text.last() == '\n' {
        let d = text.drop_last();
        if d.len() > 0 {
            assert(d.last() == text[d.len() - 1]);
        }
        assert(trim_newlines(d) == d);
    }
}

/// Placing regions whose line breaks end them counts the rows of their text.
proof fn lemma_code_regions_rows(st: CodeState, rs: Seq<RegionV>, maxc: nat, cjk: bool)
    requires
        st.cur.len() >= 1,
        breaks_end_pieces(rs),
    ensures
        (code_regions(st, rs, maxc, cjk).lines.len(), code_regions(st, rs, maxc, cjk).w) == row_fold(
            (st.lines.len(), st.w),
            joined(rs),
            maxc,
            cjk,
        ),
        code_regions(st, rs, maxc, cjk).cur.len() >= 1,
        joined(rs).len() == 0 ==> code_regions(st, rs, maxc, cjk) == st,
        joined(rs).len() > 0 && joined(rs).last() == '\n' ==> code_regions(st, rs, maxc, cjk).cur
            == fresh_code_line() && code_regions(st, rs, maxc, cjk).w == 0,
        joined(rs).len() > 0 && joined(rs).last() != '\n' ==> code_regions(st, rs, maxc, cjk).cur.len() > 1,
    decreases rs.len(),
{
    if rs.len() > 0 {
        let rs0 = rs.drop_last();
        assert forall|i: int, j: int| 0 <= i < rs0.len() && 0 <= j < rs0[i].text.len() - 1 implies #[trigger] rs0[i].text[j]
            != '\n' by {
            assert(rs0[i] == rs[i]);
        }
        lemma_code_regions_rows(st, rs0, maxc, cjk);
        let r0 = code_regions(st, rs0, maxc, cjk);
        let x = rs.last();
        let a = (st.lines.len(), st.w);
        assert(joined(rs) == joined(rs0) + x.text);
        lemma_row_fold_append(a, joined(rs0), x.text, maxc, cjk);
        assert forall|j: int| 0 <= j < x.text.len() - 1 implies x.text[j] != '\n' by {
            assert(x == rs[rs.len() - 1]);
        }
        lemma_trim_piece(x.text);
        let t = trim_newlines(x.text);
        let sty = SpanStyle::Code(x.style);
        let b = (r0.lines.len(), r0.w);
        if x.text.len() == 0 {
            assert(joined(rs) =~= joined(rs0));
            assert(x.text =~= Seq::<char>::empty());
        } else {
            if t.len() > 0 {
                lemma_code_text_rows(r0, Seq::empty(), t, sty, maxc, cjk);
            }
            lemma_row_fold_plain(b, t, maxc, cjk);
            if x.text.last() == '\n' {
                assert(x.text.drop_last() == t);
                assert(row_fold(b, x.text, maxc, cjk) == (row_fold(b, t, maxc, cjk).0 + 1, 0nat));
            }
            assert(joined(rs).last() == x.text.last());
        }
    }
}

/// A code block renders to as many lines as measuring it gives, where its regions make
/// up its code with each line break ending a region.
pub proof fn lemma_code_block_height(label: Seq<char>, rs: Seq<RegionV>, code: Seq<char>, width: nat, cjk: bool)
    requires
        pieces_make_up(rs, code),
        spec_code_lines(label, rs, width, cjk).len() <= usize::MAX,
    ensures
        spec_code_lines(label, rs, width, cjk).len() == sat_add(
            spec_code_rows(code, code_inner_width(width, cjk), cjk),
            2,
        ),
{
    let maxc = code_inner_width(width, cjk);
    let init = CodeState { lines: Seq::empty(), cur: fresh_code_line(), w: 0 };
    lemma_code_regions_rows(init, rs, maxc, cjk);
    let body = code_regions(init, rs, maxc, cjk);
    assert(body.lines.len() == row_fold((0, 0), code, maxc, cjk).0);
    lemma_code_rows_counted(code, maxc, cjk);
}


/// Each of `lines`, given after `before` and the lines ahead of it, is highlighted, into
/// pieces that make up the line.
pub open spec fn lines_taken(language: Seq<char>, lines: Seq<Seq<char>>, before: Seq<char>) -> bool
    decreases lines.len(),
{
    if lines.len() == 0 {
        true
    } else {
        match syntect_line(language, before, lines[0]) {
            Some(v) => joined(v) == lines[0] && lines_taken(language, lines.drop_first(), before + lines[0]),
            None => false,
        }
    }
}

/// The highlighter does not fail on any of `lines`, each given after `before` and the
/// lines ahead of it.
pub open spec fn lines_succeed(language: Seq<char>, lines: Seq<Seq<char>>, before: Seq<char>) -> bool
    decreases lines.len(),
{
    if lines.len() == 0 {
        true
    } else {
        syntect_line(language, before, lines[0]) is Some && lines_succeed(
            language,
            lines.drop_first(),
            before + lines[0],
        )
    }
}

/// The highlighter takes every line of `code` in `language`, the pieces making up each line.
pub open spec fn lines_highlighted(language: Seq<char>, code: Seq<char>) -> bool {
    lines_taken(language, lines_from(code, 0), Seq::empty())
}

proof fn lemma_joined_append(a: Seq<RegionV>, b: Seq<RegionV>)
    ensures
        joined(a + b) == joined(a) + joined(b),
    decreases b.len(),
{
    if b.len() == 0 {
        assert(a + b =~= a);
        assert(joined(a) + Seq::<char>::empty() =~= joined(a));
    } else {
        lemma_joined_append(a, b.drop_last());
        assert((a + b).drop_last() =~= a + b.drop_last());
        assert((a + b).last() == b.last());
        assert(joined(a) + joined(b.drop_last()) + b.last().text =~= joined(a) + (joined(b.drop_last())
            + b.last().text));
    }
}

proof fn lemma_line_end_no_break(code: Seq<char>, i: int)
    requires
        0 <= i < code.len(),
    ensures
        forall|j: int| i <= j < line_end(code, i) - 1 ==> code[j] != '\n',
    decreases code.len() - i,
{
    lemma_line_end(code, i);
    if code[i] != '\n' && i + 1 < code.len() {
        lemma_line_end_no_break(code, i + 1);
    }
}

/// Regions that make up a line with no break but at its end have their breaks at their ends.
proof fn lemma_pieces_of_line(v: Seq<RegionV>, l: Seq<char>)
    requires
        joined(v) == l,
        forall|j: int| 0 <= j < l.len() - 1 ==> l[j] != '\n',
    ensures
        breaks_end_pieces(v),
    decreases v.len(),
{
    if v.len() > 0 {
        let v0 = v.drop_last();
        let x = v.last();
        let p = joined(v0);
        assert(l == p + x.text);
        if x.text.len() == 0 {
            assert(l =~= p);
            lemma_pieces_of_line(v0, l);
        } else {
            assert forall|j: int| 0 <= j < p.len() - 1 implies p[j] != '\n' by {
                assert(p[j] == l[j]);
            }
            lemma_pieces_of_line(v0, p);
        }
        assert forall|i: int, j: int| 0 <= i < v.len() && 0 <= j < v[i].text.len() - 1 implies #[trigger] v[i].text[j]
            != '\n' by {
            if i < v.len() - 1 {
                assert(v[i] == v0[i]);
            } else {
                assert(x.text[j] == l[p.len() + j]);
            }
        }
    }
}

proof fn lemma_lines_make_up(language: Seq<char>, code: Seq<char>, i: int, before: Seq<char>)
    requires
        0 <= i <= code.len(),
        lines_taken(language, lines_from(code, i), before),
    ensures
        pieces_make_up(regions_of_lines(language, lines_from(code, i), before), code.subrange(i, code.len() as int)),
    decreases code.len() - i,
{
    if i == code.len() {
        assert(lines_from(code, i) =~= Seq::<Seq<char>>::empty());
        assert(code.subrange(i, code.len() as int) =~= Seq::<char>::empty());
    } else {
        lemma_line_end(code, i);
        lemma_line_end_no_break(code, i);
        let e = line_end(code, i);
        let line = code.subrange(i, e);
        let lines = lines_from(code, i);
        assert(lines == seq![line] + lines_from(code, e));
        assert(lines[0] == line);
        assert(lines.drop_first() =~= lines_from(code, e));
        let v = syntect_line(language, before, line)->Some_0;
        lemma_lines_make_up(language, code, e, before + line);
        let rest = regions_of_lines(language, lines_from(code, e), before + line);
        assert(regions_of_lines(language, lines, before) == v + rest);
        lemma_joined_append(v, rest);
        assert(code.subrange(i, code.len() as int) =~= line + code.subrange(e, code.len() as int));
        lemma_pieces_of_line(v, line);
        let all = v + rest;
        assert forall|a: int, j: int| 0 <= a < all.len() && 0 <= j < all[a].text.len() - 1 implies #[trigger] all[a].text[j]
            != '\n' by {
            if a < v.len() {
                assert(all[a] == v[a]);
            } else {
                assert(all[a] == rest[a - v.len()]);
            }
        }
    }
}

/// Where the highlighter takes every line of a block, the regions it gives make up the
/// block's code, each line break ending a region.
pub proof fn law_highlighted_lines_make_up_code(language: Seq<char>, code: Seq<char>)
    requires
        lines_highlighted(language, code),
    ensures
        pieces_make_up(highlighted_regions(language, code), code),
{
    lemma_lines_make_up(language, code, 0, Seq::empty());
    assert(code.subrange(0, code.len() as int) =~= code);
}

} // verus!
