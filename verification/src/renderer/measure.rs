//! Measuring: how many terminal lines each node takes, without rendering it.
use crate::parser::{lemma_nodes_views, views, DocNode, DocNodeV, InlineSpan};
use crate::renderer::inline::{render_inline_spans, soft_wrap_spans, spec_soft_wrap};
use crate::renderer::nodes::{
    heading_spans, heading_styled_spans, list_avail, list_item_avail, quote_inner, rendered_spans,
};
use crate::renderer::{
    display_width, BLOCKQUOTE_LEFT_BORDER, BLOCKQUOTE_RIGHT_BORDER, CODE_BLOCK_LEFT_BORDER,
    CODE_BLOCK_RIGHT_BORDER, IMAGE_RENDER_HEIGHT, INLINE_CODE_PADDING, LIST_INDENT_PER_DEPTH,
    LIST_MIN_AVAILABLE_WIDTH,
};
use crate::text::{chars_of, spec_split, split_chars};
use crate::width::{char_width, spec_char_width, spec_str_width};
use vstd::prelude::*;

verus! {

/// `n + 1`, saturating at `usize::MAX`.
pub open spec fn sat_inc(n: nat) -> nat {
    if n < usize::MAX {
        n + 1
    } else {
        usize::MAX as nat
    }
}

fn sat_inc_exec(n: &mut usize)
    ensures
        *final(n) as nat == sat_inc(*old(n) as nat),
{
    if *n < usize::MAX {
        *n = *n + 1;
    }
}

/// The number of lines inline spans wrap to at `max_width` columns: the lines of their
/// rendering, soft-wrapped.
pub fn count_wrapped_inline_lines(spans: &Vec<InlineSpan>, max_width: usize, cjk: bool) -> (n: usize)
    requires
        max_width < usize::MAX - 3,
    ensures
        n == spec_soft_wrap(rendered_spans(views(spans@)), max_width as nat, cjk).len(),
{
    let rendered = render_inline_spans(spans);
    let wrapped = soft_wrap_spans(rendered, max_width, cjk);
    proof {
        assert(views(wrapped@).len() == wrapped@.len());
    }
    wrapped.len()
}

// ---------------------------------------------------------------------------
// Node heights
// ---------------------------------------------------------------------------

/// `a + b`, saturating at `usize::MAX`.
pub open spec fn sat_add(a: nat, b: nat) -> nat {
    if a + b <= usize::MAX {
        a + b
    } else {
        usize::MAX as nat
    }
}

/// List depths and table sizes of a node stay far below the machine limit.
pub open spec fn node_ok(n: DocNodeV) -> bool
    decreases n,
{
    match n {
        DocNodeV::ListItem { depth, .. } => depth <= usize::MAX / 8,
        DocNodeV::Table { rows, .. } => rows.len() <= usize::MAX / 4,
        DocNodeV::BlockQuote(children) => nodes_ok(children),
        _ => true,
    }
}

/// Every node of `s` is [`node_ok`].
pub open spec fn nodes_ok(s: Seq<DocNodeV>) -> bool
    decreases s,
{
    if s.len() == 0 {
        true
    } else {
        nodes_ok(s.drop_last()) && node_ok(s.last())
    }
}

/// Code-line rows and the width of the last row after the characters of `s`, wrapping
/// at `maxc` columns.
pub open spec fn code_chars(st: (nat, nat), s: Seq<char>, maxc: nat, cjk: bool) -> (nat, nat)
    decreases s.len(),
{
    if s.len() == 0 {
        st
    } else {
        let p = code_chars(st, s.drop_last(), maxc, cjk);
        let c = spec_char_width(s.last(), cjk);
        if p.1 + c > maxc {
            (sat_inc(p.0), c)
        } else {
            (p.0, p.1 + c)
        }
    }
}

/// Rows of the first `k` code lines.
pub open spec fn code_lines(count: nat, lines: Seq<Seq<char>>, k: int, maxc: nat, cjk: bool) -> nat
    decreases k,
{
    if k <= 0 {
        count
    } else {
        sat_inc(code_chars((code_lines(count, lines, k - 1, maxc, cjk), 0), lines[k - 1], maxc, cjk).0)
    }
}

/// Rows of code between a code block's borders.
pub open spec fn spec_code_rows(code: Seq<char>, maxc: nat, cjk: bool) -> nat {
    let lines = spec_split(code, '\n');
    let n = code_lines(0, lines, lines.len() as int, maxc, cjk);
    if code.len() == 0 {
        0
    } else if code.last() == '\n' {
        if n > 0 {
            (n - 1) as nat
        } else {
            0
        }
    } else {
        n
    }
}

/// The height of a node in terminal lines at `width` columns: for text, the lines it
/// wraps to; for code, its rows between the borders; for a quote, its children's heights
/// between the borders (nothing when they take no lines); for a table, its rows, header
/// and borders (nothing without headers).
pub open spec fn spec_node_height(n: DocNodeV, width: nat, cjk: bool) -> nat
    decreases n,
{
    match n {
        DocNodeV::Heading { level, text } => spec_soft_wrap(heading_spans(level, text), width, cjk).len(),
        DocNodeV::Paragraph(spans) => spec_soft_wrap(rendered_spans(spans), width, cjk).len(),
        DocNodeV::CodeBlock { code, .. } => {
            let borders = spec_str_width(CODE_BLOCK_LEFT_BORDER@, cjk) + spec_str_width(
                CODE_BLOCK_RIGHT_BORDER@,
                cjk,
            );
            let maxc = if width >= borders {
                (width - borders) as nat
            } else {
                0
            };
            sat_add(spec_code_rows(code, maxc, cjk), 2)
        },
        DocNodeV::BlockQuote(children) => {
            let child_lines = spec_nodes_height(children, quote_inner(width, cjk), cjk);
            if child_lines > 0 {
                sat_add(child_lines, 2)
            } else {
                0
            }
        },
        DocNodeV::ListItem { depth, ordered, number, children } => spec_soft_wrap(
            rendered_spans(children),
            list_avail(depth, ordered, number, width, cjk),
            cjk,
        ).len(),
        DocNodeV::Table { headers, rows } => if headers.len() == 0 {
            0
        } else {
            rows.len() + 4
        },
        DocNodeV::Rule => 1,
        DocNodeV::Blank => 1,
        DocNodeV::Image { .. } => IMAGE_RENDER_HEIGHT as nat,
    }
}

/// The sum of the heights of `s`, saturating at `usize::MAX`.
pub open spec fn spec_nodes_height(s: Seq<DocNodeV>, width: nat, cjk: bool) -> nat
    decreases s,
{
    if s.len() == 0 {
        0
    } else {
        sat_add(spec_nodes_height(s.drop_last(), width, cjk), spec_node_height(s.last(), width, cjk))
    }
}

fn code_rows(code: &String, maxc: usize, cjk: bool) -> (n: usize)
    requires
        maxc <= u16::MAX,
    ensures
        n as nat == spec_code_rows(code@, maxc as nat, cjk),
{
    let chars = chars_of(code.as_str());
    let lines = split_chars(&chars, '\n');
    let ghost slines = spec_split(code@, '\n');
    let mut count: usize = 0;
    let mut k: usize = 0;
    while k < lines.len()
        invariant
            k <= lines@.len() == slines.len(),
            maxc <= u16::MAX,
            forall|j: int| 0 <= j < lines@.len() ==> (#[trigger] lines@[j])@ == slines[j],
            count as nat == code_lines(0, slines, k as int, maxc as nat, cjk),
        decreases lines@.len() - k,
    {
        let line = &lines[k];
        let ghost start = count as nat;
        let mut cw: usize = 0;
        let mut j: usize = 0;
        while j < line.len()
            invariant
                j <= line@.len(),
                maxc <= u16::MAX,
                cw <= maxc + 3,
                (count as nat, cw as nat) == code_chars((start, 0), line@.take(j as int), maxc as nat, cjk),
            decreases line@.len() - j,
        {
            assert(line@.take(j + 1).drop_last() =~= line@.take(j as int));
            let w = char_width(line[j], cjk);
            if cw + w > maxc {
                sat_inc_exec(&mut count);
                cw = 0;
            }
            cw = cw + w;
            j = j + 1;
        }
        assert(line@.take(line@.len() as int) =~= line@);
        sat_inc_exec(&mut count);
        k = k + 1;
    }
    if chars.len() == 0 {
        return 0;
    }
    if chars[chars.len() - 1] == '\n' {
        count = count.saturating_sub(1);
    }
    count
}

/// The height of a node in terminal lines at `width` columns.
pub fn measure_node_height(node: &DocNode, width: u16, cjk: bool) -> (h: usize)
    requires
        node_ok(node@),
    ensures
        h as nat == spec_node_height(node@, width as nat, cjk),
    decreases node,
{
    let w = width as usize;
    match node {
        DocNode::Heading { level, text } => {
            let spans = heading_styled_spans(*level, text);
            let wrapped = soft_wrap_spans(spans, w, cjk);
            proof {
                assert(views(wrapped@).len() == wrapped@.len());
            }
            wrapped.len()
        },
        DocNode::Paragraph(spans) => count_wrapped_inline_lines(spans, w, cjk),
        DocNode::CodeBlock { code, .. } => {
            proof {
                reveal_strlit("│ ");
                reveal_strlit("│");
                crate::width::lemma_width_bound(CODE_BLOCK_LEFT_BORDER@, cjk);
                crate::width::lemma_width_bound(CODE_BLOCK_RIGHT_BORDER@, cjk);
            }
            let left_border = display_width(CODE_BLOCK_LEFT_BORDER, cjk);
            let right_border = display_width(CODE_BLOCK_RIGHT_BORDER, cjk);
            let max_content_width = w.saturating_sub(left_border + right_border);
            code_rows(code, max_content_width, cjk).saturating_add(2)
        },
        DocNode::BlockQuote(children) => {
            proof {
                reveal_strlit("│ ");
                reveal_strlit("│");
                crate::width::lemma_width_bound(BLOCKQUOTE_LEFT_BORDER@, cjk);
                crate::width::lemma_width_bound(BLOCKQUOTE_RIGHT_BORDER@, cjk);
                lemma_nodes_views(children@);
            }
            let left_border = display_width(BLOCKQUOTE_LEFT_BORDER, cjk);
            let right_border = display_width(BLOCKQUOTE_RIGHT_BORDER, cjk);
            let inner = w.saturating_sub(left_border + right_border);
            let inner: u16 = if inner > 1 {
                inner as u16
            } else {
                1
            };
            let ghost cv = views(children@);
            let mut child_lines: usize = 0;
            let mut k: usize = 0;
            while k < children.len()
                invariant
                    k <= children@.len(),
                    *node == DocNode::BlockQuote(*children),
                    cv == views(children@),
                    nodes_ok(cv),
                    child_lines as nat == spec_nodes_height(cv.take(k as int), inner as nat, cjk),
                decreases children@.len() - k,
            {
                proof {
                    assert(cv.take(k + 1).drop_last() =~= cv.take(k as int));
                    lemma_nodes_ok_index(cv, k as int);
                    assert(decreases_to!(*node => node->BlockQuote_0));
                    assert(node->BlockQuote_0 == *children);
                    assert(decreases_to!(*children => children@));
                    assert(decreases_to!(children@ => children@[k as int]));
                }
                let h = measure_node_height(&children[k], inner, cjk);
                child_lines = child_lines.saturating_add(h);
                k = k + 1;
            }
            assert(cv.take(children@.len() as int) =~= cv);
            if child_lines > 0 {
                child_lines.saturating_add(2)
            } else {
                0
            }
        },
        DocNode::ListItem { depth, ordered, number, children } => {
            let avail = list_item_avail(*depth, *ordered, *number, w, cjk);
            count_wrapped_inline_lines(children, avail, cjk)
        },
        DocNode::Table { headers, rows } => if headers.len() == 0 {
            0
        } else {
            rows.len() + 4
        },
        DocNode::Rule => 1,
        DocNode::Blank => 1,
        DocNode::Image { .. } => IMAGE_RENDER_HEIGHT,
    }
}

pub proof fn lemma_nodes_ok_index(s: Seq<DocNodeV>, k: int)
    requires
        nodes_ok(s),
        0 <= k < s.len(),
    ensures
        node_ok(s[k]),
    decreases s.len(),
{
    if k < s.len() - 1 {
        lemma_nodes_ok_index(s.drop_last(), k);
    }
}

/// The height of each node at `width` columns.
pub fn measure_nodes(nodes: &Vec<DocNode>, width: u16, cjk: bool) -> (heights: Vec<usize>)
    requires
        nodes_ok(views(nodes@)),
    ensures
        heights@.len() == nodes@.len(),
        forall|k: int| 0 <= k < nodes@.len() ==> (#[trigger] heights@[k]) as nat == spec_node_height(nodes@[k]@, width as nat, cjk),
{
    let mut heights: Vec<usize> = Vec::new();
    let mut k: usize = 0;
    while k < nodes.len()
        invariant
            k <= nodes@.len(),
            heights@.len() == k,
            nodes_ok(views(nodes@)),
            forall|j: int| 0 <= j < k ==> (#[trigger] heights@[j]) as nat == spec_node_height(nodes@[j]@, width as nat, cjk),
        decreases nodes@.len() - k,
    {
        proof {
            lemma_nodes_ok_index(views(nodes@), k as int);
        }
        let h = measure_node_height(&nodes[k], width, cjk);
        heights.push(h);
        k = k + 1;
    }
    heights
}

/// The sum of the first `k` heights.
pub open spec fn prefix_sum(heights: Seq<usize>, k: int) -> nat
    decreases k,
{
    if k <= 0 {
        0
    } else {
        prefix_sum(heights, k - 1) + (heights[k - 1] as nat)
    }
}

/// The first line of each node: the prefix sums of the heights.
pub fn compute_line_starts(heights: &Vec<usize>) -> (starts: Vec<usize>)
    requires
        prefix_sum(heights@, heights@.len() as int) <= usize::MAX,
    ensures
        starts@.len() == heights@.len(),
        forall|k: int| 0 <= k < heights@.len() ==> (#[trigger] starts@[k]) as nat == prefix_sum(heights@, k),
{
    let mut starts: Vec<usize> = Vec::new();
    let mut offset: usize = 0;
    let mut k: usize = 0;
    while k < heights.len()
        invariant
            k <= heights@.len(),
            starts@.len() == k,
            offset as nat == prefix_sum(heights@, k as int),
            prefix_sum(heights@, heights@.len() as int) <= usize::MAX,
            forall|j: int| 0 <= j < k ==> (#[trigger] starts@[j]) as nat == prefix_sum(heights@, j),
        decreases heights@.len() - k,
    {
        starts.push(offset);
        proof {
            lemma_prefix_sum_mono(heights@, k + 1, heights@.len() as int);
        }
        offset = offset + heights[k];
        k = k + 1;
    }
    starts
}

proof fn lemma_prefix_sum_mono(h: Seq<usize>, a: int, b: int)
    requires
        0 <= a <= b <= h.len(),
    ensures
        prefix_sum(h, a) <= prefix_sum(h, b),
    decreases b - a,
{
    if a < b {
        lemma_prefix_sum_mono(h, a, b - 1);
    }
}

} // verus!
