//! Whether a document's sizes are small enough to lay it out.
use crate::parser::{lemma_nodes_views, views, DocNode, DocNodeV};
use crate::renderer::code::code_label;
use crate::renderer::measure::{node_ok, nodes_ok};
use crate::renderer::nodes::{nodes_render_ok, render_ok};
use crate::renderer::table::{
    cells_countable, natural_col_widths, natural_widths, nats, sum_nat, table_ok, table_overhead,
};
use crate::renderer::TABLE_VERTICAL_BORDER;
use crate::text::chars_of;
use crate::width::{capped, lemma_width_bound, spec_str_width, width_capped};
use vstd::prelude::*;

verus! {

/// Whether every header and cell is short enough to count its width.
fn check_cells(headers: &Vec<String>, rows: &Vec<Vec<String>>) -> (b: bool)
    ensures
        b == cells_countable(views(headers@), crate::parser::rows_view(rows@)),
{
    let ghost hs = views(headers@);
    let ghost rs = crate::parser::rows_view(rows@);
    let mut i: usize = 0;
    while i < headers.len()
        invariant
            i <= headers@.len(),
            hs == views(headers@),
            forall|k: int| 0 <= k < i ==> (#[trigger] hs[k]).len() <= usize::MAX / 3,
        decreases headers@.len() - i,
    {
        let v = chars_of(headers[i].as_str());
        if v.len() > usize::MAX / 3 {
            assert(hs[i as int] == headers@[i as int]@);
            return false;
        }
        i = i + 1;
    }
    let mut r: usize = 0;
    while r < rows.len()
        invariant
            r <= rows@.len(),
            hs == views(headers@),
            rs == crate::parser::rows_view(rows@),
            forall|k: int| 0 <= k < hs.len() ==> (#[trigger] hs[k]).len() <= usize::MAX / 3,
            forall|a: int, c: int| 0 <= a < r && 0 <= c < rs[a].len() ==> (#[trigger] rs[a][c]).len() <= usize::MAX / 3,
        decreases rows@.len() - r,
    {
        let row = &rows[r];
        assert(rs[r as int] == views(row@));
        let mut c: usize = 0;
        while c < row.len()
            invariant
                c <= row@.len(),
                r < rows@.len(),
                row == rows@[r as int],
                rs == crate::parser::rows_view(rows@),
                rs[r as int] == views(row@),
                forall|a: int, cc: int| 0 <= a < r && 0 <= cc < rs[a].len() ==> (#[trigger] rs[a][cc]).len() <= usize::MAX / 3,
                forall|cc: int| 0 <= cc < c ==> (#[trigger] rs[r as int][cc]).len() <= usize::MAX / 3,
            decreases row@.len() - c,
        {
            let v = chars_of(row[c].as_str());
            assert(rs[r as int][c as int] == row@[c as int]@);
            if v.len() > usize::MAX / 3 {
                return false;
            }
            c = c + 1;
        }
        r = r + 1;
    }
    true
}

/// Whether a table's widths can be counted in a `usize`.
fn check_table(headers: &Vec<String>, rows: &Vec<Vec<String>>, cjk: bool) -> (b: bool)
    ensures
        b == table_ok(views(headers@), crate::parser::rows_view(rows@), cjk),
{
    if !check_cells(headers, rows) {
        return false;
    }
    let natural = natural_col_widths(headers, rows, cjk);
    let ghost nw = nats(natural@);
    let mut total: usize = 0;
    let mut i: usize = 0;
    while i < natural.len()
        invariant
            i <= natural@.len(),
            nw == nats(natural@),
            nw == natural_widths(views(headers@), crate::parser::rows_view(rows@), cjk),
            total as nat == sum_nat(nw.take(i as int)),
            total <= usize::MAX - 2,
        decreases natural@.len() - i,
    {
        assert(nw.take(i + 1).drop_last() =~= nw.take(i as int));
        if natural[i] > usize::MAX - 2 - total {
            proof {
                lemma_sum_tail_ge(nw, i + 1);
            }
            return false;
        }
        total = total + natural[i];
        i = i + 1;
    }
    assert(nw.take(natural@.len() as int) =~= nw);
    proof {
        reveal_strlit("│");
        lemma_width_bound(TABLE_VERTICAL_BORDER@, cjk);
    }
    let vb = crate::renderer::display_width(TABLE_VERTICAL_BORDER, cjk);
    let n = headers.len() as u128;
    assert(n <= u64::MAX);
    assert((n + 1) * (vb as u128) <= (u64::MAX as u128 + 1) * 3) by (nonlinear_arith)
        requires
            n <= u64::MAX,
            vb <= 3,
    ;
    let overhead: u128 = (n + 1) * (vb as u128) + n * 2;
    overhead <= usize::MAX as u128
}

proof fn lemma_sum_tail_ge(s: Seq<nat>, k: int)
    requires
        0 <= k <= s.len(),
    ensures
        sum_nat(s.take(k)) <= sum_nat(s),
    decreases s.len() - k,
{
    if k < s.len() {
        lemma_sum_tail_ge(s, k + 1);
        assert(s.take(k + 1).drop_last() =~= s.take(k));
    } else {
        assert(s.take(k) =~= s);
    }
}

/// Whether one node's sizes are small enough for measuring and laying out.
pub fn node_fits(node: &DocNode, cjk: bool) -> (b: bool)
    ensures
        b == (node_ok(node@) && render_ok(node@, cjk)),
    decreases node,
{
    match node {
        DocNode::ListItem { depth, .. } => *depth <= usize::MAX / 8,
        DocNode::Table { headers, rows } => rows.len() <= usize::MAX / 4 && check_table(headers, rows, cjk),
        DocNode::CodeBlock { language, .. } => {
            proof {
                reveal_strlit("text");
            }
            let label: &str = match language {
                Some(l) => l.as_str(),
                None => "text",
            };
            let v = chars_of(label);
            check_label_wide(&v, cjk)
        },
        DocNode::BlockQuote(children) => {
            proof {
                lemma_nodes_views(children@);
                assert(decreases_to!(*node => node->BlockQuote_0));
                assert(node->BlockQuote_0 == *children);
            }
            nodes_fit(children, cjk)
        },
        _ => true,
    }
}

/// Whether a label wider than most of a `usize` still fits in `usize::MAX - 16` columns.
fn check_label_wide(v: &Vec<char>, cjk: bool) -> (b: bool)
    ensures
        b == (spec_str_width(v@, cjk) <= usize::MAX - 16),
{
    let w = width_capped(v, 0, v.len(), usize::MAX - 16, cjk);
    assert(v@.subrange(0, v@.len() as int) =~= v@);
    w <= usize::MAX - 16
}

/// Whether every node's sizes are small enough for measuring and laying out.
pub fn nodes_fit(nodes: &Vec<DocNode>, cjk: bool) -> (b: bool)
    ensures
        b == (nodes_ok(views(nodes@)) && nodes_render_ok(views(nodes@), cjk)),
    decreases nodes,
{
    let ghost nv = views(nodes@);
    let mut k: usize = 0;
    while k < nodes.len()
        invariant
            k <= nodes@.len(),
            nv == views(nodes@),
            nodes_ok(nv.take(k as int)) && nodes_render_ok(nv.take(k as int), cjk),
        decreases nodes@.len() - k,
    {
        proof {
            assert(nv.take(k + 1).drop_last() =~= nv.take(k as int));
            assert(decreases_to!(*nodes => nodes@));
            assert(decreases_to!(nodes@ => nodes@[k as int]));
        }
        if !node_fits(&nodes[k], cjk) {
            proof {
                lemma_prefix_not_fit(nv, k as int + 1, cjk);
            }
            return false;
        }
        k = k + 1;
    }
    assert(nv.take(nodes@.len() as int) =~= nv);
    true
}

proof fn lemma_prefix_not_fit(s: Seq<DocNodeV>, k: int, cjk: bool)
    requires
        1 <= k <= s.len(),
        !(node_ok(s[k - 1]) && render_ok(s[k - 1], cjk)),
    ensures
        !(nodes_ok(s) && nodes_render_ok(s, cjk)),
    decreases s.len() - k,
{
    if k < s.len() {
        lemma_prefix_not_fit(s.drop_last(), k, cjk);
    }
}

} // verus!
