//! Tables: column widths, cell truncation and borders.
use crate::parser::{lemma_views_push, rows_view, views};
use crate::renderer::inline::{fit_count, lemma_fit_count_range, lemma_fit_count_width};
use crate::renderer::{
    display_width, SpanStyle, SpanV, StyledLine, StyledSpan, TABLE_BOTTOM_LEFT, TABLE_BOTTOM_MID,
    TABLE_BOTTOM_RIGHT, TABLE_CELL_PADDING, TABLE_CELL_PADDING_TOTAL, TABLE_MID_LEFT,
    TABLE_MID_MID, TABLE_MID_RIGHT, TABLE_MIN_COL_WIDTH, TABLE_TOP_LEFT, TABLE_TOP_MID,
    TABLE_TOP_RIGHT, TABLE_VERTICAL_BORDER,
};
use crate::text::{chars_of, push_char, push_str, repeat_str, spec_repeat, string_of, string_of_range};
use crate::width::{char_width, spec_char_width, spec_str_width};
use vstd::prelude::*;

verus! {

// ---------------------------------------------------------------------------
// Truncating a cell
// ---------------------------------------------------------------------------

/// The longest prefix length `j <= k` of `s` after which an ellipsis of width `e` still
/// fits in `max` columns (or 0).
pub open spec fn trunc_keep(s: Seq<char>, j: int, e: nat, max: nat, cjk: bool) -> int
    decreases j,
{
    if j <= 0 {
        0
    } else if spec_str_width(s.take(j), cjk) + e > max {
        trunc_keep(s, j - 1, e, max, cjk)
    } else {
        j
    }
}

/// `s` cut to `max` columns: the characters that fit, or, when some do not, as many as
/// leave room for a trailing `…`, followed by the `…` where it fits.
pub open spec fn spec_truncate(s: Seq<char>, max: nat, cjk: bool) -> Seq<char> {
    if max == 0 {
        Seq::empty()
    } else {
        let k = fit_count(s, 0, 0, max, cjk);
        if k >= s.len() {
            s
        } else {
            let e = spec_char_width('…', cjk);
            let j = trunc_keep(s, k, e, max, cjk);
            if spec_str_width(s.take(j), cjk) + e <= max {
                s.take(j).push('…')
            } else {
                s.take(j)
            }
        }
    }
}

proof fn lemma_trunc_keep(s: Seq<char>, j: int, e: nat, max: nat, cjk: bool)
    requires
        0 <= j <= s.len(),
    ensures
        0 <= trunc_keep(s, j, e, max, cjk) <= j,
        trunc_keep(s, j, e, max, cjk) == 0 || spec_str_width(
            s.take(trunc_keep(s, j, e, max, cjk)),
            cjk,
        ) + e <= max,
    decreases j,
{
    if j > 0 && spec_str_width(s.take(j), cjk) + e > max {
        lemma_trunc_keep(s, j - 1, e, max, cjk);
    }
}

/// `s` cut to at most `max_w` columns, ending in `…` where it was cut.
pub fn truncate_text(s: &str, max_w: usize, cjk: bool) -> (r: String)
    ensures
        r@ == spec_truncate(s@, max_w as nat, cjk),
        spec_str_width(r@, cjk) <= max_w,
{
    if max_w == 0 {
        return String::new();
    }
    let v = chars_of(s);
    let mut w: usize = 0;
    let mut k: usize = 0;
    while k < v.len() && char_width(v[k], cjk) <= max_w - w
        invariant
            k <= v@.len(),
            v@ == s@,
            w <= max_w,
            w == spec_str_width(v@.take(k as int), cjk),
            fit_count(v@, k as int, w as nat, max_w as nat, cjk) == fit_count(
                v@,
                0,
                0,
                max_w as nat,
                cjk,
            ),
        decreases v@.len() - k,
    {
        assert(v@.take(k + 1).drop_last() =~= v@.take(k as int));
        w = w + char_width(v[k], cjk);
        k = k + 1;
    }
    if k == v.len() {
        assert(v@.take(k as int) =~= v@);
        return string_of(&v);
    }
    let e = char_width('…', cjk);
    let mut j = k;
    let mut wj = w;
    while j > 0 && e > max_w - wj
        invariant
            j <= k < v@.len(),
            wj <= max_w,
            wj == spec_str_width(v@.take(j as int), cjk),
            e == spec_char_width('…', cjk),
            trunc_keep(v@, j as int, e as nat, max_w as nat, cjk) == trunc_keep(
                v@,
                k as int,
                e as nat,
                max_w as nat,
                cjk,
            ),
        decreases j,
    {
        assert(v@.take(j as int).drop_last() =~= v@.take(j - 1));
        j = j - 1;
        wj = wj - char_width(v[j], cjk);
    }
    let mut r = string_of_range(&v, 0, j);
    assert(v@.subrange(0, j as int) =~= v@.take(j as int));
    if e <= max_w - wj {
        push_char(&mut r, '…');
        assert(r@.drop_last() =~= v@.take(j as int));
    }
    r
}

// ---------------------------------------------------------------------------
// Column widths
// ---------------------------------------------------------------------------

/// The larger of two numbers.
pub open spec fn max_nat(a: nat, b: nat) -> nat {
    if a >= b {
        a
    } else {
        b
    }
}

/// `x`, but at least the narrowest column width.
pub open spec fn at_least_min(x: int) -> nat {
    if x >= TABLE_MIN_COL_WIDTH {
        x as nat
    } else {
        TABLE_MIN_COL_WIDTH as nat
    }
}

/// The widest cell in column `i` of `rows` (rows without such a cell count for nothing).
pub open spec fn column_cells_width(rows: Seq<Seq<Seq<char>>>, i: int, cjk: bool) -> nat
    decreases rows.len(),
{
    if rows.len() == 0 {
        0
    } else {
        let m = column_cells_width(rows.drop_last(), i, cjk);
        if 0 <= i < rows.last().len() {
            max_nat(m, spec_str_width(rows.last()[i], cjk))
        } else {
            m
        }
    }
}

/// The width column `i` asks for: its widest cell, header included, and at least the minimum.
pub open spec fn natural_width(
    headers: Seq<Seq<char>>,
    rows: Seq<Seq<Seq<char>>>,
    i: int,
    cjk: bool,
) -> nat {
    max_nat(
        max_nat(spec_str_width(headers[i], cjk), TABLE_MIN_COL_WIDTH as nat),
        column_cells_width(rows, i, cjk),
    )
}

pub open spec fn natural_widths(headers: Seq<Seq<char>>, rows: Seq<Seq<Seq<char>>>, cjk: bool) -> Seq<nat> {
    Seq::new(headers.len(), |i: int| natural_width(headers, rows, i, cjk))
}

/// The sum of a sequence of numbers.
pub open spec fn sum_nat(s: Seq<nat>) -> nat
    decreases s.len(),
{
    if s.len() == 0 {
        0
    } else {
        sum_nat(s.drop_last()) + s.last()
    }
}

/// How far a width lies above the minimum.
pub open spec fn excess(w: nat) -> nat {
    if w >= TABLE_MIN_COL_WIDTH {
        (w - TABLE_MIN_COL_WIDTH) as nat
    } else {
        0
    }
}

pub open spec fn excesses(s: Seq<nat>) -> Seq<nat> {
    Seq::new(s.len(), |i: int| excess(s[i]))
}

/// A column's share of the shrinking: its excess scaled by `need / total_excess`,
/// rounded down, and never more than the excess.
pub open spec fn shrink_by(e: nat, need: nat, total_excess: nat) -> nat {
    if need >= total_excess {
        e
    } else {
        e * need / total_excess
    }
}

/// The columns taken by borders and padding in a table of `ncols` columns.
pub open spec fn table_overhead(ncols: nat, cjk: bool) -> nat {
    (ncols + 1) * spec_str_width(TABLE_VERTICAL_BORDER@, cjk) + ncols * (TABLE_CELL_PADDING_TOTAL as nat)
}

/// How many of the first `r` steps of a round robin over `n` columns land on column `i`.
pub open spec fn round_robin_hits(r: nat, n: nat, i: int) -> nat {
    r / n + if i < r % n {
        1nat
    } else {
        0nat
    }
}

/// The content width of each column of a table drawn in `max_width` columns.
///
/// Columns keep their natural widths when these fit. When even the minimum width per
/// column does not fit, every column gets the same share (at least the minimum). Otherwise
/// each column gives up a share of its excess in proportion to it, and any columns still
/// too many are taken away one at a time, round robin, down to the minimum.
pub open spec fn spec_col_widths(
    headers: Seq<Seq<char>>,
    rows: Seq<Seq<Seq<char>>>,
    max_width: nat,
    cjk: bool,
) -> Seq<nat> {
    let n = headers.len();
    let natural = natural_widths(headers, rows, cjk);
    let overhead = table_overhead(n, cjk);
    let avail: nat = if max_width >= overhead {
        (max_width - overhead) as nat
    } else {
        0
    };
    let total = sum_nat(natural);
    if total <= avail {
        natural
    } else if avail < n * TABLE_MIN_COL_WIDTH {
        Seq::new(n, |i: int| max_nat(avail / n, TABLE_MIN_COL_WIDTH as nat))
    } else {
        let te = sum_nat(excesses(natural));
        if te == 0 {
            natural
        } else {
            let need = (total - avail) as nat;
            let shrunk = Seq::new(
                n,
                |i: int| (natural[i] - shrink_by(excess(natural[i]), need, te)) as nat,
            );
            let after = sum_nat(shrunk);
            if after > avail {
                let r = (after - avail) as nat;
                Seq::new(n, |i: int| at_least_min(shrunk[i] - round_robin_hits(r, n, i)))
            } else {
                shrunk
            }
        }
    }
}

/// A sequence of `usize` as numbers.
pub open spec fn nats(s: Seq<usize>) -> Seq<nat> {
    Seq::new(s.len(), |i: int| s[i] as nat)
}

/// Every header and cell is short enough for its width to be counted in a `usize`.
pub open spec fn cells_countable(headers: Seq<Seq<char>>, rows: Seq<Seq<Seq<char>>>) -> bool {
    &&& forall|i: int| 0 <= i < headers.len() ==> (#[trigger] headers[i]).len() <= usize::MAX / 3
    &&& forall|r: int, i: int|
        0 <= r < rows.len() && 0 <= i < rows[r].len() ==> (#[trigger] rows[r][i]).len()
            <= usize::MAX / 3
}

proof fn lemma_sum_take(s: Seq<nat>, k: int)
    requires
        0 <= k < s.len(),
    ensures
        sum_nat(s.take(k + 1)) == sum_nat(s.take(k)) + s[k],
{
    assert(s.take(k + 1).drop_last() =~= s.take(k));
}

proof fn lemma_sum_take_le(s: Seq<nat>, k: int)
    requires
        0 <= k <= s.len(),
    ensures
        sum_nat(s.take(k)) <= sum_nat(s),
    decreases s.len() - k,
{
    if k < s.len() {
        lemma_sum_take(s, k);
        lemma_sum_take_le(s, k + 1);
    } else {
        assert(s.take(k) =~= s);
    }
}

proof fn lemma_sum_le(a: Seq<nat>, b: Seq<nat>)
    requires
        a.len() == b.len(),
        forall|i: int| 0 <= i < a.len() ==> a[i] <= b[i],
    ensures
        sum_nat(a) <= sum_nat(b),
    decreases a.len(),
{
    if a.len() > 0 {
        lemma_sum_le(a.drop_last(), b.drop_last());
    }
}

/// Computes the widest cell of each column, header included, into `natural`.
pub(crate) fn natural_col_widths(headers: &Vec<String>, rows: &Vec<Vec<String>>, cjk: bool) -> (natural: Vec<usize>)
    requires
        cells_countable(views(headers@), rows_view(rows@)),
    ensures
        nats(natural@) == natural_widths(views(headers@), rows_view(rows@), cjk),
{
    let ghost hs = views(headers@);
    let ghost rs = rows_view(rows@);
    let mut natural: Vec<usize> = Vec::new();
    let mut i: usize = 0;
    while i < headers.len()
        invariant
            i <= headers@.len(),
            hs == views(headers@),
            rs == rows_view(rows@),
            cells_countable(hs, rs),
            natural@.len() == i,
            forall|j: int|
                0 <= j < i ==> (#[trigger] natural@[j]) as nat == max_nat(
                    spec_str_width(hs[j], cjk),
                    TABLE_MIN_COL_WIDTH as nat,
                ),
        decreases headers@.len() - i,
    {
        assert(hs[i as int] == headers@[i as int]@);
        proof {
            crate::width::lemma_width_bound(hs[i as int], cjk);
        }
        let hw = display_width(headers[i].as_str(), cjk);
        natural.push(if hw > TABLE_MIN_COL_WIDTH { hw } else { TABLE_MIN_COL_WIDTH });
        i = i + 1;
    }
    let mut r: usize = 0;
    while r < rows.len()
        invariant
            r <= rows@.len(),
            hs == views(headers@),
            rs == rows_view(rows@),
            rs.len() == rows@.len(),
            cells_countable(hs, rs),
            natural@.len() == headers@.len(),
            forall|j: int|
                0 <= j < natural@.len() ==> (#[trigger] natural@[j]) as nat == max_nat(
                    max_nat(spec_str_width(hs[j], cjk), TABLE_MIN_COL_WIDTH as nat),
                    column_cells_width(rs.take(r as int), j, cjk),
                ),
        decreases rows@.len() - r,
    {
        let row = &rows[r];
        assert(rs.take(r + 1).drop_last() =~= rs.take(r as int));
        assert(rs[r as int] == views(row@));
        let ghost before = natural@;
        let mut c: usize = 0;
        while c < row.len()
            invariant
                c <= row@.len(),
                r < rows@.len(),
                row == rows@[r as int],
                rs == rows_view(rows@),
                rs[r as int] == views(row@),
                cells_countable(hs, rs),
                natural@.len() == before.len(),
                forall|j: int|
                    0 <= j < natural@.len() ==> (#[trigger] natural@[j]) as nat == if j < c {
                        max_nat(before[j] as nat, spec_str_width(rs[r as int][j], cjk))
                    } else {
                        before[j] as nat
                    },
            decreases row@.len() - c,
        {
            if c < natural.len() {
                assert(rs[r as int][c as int] == row@[c as int]@);
                proof {
                    crate::width::lemma_width_bound(rs[r as int][c as int], cjk);
                }
                let cw = display_width(row[c].as_str(), cjk);
                if cw > natural[c] {
                    natural.set(c, cw);
                }
            }
            c = c + 1;
        }
        r = r + 1;
    }
    assert(rs.take(rows@.len() as int) =~= rs);
    assert(nats(natural@) =~= natural_widths(hs, rs, cjk));
    natural
}

/// The content width of each of the `ncols` columns of a table drawn in `max_width` columns.
pub fn compute_col_widths(
    headers: &Vec<String>,
    rows: &Vec<Vec<String>>,
    max_width: usize,
    ncols: usize,
    cjk: bool,
) -> (widths: Vec<usize>)
    requires
        ncols == headers@.len(),
        cells_countable(views(headers@), rows_view(rows@)),
        sum_nat(natural_widths(views(headers@), rows_view(rows@), cjk)) <= usize::MAX,
        table_overhead(ncols as nat, cjk) <= usize::MAX,
    ensures
        nats(widths@) == spec_col_widths(views(headers@), rows_view(rows@), max_width as nat, cjk),
{
    let ghost hs = views(headers@);
    let ghost rs = rows_view(rows@);
    proof {
        reveal_strlit("│");
        crate::width::lemma_width_bound(TABLE_VERTICAL_BORDER@, cjk);
    }
    let vert_border_w = display_width(TABLE_VERTICAL_BORDER, cjk);
    assert((ncols + 1) * vert_border_w <= table_overhead(ncols as nat, cjk));
    let overhead = (ncols + 1) * vert_border_w + ncols * TABLE_CELL_PADDING_TOTAL;
    let natural = natural_col_widths(headers, rows, cjk);
    let ghost nw = nats(natural@);
    let avail = max_width.saturating_sub(overhead);
    let mut total: usize = 0;
    let mut i: usize = 0;
    while i < natural.len()
        invariant
            i <= natural@.len(),
            nw == nats(natural@),
            sum_nat(nw) <= usize::MAX,
            total as nat == sum_nat(nw.take(i as int)),
        decreases natural@.len() - i,
    {
        proof {
            lemma_sum_take(nw, i as int);
            lemma_sum_take_le(nw, i + 1);
        }
        total = total + natural[i];
        i = i + 1;
    }
    assert(nw.take(natural@.len() as int) =~= nw);
    if total <= avail {
        return natural;
    }
    assert(ncols * TABLE_MIN_COL_WIDTH <= sum_nat(nw)) by {
        let mins = Seq::new(ncols as nat, |j: int| TABLE_MIN_COL_WIDTH as nat);
        lemma_sum_le(mins, nw);
        lemma_sum_const(ncols as nat);
    }
    if avail < ncols * TABLE_MIN_COL_WIDTH {
        let share = avail / ncols;
        let equal = if share > TABLE_MIN_COL_WIDTH { share } else { TABLE_MIN_COL_WIDTH };
        let mut widths: Vec<usize> = Vec::new();
        let mut j: usize = 0;
        while j < ncols
            invariant
                j <= ncols,
                widths@.len() == j,
                forall|m: int| 0 <= m < j ==> #[trigger] widths@[m] == equal,
            decreases ncols - j,
        {
            widths.push(equal);
            j = j + 1;
        }
        assert(nats(widths@) =~= Seq::new(
            ncols as nat,
            |m: int| max_nat(avail as nat / ncols as nat, TABLE_MIN_COL_WIDTH as nat),
        ));
        return widths;
    }
    let ghost ex = excesses(nw);
    let mut total_excess: usize = 0;
    let mut i: usize = 0;
    proof {
        lemma_sum_le(ex, nw);
    }
    while i < natural.len()
        invariant
            i <= natural@.len(),
            nw == nats(natural@),
            ex == excesses(nw),
            sum_nat(ex) <= sum_nat(nw) <= usize::MAX,
            total_excess as nat == sum_nat(ex.take(i as int)),
        decreases natural@.len() - i,
    {
        proof {
            lemma_sum_take(ex, i as int);
            lemma_sum_take_le(ex, i + 1);
        }
        total_excess = total_excess + natural[i].saturating_sub(TABLE_MIN_COL_WIDTH);
        i = i + 1;
    }
    assert(ex.take(natural@.len() as int) =~= ex);
    if total_excess == 0 {
        return natural;
    }
    let need = total - avail;
    assert forall|m: int| 0 <= m < nw.len() implies #[trigger] nw[m] >= TABLE_MIN_COL_WIDTH by {
        assert(nw[m] == natural_width(hs, rs, m, cjk));
    }
    let mut widths: Vec<usize> = Vec::new();
    let mut i: usize = 0;
    while i < natural.len()
        invariant
            i <= natural@.len(),
            nw == nats(natural@),
            widths@.len() == i,
            total_excess > 0,
            total_excess as nat == sum_nat(excesses(nw)),
            need == total - avail,
            forall|m: int| 0 <= m < nw.len() ==> #[trigger] nw[m] >= TABLE_MIN_COL_WIDTH,
            forall|m: int| 0 <= m < i ==> #[trigger] widths@[m] <= natural@[m],
            forall|m: int|
                0 <= m < i ==> (#[trigger] widths@[m]) as nat == (nw[m] - shrink_by(
                    excess(nw[m]),
                    need as nat,
                    total_excess as nat,
                )) as nat && widths@[m] >= TABLE_MIN_COL_WIDTH,
        decreases natural@.len() - i,
    {
        let e = natural[i].saturating_sub(TABLE_MIN_COL_WIDTH);
        let shrink: usize = if need >= total_excess {
            e
        } else {
            proof {
                assert((e as int) * (need as int) <= (usize::MAX as int) * (usize::MAX as int))
                    by (nonlinear_arith)
                    requires
                        e <= usize::MAX,
                        need <= usize::MAX,
                ;
                assert((usize::MAX as int) * (usize::MAX as int) <= u128::MAX) by (nonlinear_arith)
                    requires
                        usize::MAX <= u64::MAX,
                ;
            }
            let p: u128 = (e as u128) * (need as u128) / (total_excess as u128);
            proof {
                let ei = e as int;
                let ni = need as int;
                let ti = total_excess as int;
                vstd::arithmetic::mul::lemma_mul_inequality(ni, ti, ei);
                assert(ni * ei == ei * ni) by (nonlinear_arith);
                assert(ti * ei == ei * ti) by (nonlinear_arith);
                vstd::arithmetic::div_mod::lemma_div_is_ordered(ei * ni, ei * ti, ti);
                assert(ei * ti == ti * ei) by (nonlinear_arith);
                vstd::arithmetic::div_mod::lemma_div_multiples_vanish(ei, ti);
            }
            p as usize
        };
        assert(shrink as nat == shrink_by(excess(nw[i as int]), need as nat, total_excess as nat));
        assert(shrink <= e);
        widths.push(natural[i] - shrink);
        i = i + 1;
    }
    let ghost shrunk = nats(widths@);
    assert(shrunk =~= Seq::new(
        ncols as nat,
        |m: int| (nw[m] - shrink_by(excess(nw[m]), need as nat, total_excess as nat)) as nat,
    ));
    assert forall|m: int| 0 <= m < shrunk.len() implies shrunk[m] <= nw[m] by {
        assert(widths@[m] <= natural@[m]);
    }
    proof {
        lemma_sum_le(shrunk, nw);
    }
    let mut after: usize = 0;
    let mut i: usize = 0;
    while i < widths.len()
        invariant
            i <= widths@.len(),
            shrunk == nats(widths@),
            sum_nat(shrunk) <= usize::MAX,
            after as nat == sum_nat(shrunk.take(i as int)),
        decreases widths@.len() - i,
    {
        proof {
            lemma_sum_take(shrunk, i as int);
            lemma_sum_take_le(shrunk, i + 1);
        }
        after = after + widths[i];
        i = i + 1;
    }
    assert(shrunk.take(widths@.len() as int) =~= shrunk);
    if after > avail {
        let remaining = after - avail;
        let mut i: usize = 0;
        let mut idx: usize = 0;
        let ghost mut q: nat = 0;
        while i < remaining
            invariant
                ncols > 0,
                i <= remaining,
                idx < ncols,
                i == q * ncols + idx,
                widths@.len() == ncols,
                shrunk.len() == ncols,
                forall|m: int|
                    0 <= m < ncols ==> (#[trigger] widths@[m]) as nat == at_least_min(
                        shrunk[m] - (q + if m < idx {
                            1nat
                        } else {
                            0nat
                        }),
                    ),
            decreases remaining - i,
        {
            let cur = widths[idx];
            widths.set(idx, if cur > TABLE_MIN_COL_WIDTH { cur - 1 } else { TABLE_MIN_COL_WIDTH });
            idx = idx + 1;
            if idx == ncols {
                idx = 0;
                proof {
                    assert((q + 1) * ncols == q * ncols + ncols) by (nonlinear_arith);
                    q = q + 1;
                }
            }
            i = i + 1;
        }
        proof {
            vstd::arithmetic::div_mod::lemma_fundamental_div_mod_converse(
                remaining as int,
                ncols as int,
                q as int,
                idx as int,
            );
        }
        assert(nats(widths@) =~= Seq::new(
            ncols as nat,
            |m: int| at_least_min(shrunk[m] - round_robin_hits(remaining as nat, ncols as nat, m)),
        ));
    }
    widths
}

proof fn lemma_sum_const(n: nat)
    ensures
        sum_nat(Seq::new(n, |j: int| TABLE_MIN_COL_WIDTH as nat)) == n * TABLE_MIN_COL_WIDTH,
    decreases n,
{
    if n > 0 {
        lemma_sum_const((n - 1) as nat);
        assert(Seq::new(n, |j: int| TABLE_MIN_COL_WIDTH as nat).drop_last() =~= Seq::new(
            (n - 1) as nat,
            |j: int| TABLE_MIN_COL_WIDTH as nat,
        ));
    }
}

// ---------------------------------------------------------------------------
// Drawing
// ---------------------------------------------------------------------------

/// The horizontal line of a border.
pub open spec fn dash() -> Seq<char> {
    seq!['─']
}

/// The text after the left corner of a border: for each of the first `k` columns, dashes
/// across its content and padding, then the joint (or, after the last column, the corner).
pub open spec fn border_segments(ws: Seq<nat>, k: int, mid: Seq<char>, right: Seq<char>) -> Seq<char>
    decreases k,
{
    if k <= 0 {
        Seq::empty()
    } else {
        border_segments(ws, k - 1, mid, right) + spec_repeat(
            dash(),
            ws[k - 1] + (TABLE_CELL_PADDING_TOTAL as nat),
        ) + if k - 1 < ws.len() - 1 {
            mid
        } else {
            right
        }
    }
}

/// A border line over columns of content widths `ws`.
pub open spec fn spec_border(ws: Seq<nat>, left: Seq<char>, mid: Seq<char>, right: Seq<char>) -> Seq<SpanV> {
    seq![SpanV { content: left + border_segments(ws, ws.len() as int, mid, right), style: SpanStyle::TableBorder }]
}

/// A vertical border span.
pub open spec fn vertical_span() -> SpanV {
    SpanV { content: TABLE_VERTICAL_BORDER@, style: SpanStyle::TableBorder }
}

/// The two spans of a cell of content width `w`: the padded, truncated text, then the
/// spaces that fill the column and the border after it.
pub open spec fn cell_spans(text: Seq<char>, w: nat, style: SpanStyle, cjk: bool) -> Seq<SpanV> {
    let t = spec_truncate(text, w, cjk);
    let tw = spec_str_width(t, cjk);
    let fill: nat = (if w >= tw {
        (w - tw) as nat
    } else {
        0
    }) + (TABLE_CELL_PADDING as nat);
    seq![
        SpanV { content: spec_repeat(seq![' '], TABLE_CELL_PADDING as nat) + t, style },
        SpanV { content: spec_repeat(seq![' '], fill) + TABLE_VERTICAL_BORDER@, style: SpanStyle::TableBorder },
    ]
}

/// The spans of the first `k` cells of a row, column `i` being `ws[i]` wide (or the minimum
/// width past the last column).
pub open spec fn cells_spans(cells: Seq<Seq<char>>, k: int, ws: Seq<nat>, style: SpanStyle, cjk: bool) -> Seq<SpanV>
    decreases k,
{
    if k <= 0 {
        Seq::empty()
    } else {
        let w = if k - 1 < ws.len() {
            ws[k - 1]
        } else {
            TABLE_MIN_COL_WIDTH as nat
        };
        cells_spans(cells, k - 1, ws, style, cjk) + cell_spans(cells[k - 1], w, style, cjk)
    }
}

/// The spans that fill columns `from..to` of a row that has no cells there.
pub open spec fn empty_cells(ws: Seq<nat>, from: int, to: int, style: SpanStyle) -> Seq<SpanV>
    decreases to - from,
{
    if to <= from {
        Seq::empty()
    } else {
        empty_cells(ws, from, to - 1, style) + seq![
            SpanV { content: spec_repeat(seq![' '], (TABLE_CELL_PADDING_TOTAL as nat) + ws[to - 1]), style },
            vertical_span(),
        ]
    }
}

/// The style of data row `ri`: rows alternate, starting with the even style.
pub open spec fn row_style(ri: int) -> SpanStyle {
    if ri % 2 == 0 {
        SpanStyle::TableRowEven
    } else {
        SpanStyle::TableRowOdd
    }
}

/// Data row `ri` of a table with column widths `ws`.
pub open spec fn spec_row_line(row: Seq<Seq<char>>, ri: int, ws: Seq<nat>, cjk: bool) -> Seq<SpanV> {
    seq![vertical_span()] + cells_spans(row, row.len() as int, ws, row_style(ri), cjk) + empty_cells(
        ws,
        row.len() as int,
        ws.len() as int,
        row_style(ri),
    )
}

/// The lines of the first `k` data rows.
pub open spec fn spec_row_lines(rows: Seq<Seq<Seq<char>>>, k: int, ws: Seq<nat>, cjk: bool) -> Seq<Seq<SpanV>>
    decreases k,
{
    if k <= 0 {
        Seq::empty()
    } else {
        spec_row_lines(rows, k - 1, ws, cjk).push(spec_row_line(rows[k - 1], k - 1, ws, cjk))
    }
}

/// The lines of a table drawn in `width` columns: nothing without headers; otherwise
/// the top border, the header row, a separator, one line per data row, the bottom border.
pub open spec fn spec_table_lines(
    headers: Seq<Seq<char>>,
    rows: Seq<Seq<Seq<char>>>,
    width: nat,
    cjk: bool,
) -> Seq<Seq<SpanV>> {
    if headers.len() == 0 {
        Seq::empty()
    } else {
        let ws = spec_col_widths(headers, rows, width, cjk);
        seq![
            spec_border(ws, TABLE_TOP_LEFT@, TABLE_TOP_MID@, TABLE_TOP_RIGHT@),
            seq![vertical_span()] + cells_spans(
                headers,
                headers.len() as int,
                ws,
                SpanStyle::TableHeader,
                cjk,
            ),
            spec_border(ws, TABLE_MID_LEFT@, TABLE_MID_MID@, TABLE_MID_RIGHT@),
        ] + spec_row_lines(rows, rows.len() as int, ws, cjk) + seq![
            spec_border(ws, TABLE_BOTTOM_LEFT@, TABLE_BOTTOM_MID@, TABLE_BOTTOM_RIGHT@),
        ]
    }
}

/// A border line over columns of content widths `col_widths`, with the given left corner,
/// joint and right corner.
pub fn build_table_border(col_widths: &Vec<usize>, corners: (&str, &str, &str)) -> (line: StyledLine)
    requires
        forall|i: int| 0 <= i < col_widths@.len() ==> #[trigger] col_widths@[i] <= usize::MAX - 2,
    ensures
        line@ == spec_border(nats(col_widths@), corners.0@, corners.1@, corners.2@),
{
    let ghost ws = nats(col_widths@);
    let mut s = String::new();
    push_str(&mut s, corners.0);
    let mut i: usize = 0;
    while i < col_widths.len()
        invariant
            i <= col_widths@.len(),
            ws == nats(col_widths@),
            forall|j: int| 0 <= j < col_widths@.len() ==> #[trigger] col_widths@[j] <= usize::MAX - 2,
            s@ == corners.0@ + border_segments(ws, i as int, corners.1@, corners.2@),
        decreases col_widths@.len() - i,
    {
        proof {
            reveal_strlit("─");
            assert("─"@ =~= dash());
        }
        let ghost prev = s@;
        let dashes = repeat_str("─", col_widths[i] + TABLE_CELL_PADDING_TOTAL);
        push_str(&mut s, dashes.as_str());
        if i < col_widths.len() - 1 {
            push_str(&mut s, corners.1);
        } else {
            push_str(&mut s, corners.2);
        }
        assert(ws[i as int] + (TABLE_CELL_PADDING_TOTAL as nat) == col_widths@[i as int] + TABLE_CELL_PADDING_TOTAL);
        assert(s@ =~= corners.0@ + border_segments(ws, i + 1, corners.1@, corners.2@));
        i = i + 1;
    }
    StyledLine::from_span(s, SpanStyle::TableBorder)
}

/// A span of `text` in `style`.
fn span_of(text: &str, style: SpanStyle) -> (s: StyledSpan)
    ensures
        s@ == (SpanV { content: text@, style }),
{
    let mut content = String::new();
    push_str(&mut content, text);
    StyledSpan { content, style }
}

/// Appends the two spans of a cell of content width `w` to `spans`.
fn push_cell(spans: &mut Vec<StyledSpan>, text: &str, w: usize, style: SpanStyle, cjk: bool)
    requires
        w < usize::MAX,
    ensures
        views(final(spans)@) == views(old(spans)@) + cell_spans(text@, w as nat, style, cjk),
{
    let content = truncate_text(text, w, cjk);
    let content_width = display_width(content.as_str(), cjk);
    let mut first = repeat_str(" ", TABLE_CELL_PADDING);
    push_str(&mut first, content.as_str());
    let mut second = repeat_str(" ", w.saturating_sub(content_width) + TABLE_CELL_PADDING);
    push_str(&mut second, TABLE_VERTICAL_BORDER);
    proof {
        reveal_strlit(" ");
        assert(" "@ =~= seq![' ']);
    }
    let ghost before = views(spans@);
    let ghost old_spans = spans@;
    let a = StyledSpan { content: first, style };
    let b = StyledSpan { content: second, style: SpanStyle::TableBorder };
    proof {
        lemma_views_push(old_spans, a);
        lemma_views_push(old_spans.push(a), b);
    }
    spans.push(a);
    spans.push(b);
    assert(views(spans@) =~= before + cell_spans(text@, w as nat, style, cjk));
}


/// The spans of a table row: a border, each cell, and the empty columns past the last cell.
fn table_row(cells: &Vec<String>, col_widths: &Vec<usize>, style: SpanStyle, cjk: bool) -> (line: StyledLine)
    requires
        forall|i: int| 0 <= i < col_widths@.len() ==> #[trigger] col_widths@[i] <= usize::MAX - 2,
    ensures
        line@ == seq![vertical_span()] + cells_spans(
            views(cells@),
            cells@.len() as int,
            nats(col_widths@),
            style,
            cjk,
        ) + empty_cells(nats(col_widths@), cells@.len() as int, col_widths@.len() as int, style),
{
    let ghost ws = nats(col_widths@);
    let ghost cs = views(cells@);
    let mut spans: Vec<StyledSpan> = Vec::new();
    spans.push(span_of(TABLE_VERTICAL_BORDER, SpanStyle::TableBorder));
    assert(views(spans@) =~= seq![vertical_span()]);
    let mut i: usize = 0;
    while i < cells.len()
        invariant
            i <= cells@.len(),
            ws == nats(col_widths@),
            cs == views(cells@),
            forall|j: int| 0 <= j < col_widths@.len() ==> #[trigger] col_widths@[j] <= usize::MAX - 2,
            views(spans@) == seq![vertical_span()] + cells_spans(cs, i as int, ws, style, cjk),
        decreases cells@.len() - i,
    {
        let w = if i < col_widths.len() {
            col_widths[i]
        } else {
            TABLE_MIN_COL_WIDTH
        };
        let ghost prev = views(spans@);
        push_cell(&mut spans, cells[i].as_str(), w, style, cjk);
        assert(cs[i as int] == cells@[i as int]@);
        assert(views(spans@) =~= seq![vertical_span()] + cells_spans(cs, i + 1, ws, style, cjk));
        i = i + 1;
    }
    let ghost with_cells = views(spans@);
    let mut j: usize = cells.len();
    while j < col_widths.len()
        invariant
            cells@.len() <= j <= col_widths@.len() || (j == cells@.len() && j >= col_widths@.len()),
            ws == nats(col_widths@),
            forall|m: int| 0 <= m < col_widths@.len() ==> #[trigger] col_widths@[m] <= usize::MAX - 2,
            views(spans@) == with_cells + empty_cells(ws, cells@.len() as int, j as int, style),
        decreases col_widths@.len() - j,
    {
        proof {
            reveal_strlit(" ");
            assert(" "@ =~= seq![' ']);
        }
        let blank = repeat_str(" ", TABLE_CELL_PADDING_TOTAL + col_widths[j]);
        let a = StyledSpan { content: blank, style };
        let b = span_of(TABLE_VERTICAL_BORDER, SpanStyle::TableBorder);
        let ghost prev = spans@;
        proof {
            lemma_views_push(prev, a);
            lemma_views_push(prev.push(a), b);
        }
        spans.push(a);
        spans.push(b);
        assert(views(spans@) =~= with_cells + empty_cells(ws, cells@.len() as int, j + 1, style));
        j = j + 1;
    }
    if cells.len() >= col_widths.len() {
        assert(empty_cells(ws, cells@.len() as int, col_widths@.len() as int, style) == Seq::<SpanV>::empty());
        assert(views(spans@) =~= with_cells);
    }
    StyledLine { spans }
}

proof fn lemma_elem_le_sum(s: Seq<nat>, i: int)
    requires
        0 <= i < s.len(),
    ensures
        s[i] <= sum_nat(s),
    decreases s.len(),
{
    if i < s.len() - 1 {
        lemma_elem_le_sum(s.drop_last(), i);
    }
}

proof fn lemma_shrink_le(e: nat, need: nat, te: nat)
    requires
        te > 0,
    ensures
        shrink_by(e, need, te) <= e,
{
    if need < te {
        let ei = e as int;
        let ni = need as int;
        let ti = te as int;
        vstd::arithmetic::mul::lemma_mul_inequality(ni, ti, ei);
        assert(ni * ei == ei * ni) by (nonlinear_arith);
        assert(ti * ei == ei * ti) by (nonlinear_arith);
        vstd::arithmetic::div_mod::lemma_div_is_ordered(ei * ni, ei * ti, ti);
        assert(ei * ti == ti * ei) by (nonlinear_arith);
        vstd::arithmetic::div_mod::lemma_div_multiples_vanish(ei, ti);
    }
}

/// No column is wider than the natural widths together, or than the table (or the minimum).
pub proof fn lemma_col_widths_bound(
    headers: Seq<Seq<char>>,
    rows: Seq<Seq<Seq<char>>>,
    width: nat,
    cjk: bool,
)
    ensures
        spec_col_widths(headers, rows, width, cjk).len() == headers.len(),
        forall|i: int|
            0 <= i < headers.len() ==> #[trigger] spec_col_widths(headers, rows, width, cjk)[i]
                <= max_nat(sum_nat(natural_widths(headers, rows, cjk)), max_nat(width, TABLE_MIN_COL_WIDTH as nat)),
{
    let n = headers.len();
    let natural = natural_widths(headers, rows, cjk);
    let total = sum_nat(natural);
    let bound = max_nat(total, max_nat(width, TABLE_MIN_COL_WIDTH as nat));
    let ws = spec_col_widths(headers, rows, width, cjk);
    assert forall|i: int| 0 <= i < n implies #[trigger] ws[i] <= bound by {
        lemma_elem_le_sum(natural, i);
        assert(natural[i] == natural_width(headers, rows, i, cjk));
        let overhead = table_overhead(n, cjk);
        let avail: nat = if width >= overhead {
            (width - overhead) as nat
        } else {
            0
        };
        if n > 0 {
            vstd::arithmetic::div_mod::lemma_div_is_ordered_by_denominator(avail as int, 1, n as int);
        }
        let te = sum_nat(excesses(natural));
        if te > 0 {
            lemma_shrink_le(excess(natural[i]), (total - avail) as nat, te);
        }
    }
}

/// The top border of a table.
pub fn table_top_border(col_widths: &Vec<usize>) -> (line: StyledLine)
    requires
        forall|i: int| 0 <= i < col_widths@.len() ==> #[trigger] col_widths@[i] <= usize::MAX - 2,
    ensures
        line@ == spec_border(nats(col_widths@), TABLE_TOP_LEFT@, TABLE_TOP_MID@, TABLE_TOP_RIGHT@),
{
    build_table_border(col_widths, (TABLE_TOP_LEFT, TABLE_TOP_MID, TABLE_TOP_RIGHT))
}

/// The line between the header row and the data rows.
pub fn table_separator(col_widths: &Vec<usize>) -> (line: StyledLine)
    requires
        forall|i: int| 0 <= i < col_widths@.len() ==> #[trigger] col_widths@[i] <= usize::MAX - 2,
    ensures
        line@ == spec_border(nats(col_widths@), TABLE_MID_LEFT@, TABLE_MID_MID@, TABLE_MID_RIGHT@),
{
    build_table_border(col_widths, (TABLE_MID_LEFT, TABLE_MID_MID, TABLE_MID_RIGHT))
}

/// The bottom border of a table.
pub fn table_bottom_border(col_widths: &Vec<usize>) -> (line: StyledLine)
    requires
        forall|i: int| 0 <= i < col_widths@.len() ==> #[trigger] col_widths@[i] <= usize::MAX - 2,
    ensures
        line@ == spec_border(
            nats(col_widths@),
            TABLE_BOTTOM_LEFT@,
            TABLE_BOTTOM_MID@,
            TABLE_BOTTOM_RIGHT@,
        ),
{
    build_table_border(col_widths, (TABLE_BOTTOM_LEFT, TABLE_BOTTOM_MID, TABLE_BOTTOM_RIGHT))
}

/// Cell widths and column sums of a table fit in a `usize`.
pub open spec fn table_ok(headers: Seq<Seq<char>>, rows: Seq<Seq<Seq<char>>>, cjk: bool) -> bool {
    &&& cells_countable(headers, rows)
    &&& sum_nat(natural_widths(headers, rows, cjk)) <= usize::MAX - 2
    &&& table_overhead(headers.len(), cjk) <= usize::MAX
}

/// The requirements for drawing a table in `width` columns.
pub open spec fn table_fits(
    headers: Seq<Seq<char>>,
    rows: Seq<Seq<Seq<char>>>,
    width: nat,
    cjk: bool,
) -> bool {
    &&& table_ok(headers, rows, cjk)
    &&& width <= usize::MAX - 2
}

/// Appends the lines of a table drawn in `width` columns to `lines`.
pub fn render_table(
    lines: &mut Vec<StyledLine>,
    headers: &Vec<String>,
    rows: &Vec<Vec<String>>,
    width: usize,
    cjk: bool,
)
    requires
        table_fits(views(headers@), rows_view(rows@), width as nat, cjk),
    ensures
        views(final(lines)@) == views(old(lines)@) + spec_table_lines(
            views(headers@),
            rows_view(rows@),
            width as nat,
            cjk,
        ),
{
    let ghost hs = views(headers@);
    let ghost rs = rows_view(rows@);
    let ghost start = views(lines@);
    if headers.len() == 0 {
        assert(views(lines@) =~= start + spec_table_lines(hs, rs, width as nat, cjk));
        return;
    }
    let ncols = headers.len();
    let col_widths = compute_col_widths(headers, rows, width, ncols, cjk);
    let ghost ws = nats(col_widths@);
    proof {
        lemma_col_widths_bound(hs, rs, width as nat, cjk);
        assert forall|i: int| 0 <= i < col_widths@.len() implies #[trigger] col_widths@[i] <= usize::MAX - 2 by {
            assert(ws[i] == col_widths@[i] as nat);
        }
    }
    let top = table_top_border(&col_widths);
    let header = table_row(headers, &col_widths, SpanStyle::TableHeader, cjk);
    let sep = table_separator(&col_widths);
    proof {
        assert(empty_cells(ws, ncols as int, ncols as int, SpanStyle::TableHeader) == Seq::<SpanV>::empty());
        lemma_views_push(lines@, top);
        lemma_views_push(lines@.push(top), header);
        lemma_views_push(lines@.push(top).push(header), sep);
    }
    lines.push(top);
    lines.push(header);
    lines.push(sep);
    let ghost head = views(lines@);
    assert(header@ =~= seq![vertical_span()] + cells_spans(hs, hs.len() as int, ws, SpanStyle::TableHeader, cjk));
    let mut ri: usize = 0;
    while ri < rows.len()
        invariant
            ri <= rows@.len(),
            rs == rows_view(rows@),
            ws == nats(col_widths@),
            col_widths@.len() == ncols,
            forall|i: int| 0 <= i < col_widths@.len() ==> #[trigger] col_widths@[i] <= usize::MAX - 2,
            views(lines@) == head + spec_row_lines(rs, ri as int, ws, cjk),
        decreases rows@.len() - ri,
    {
        let style = if ri % 2 == 0 {
            SpanStyle::TableRowEven
        } else {
            SpanStyle::TableRowOdd
        };
        let line = table_row(&rows[ri], &col_widths, style, cjk);
        assert(rs[ri as int] == views(rows@[ri as int]@));
        proof {
            lemma_views_push(lines@, line);
        }
        lines.push(line);
        assert(views(lines@) =~= head + spec_row_lines(rs, ri + 1, ws, cjk));
        ri = ri + 1;
    }
    let bottom = table_bottom_border(&col_widths);
    proof {
        lemma_views_push(lines@, bottom);
    }
    lines.push(bottom);
    assert(views(lines@) =~= start + spec_table_lines(hs, rs, width as nat, cjk));
}


// ---------------------------------------------------------------------------
// Every line of a table is equally wide
// ---------------------------------------------------------------------------

/// The columns `from..to` of a table with content widths `ws`, each with its padding and
/// the border after it.
pub open spec fn columns_width(ws: Seq<nat>, from: int, to: int) -> nat
    decreases to - from,
{
    if to <= from {
        0
    } else {
        columns_width(ws, from, to - 1) + ws[to - 1] + (TABLE_CELL_PADDING_TOTAL as nat) + 1
    }
}

/// The border characters that a table is drawn with are each one column wide.
pub open spec fn table_borders_narrow(cjk: bool) -> bool {
    &&& spec_str_width(dash(), cjk) == 1
    &&& spec_str_width(TABLE_VERTICAL_BORDER@, cjk) == 1
    &&& spec_str_width(TABLE_TOP_LEFT@, cjk) == 1
    &&& spec_str_width(TABLE_TOP_MID@, cjk) == 1
    &&& spec_str_width(TABLE_TOP_RIGHT@, cjk) == 1
    &&& spec_str_width(TABLE_MID_LEFT@, cjk) == 1
    &&& spec_str_width(TABLE_MID_MID@, cjk) == 1
    &&& spec_str_width(TABLE_MID_RIGHT@, cjk) == 1
    &&& spec_str_width(TABLE_BOTTOM_LEFT@, cjk) == 1
    &&& spec_str_width(TABLE_BOTTOM_MID@, cjk) == 1
    &&& spec_str_width(TABLE_BOTTOM_RIGHT@, cjk) == 1
}

/// Whether the table borders are one column wide in this width mode; outside CJK mode
/// they always are.
pub fn table_borders_are_narrow(cjk: bool) -> (b: bool)
    ensures
        b == table_borders_narrow(cjk),
        !cjk ==> b,
{
    proof {
        reveal_strlit("│");
        reveal_strlit("╭");
        reveal_strlit("┬");
        reveal_strlit("╮");
        reveal_strlit("├");
        reveal_strlit("┼");
        reveal_strlit("┤");
        reveal_strlit("╰");
        reveal_strlit("┴");
        reveal_strlit("╯");
    }
    let w0 = char_width('─', cjk);
    let w1 = char_width('│', cjk);
    let w2 = char_width('╭', cjk);
    let w3 = char_width('┬', cjk);
    let w4 = char_width('╮', cjk);
    let w5 = char_width('├', cjk);
    let w6 = char_width('┼', cjk);
    let w7 = char_width('┤', cjk);
    let w8 = char_width('╰', cjk);
    let w9 = char_width('┴', cjk);
    let w10 = char_width('╯', cjk);
    proof {
        assert(spec_str_width(Seq::<char>::empty(), cjk) == 0);
        assert forall|c: char| #[trigger] spec_str_width(seq![c], cjk) == spec_char_width(c, cjk) by {
            assert(seq![c].drop_last() =~= Seq::<char>::empty());
            assert(seq![c].last() == c);
            assert(spec_str_width(seq![c], cjk) == spec_str_width(seq![c].drop_last(), cjk) + spec_char_width(seq![c].last(), cjk));
        }
        assert(TABLE_VERTICAL_BORDER@ =~= seq!['│']);
        assert(TABLE_TOP_LEFT@ =~= seq!['╭']);
        assert(TABLE_TOP_MID@ =~= seq!['┬']);
        assert(TABLE_TOP_RIGHT@ =~= seq!['╮']);
        assert(TABLE_MID_LEFT@ =~= seq!['├']);
        assert(TABLE_MID_MID@ =~= seq!['┼']);
        assert(TABLE_MID_RIGHT@ =~= seq!['┤']);
        assert(TABLE_BOTTOM_LEFT@ =~= seq!['╰']);
        assert(TABLE_BOTTOM_MID@ =~= seq!['┴']);
        assert(TABLE_BOTTOM_RIGHT@ =~= seq!['╯']);
        assert(spec_str_width(dash(), cjk) == spec_char_width('─', cjk));
        assert(spec_str_width(seq!['│'], cjk) == spec_char_width('│', cjk));
        assert(spec_str_width(seq!['╭'], cjk) == spec_char_width('╭', cjk));
        assert(spec_str_width(seq!['┬'], cjk) == spec_char_width('┬', cjk));
        assert(spec_str_width(seq!['╮'], cjk) == spec_char_width('╮', cjk));
        assert(spec_str_width(seq!['├'], cjk) == spec_char_width('├', cjk));
        assert(spec_str_width(seq!['┼'], cjk) == spec_char_width('┼', cjk));
        assert(spec_str_width(seq!['┤'], cjk) == spec_char_width('┤', cjk));
        assert(spec_str_width(seq!['╰'], cjk) == spec_char_width('╰', cjk));
        assert(spec_str_width(seq!['┴'], cjk) == spec_char_width('┴', cjk));
        assert(spec_str_width(seq!['╯'], cjk) == spec_char_width('╯', cjk));
    }
    w0 == 1 && w1 == 1 && w2 == 1 && w3 == 1 && w4 == 1 && w5 == 1 && w6 == 1 && w7 == 1 && w8 == 1 && w9 == 1
        && w10 == 1
}

proof fn lemma_line_text_concat(a: Seq<SpanV>, b: Seq<SpanV>)
    ensures
        crate::renderer::line_text(a + b) == crate::renderer::line_text(a) + crate::renderer::line_text(b),
    decreases b.len(),
{
    if b.len() == 0 {
        assert(a + b =~= a);
        assert(crate::renderer::line_text(a) + Seq::<char>::empty() =~= crate::renderer::line_text(a));
    } else {
        lemma_line_text_concat(a, b.drop_last());
        assert((a + b).drop_last() =~= a + b.drop_last());
        assert((a + b).last() == b.last());
        assert(crate::renderer::line_text(a) + (crate::renderer::line_text(b.drop_last()) + b.last().content)
            =~= (crate::renderer::line_text(a) + crate::renderer::line_text(b.drop_last())) + b.last().content);
    }
}

proof fn lemma_line_text_single(x: SpanV)
    ensures
        crate::renderer::line_text(seq![x]) == x.content,
{
    let l = seq![x];
    assert(l.drop_last() =~= Seq::<SpanV>::empty());
    assert(l.last() == x);
    assert(crate::renderer::line_text(l.drop_last()) == Seq::<char>::empty());
    assert(Seq::<char>::empty() + x.content =~= x.content);
}

proof fn lemma_line_text_pair(x: SpanV, y: SpanV)
    ensures
        crate::renderer::line_text(seq![x, y]) == x.content + y.content,
{
    assert(seq![x, y] =~= seq![x] + seq![y]);
    lemma_line_text_concat(seq![x], seq![y]);
    lemma_line_text_single(x);
    lemma_line_text_single(y);
}

proof fn lemma_repeat_width(s: Seq<char>, n: nat, cjk: bool)
    ensures
        spec_str_width(spec_repeat(s, n), cjk) == n * spec_str_width(s, cjk),
    decreases n,
{
    if n == 0 {
        assert(n * spec_str_width(s, cjk) == 0) by (nonlinear_arith)
            requires
                n == 0,
        ;
    } else {
        let m = (n - 1) as nat;
        lemma_repeat_width(s, m, cjk);
        crate::width::lemma_width_concat(spec_repeat(s, m), s, cjk);
        let w = spec_str_width(s, cjk);
        assert(n * w == m * w + w) by (nonlinear_arith)
            requires
                n == m + 1,
        ;
    }
}

proof fn lemma_space_width(cjk: bool)
    ensures
        spec_str_width(seq![' '], cjk) == 1,
{
    let l = seq![' '];
    assert(l.drop_last() =~= Seq::<char>::empty());
    assert(l.last() == ' ');
    assert(spec_char_width(' ', cjk) == 1);
    assert(spec_str_width(Seq::<char>::empty(), cjk) == 0);
    assert(spec_str_width(l, cjk) == spec_str_width(l.drop_last(), cjk) + spec_char_width(l.last(), cjk));
}

pub proof fn lemma_truncate_width(s: Seq<char>, max: nat, cjk: bool)
    ensures
        spec_str_width(spec_truncate(s, max, cjk), cjk) <= max,
{
    if max > 0 {
        assert(s.take(0) =~= Seq::<char>::empty());
        lemma_fit_count_width(s, 0, 0, max, cjk);
        lemma_fit_count_range(s, 0, 0, max, cjk);
        let k = fit_count(s, 0, 0, max, cjk);
        if k >= s.len() {
            assert(s.take(k) =~= s);
        } else {
            let e = spec_char_width('…', cjk);
            lemma_trunc_keep(s, k, e, max, cjk);
            let j = trunc_keep(s, k, e, max, cjk);
            if spec_str_width(s.take(j), cjk) + e <= max {
                assert(s.take(j).push('…').drop_last() =~= s.take(j));
            } else {
                assert(s.take(j) =~= Seq::<char>::empty());
            }
        }
    }
}

proof fn lemma_fit_count_all(s: Seq<char>, k: int, w: nat, max: nat, cjk: bool)
    requires
        0 <= k <= s.len(),
        w == spec_str_width(s.take(k), cjk),
        spec_str_width(s, cjk) <= max,
    ensures
        fit_count(s, k, w, max, cjk) == s.len(),
    decreases s.len() - k,
{
    if k < s.len() {
        assert(s.take(k + 1).drop_last() =~= s.take(k));
        crate::width::lemma_width_prefix(s, k + 1, cjk);
        lemma_fit_count_all(s, k + 1, w + spec_char_width(s[k], cjk), max, cjk);
    }
}

/// A text that already fits is left as it is.
pub proof fn law_truncate_keeps_fitting_text(s: Seq<char>, max: nat, cjk: bool)
    requires
        max > 0,
        spec_str_width(s, cjk) <= max,
    ensures
        spec_truncate(s, max, cjk) == s,
{
    assert(s.take(0) =~= Seq::<char>::empty());
    lemma_fit_count_all(s, 0, 0, max, cjk);
}

proof fn lemma_border_segments_width(ws: Seq<nat>, k: int, mid: Seq<char>, right: Seq<char>, cjk: bool)
    requires
        0 <= k <= ws.len(),
        spec_str_width(dash(), cjk) == 1,
        spec_str_width(mid, cjk) == 1,
        spec_str_width(right, cjk) == 1,
    ensures
        spec_str_width(border_segments(ws, k, mid, right), cjk) == columns_width(ws, 0, k),
    decreases k,
{
    if k > 0 {
        lemma_border_segments_width(ws, k - 1, mid, right, cjk);
        let d = spec_repeat(dash(), ws[k - 1] + (TABLE_CELL_PADDING_TOTAL as nat));
        let j = if k - 1 < ws.len() - 1 { mid } else { right };
        lemma_repeat_width(dash(), ws[k - 1] + (TABLE_CELL_PADDING_TOTAL as nat), cjk);
        crate::width::lemma_width_concat(border_segments(ws, k - 1, mid, right), d, cjk);
        crate::width::lemma_width_concat(border_segments(ws, k - 1, mid, right) + d, j, cjk);
    }
}

proof fn lemma_border_width(ws: Seq<nat>, left: Seq<char>, mid: Seq<char>, right: Seq<char>, cjk: bool)
    requires
        spec_str_width(dash(), cjk) == 1,
        spec_str_width(left, cjk) == 1,
        spec_str_width(mid, cjk) == 1,
        spec_str_width(right, cjk) == 1,
    ensures
        crate::renderer::line_width(spec_border(ws, left, mid, right), cjk) == 1 + columns_width(ws, 0, ws.len() as int),
{
    lemma_line_text_single(SpanV { content: left + border_segments(ws, ws.len() as int, mid, right), style: SpanStyle::TableBorder });
    lemma_border_segments_width(ws, ws.len() as int, mid, right, cjk);
    crate::width::lemma_width_concat(left, border_segments(ws, ws.len() as int, mid, right), cjk);
}

proof fn lemma_cell_width(text: Seq<char>, w: nat, style: SpanStyle, cjk: bool)
    requires
        spec_str_width(TABLE_VERTICAL_BORDER@, cjk) == 1,
    ensures
        spec_str_width(crate::renderer::line_text(cell_spans(text, w, style, cjk)), cjk)
            == w + (TABLE_CELL_PADDING_TOTAL as nat) + 1,
{
    let t = spec_truncate(text, w, cjk);
    let tw = spec_str_width(t, cjk);
    lemma_truncate_width(text, w, cjk);
    let fill: nat = (w - tw) as nat + (TABLE_CELL_PADDING as nat);
    let a = spec_repeat(seq![' '], TABLE_CELL_PADDING as nat) + t;
    let b = spec_repeat(seq![' '], fill) + TABLE_VERTICAL_BORDER@;
    lemma_line_text_pair(SpanV { content: a, style }, SpanV { content: b, style: SpanStyle::TableBorder });
    lemma_space_width(cjk);
    lemma_repeat_width(seq![' '], TABLE_CELL_PADDING as nat, cjk);
    lemma_repeat_width(seq![' '], fill, cjk);
    crate::width::lemma_width_concat(spec_repeat(seq![' '], TABLE_CELL_PADDING as nat), t, cjk);
    crate::width::lemma_width_concat(spec_repeat(seq![' '], fill), TABLE_VERTICAL_BORDER@, cjk);
    crate::width::lemma_width_concat(a, b, cjk);
    assert(cell_spans(text, w, style, cjk) == seq![SpanV { content: a, style }, SpanV { content: b, style: SpanStyle::TableBorder }]);
    assert(spec_str_width(a, cjk) == 1 + tw);
    assert(fill * spec_str_width(seq![' '], cjk) == fill) by (nonlinear_arith)
        requires
            spec_str_width(seq![' '], cjk) == 1,
    ;
    assert(spec_str_width(b, cjk) == fill + 1);
}

proof fn lemma_cells_width(cells: Seq<Seq<char>>, k: int, ws: Seq<nat>, style: SpanStyle, cjk: bool)
    requires
        0 <= k <= ws.len(),
        spec_str_width(TABLE_VERTICAL_BORDER@, cjk) == 1,
    ensures
        crate::renderer::line_width(cells_spans(cells, k, ws, style, cjk), cjk) == columns_width(ws, 0, k),
    decreases k,
{
    if k > 0 {
        lemma_cells_width(cells, k - 1, ws, style, cjk);
        let prev = cells_spans(cells, k - 1, ws, style, cjk);
        let c = cell_spans(cells[k - 1], ws[k - 1], style, cjk);
        lemma_line_text_concat(prev, c);
        lemma_cell_width(cells[k - 1], ws[k - 1], style, cjk);
        crate::width::lemma_width_concat(crate::renderer::line_text(prev), crate::renderer::line_text(c), cjk);
    }
}

proof fn lemma_empty_cells_width(ws: Seq<nat>, from: int, to: int, style: SpanStyle, cjk: bool)
    requires
        0 <= from,
        to <= ws.len(),
        spec_str_width(TABLE_VERTICAL_BORDER@, cjk) == 1,
    ensures
        crate::renderer::line_width(empty_cells(ws, from, to, style), cjk) == columns_width(ws, from, to),
    decreases to - from,
{
    if to > from {
        lemma_empty_cells_width(ws, from, to - 1, style, cjk);
        let prev = empty_cells(ws, from, to - 1, style);
        let sp = spec_repeat(seq![' '], (TABLE_CELL_PADDING_TOTAL as nat) + ws[to - 1]);
        let pair = seq![SpanV { content: sp, style }, vertical_span()];
        lemma_line_text_concat(prev, pair);
        lemma_line_text_pair(SpanV { content: sp, style }, vertical_span());
        lemma_space_width(cjk);
        lemma_repeat_width(seq![' '], (TABLE_CELL_PADDING_TOTAL as nat) + ws[to - 1], cjk);
        crate::width::lemma_width_concat(sp, TABLE_VERTICAL_BORDER@, cjk);
        crate::width::lemma_width_concat(crate::renderer::line_text(prev), crate::renderer::line_text(pair), cjk);
    }
}

proof fn lemma_columns_split(ws: Seq<nat>, m: int, n: int)
    requires
        0 <= m <= n,
    ensures
        columns_width(ws, 0, m) + columns_width(ws, m, n) == columns_width(ws, 0, n),
    decreases n - m,
{
    if n > m {
        lemma_columns_split(ws, m, n - 1);
    }
}

proof fn lemma_bar_then(rest: Seq<SpanV>, cjk: bool)
    requires
        spec_str_width(TABLE_VERTICAL_BORDER@, cjk) == 1,
    ensures
        crate::renderer::line_width(seq![vertical_span()] + rest, cjk) == 1 + crate::renderer::line_width(rest, cjk),
{
    lemma_line_text_concat(seq![vertical_span()], rest);
    lemma_line_text_single(vertical_span());
    crate::width::lemma_width_concat(TABLE_VERTICAL_BORDER@, crate::renderer::line_text(rest), cjk);
}

proof fn lemma_row_lines_width(rows: Seq<Seq<Seq<char>>>, k: int, ws: Seq<nat>, cjk: bool)
    requires
        0 <= k <= rows.len(),
        forall|r: int| 0 <= r < rows.len() ==> #[trigger] rows[r].len() <= ws.len(),
        spec_str_width(TABLE_VERTICAL_BORDER@, cjk) == 1,
    ensures
        spec_row_lines(rows, k, ws, cjk).len() == k,
        forall|i: int| 0 <= i < k ==> crate::renderer::line_width(#[trigger] spec_row_lines(rows, k, ws, cjk)[i], cjk)
            == 1 + columns_width(ws, 0, ws.len() as int),
    decreases k,
{
    if k > 0 {
        lemma_row_lines_width(rows, k - 1, ws, cjk);
        let row = rows[k - 1];
        let st = row_style(k - 1);
        let cells = cells_spans(row, row.len() as int, ws, st, cjk);
        let empties = empty_cells(ws, row.len() as int, ws.len() as int, st);
        assert(seq![vertical_span()] + cells + empties =~= seq![vertical_span()] + (cells + empties));
        lemma_bar_then(cells + empties, cjk);
        lemma_line_text_concat(cells, empties);
        lemma_cells_width(row, row.len() as int, ws, st, cjk);
        lemma_empty_cells_width(ws, row.len() as int, ws.len() as int, st, cjk);
        crate::width::lemma_width_concat(crate::renderer::line_text(cells), crate::renderer::line_text(empties), cjk);
        lemma_columns_split(ws, row.len() as int, ws.len() as int);
    }
}

/// A table has one line per data row between its borders.
pub proof fn lemma_table_lines_len(headers: Seq<Seq<char>>, rows: Seq<Seq<Seq<char>>>, width: nat, cjk: bool)
    ensures
        spec_table_lines(headers, rows, width, cjk).len() == if headers.len() == 0 {
            0
        } else {
            rows.len() + 4
        },
{
    if headers.len() > 0 {
        lemma_row_lines_len(rows, rows.len() as int, spec_col_widths(headers, rows, width, cjk), cjk);
    }
}

proof fn lemma_row_lines_len(rows: Seq<Seq<Seq<char>>>, k: int, ws: Seq<nat>, cjk: bool)
    requires
        0 <= k,
    ensures
        spec_row_lines(rows, k, ws, cjk).len() == k,
    decreases k,
{
    if k > 0 {
        lemma_row_lines_len(rows, k - 1, ws, cjk);
    }
}

/// Every line of a drawn table is as wide as the others: one column for the left border,
/// then each column's content, padding and border. This holds where the box-drawing
/// characters are one column wide (always outside CJK mode, as
/// [`table_borders_are_narrow`] shows) and no row has more cells than the header.
pub proof fn law_table_lines_equal_width(
    headers: Seq<Seq<char>>,
    rows: Seq<Seq<Seq<char>>>,
    width: nat,
    cjk: bool,
)
    requires
        table_borders_narrow(cjk),
        forall|r: int| 0 <= r < rows.len() ==> #[trigger] rows[r].len() <= headers.len(),
    ensures
        forall|i: int| 0 <= i < spec_table_lines(headers, rows, width, cjk).len()
            ==> crate::renderer::line_width(#[trigger] spec_table_lines(headers, rows, width, cjk)[i], cjk)
                == 1 + columns_width(
                spec_col_widths(headers, rows, width, cjk),
                0,
                headers.len() as int,
            ),
{
    if headers.len() > 0 {
        let ws = spec_col_widths(headers, rows, width, cjk);
        lemma_col_widths_bound(headers, rows, width, cjk);
        let lines = spec_table_lines(headers, rows, width, cjk);
        let top = spec_border(ws, TABLE_TOP_LEFT@, TABLE_TOP_MID@, TABLE_TOP_RIGHT@);
        let head = seq![vertical_span()] + cells_spans(headers, headers.len() as int, ws, SpanStyle::TableHeader, cjk);
        let sep = spec_border(ws, TABLE_MID_LEFT@, TABLE_MID_MID@, TABLE_MID_RIGHT@);
        let body = spec_row_lines(rows, rows.len() as int, ws, cjk);
        let bottom = spec_border(ws, TABLE_BOTTOM_LEFT@, TABLE_BOTTOM_MID@, TABLE_BOTTOM_RIGHT@);
        let full = 1 + columns_width(ws, 0, headers.len() as int);
        lemma_border_width(ws, TABLE_TOP_LEFT@, TABLE_TOP_MID@, TABLE_TOP_RIGHT@, cjk);
        lemma_border_width(ws, TABLE_MID_LEFT@, TABLE_MID_MID@, TABLE_MID_RIGHT@, cjk);
        lemma_border_width(ws, TABLE_BOTTOM_LEFT@, TABLE_BOTTOM_MID@, TABLE_BOTTOM_RIGHT@, cjk);
        lemma_cells_width(headers, headers.len() as int, ws, SpanStyle::TableHeader, cjk);
        lemma_bar_then(cells_spans(headers, headers.len() as int, ws, SpanStyle::TableHeader, cjk), cjk);
        lemma_row_lines_width(rows, rows.len() as int, ws, cjk);
        assert(lines == seq![top, head, sep] + body + seq![bottom]);
        assert forall|i: int| 0 <= i < lines.len() implies crate::renderer::line_width(#[trigger] lines[i], cjk) == full by {
            if i < 3 {
            } else if i < 3 + body.len() {
                assert(lines[i] == body[i - 3]);
            } else {
                assert(lines[i] == bottom);
            }
        }
    }
}


proof fn lemma_column_cells_bounded(rows: Seq<Seq<Seq<char>>>, i: int, bound: nat, cjk: bool)
    requires
        forall|r: int| 0 <= r < rows.len() && 0 <= i < rows[r].len() ==> #[trigger] spec_str_width(rows[r][i], cjk) <= bound,
    ensures
        column_cells_width(rows, i, cjk) <= bound,
    decreases rows.len(),
{
    if rows.len() > 0 {
        let r0 = rows.drop_last();
        assert forall|r: int| 0 <= r < r0.len() && 0 <= i < r0[r].len() implies #[trigger] spec_str_width(r0[r][i], cjk)
            <= bound by {
            assert(r0[r] == rows[r]);
        }
        lemma_column_cells_bounded(r0, i, bound, cjk);
        if 0 <= i < rows.last().len() {
            assert(rows.last() == rows[rows.len() - 1]);
        }
    }
}

proof fn lemma_column_cells_cover(rows: Seq<Seq<Seq<char>>>, i: int, r: int, cjk: bool)
    requires
        0 <= r < rows.len(),
        0 <= i < rows[r].len(),
    ensures
        spec_str_width(rows[r][i], cjk) <= column_cells_width(rows, i, cjk),
    decreases rows.len(),
{
    if r < rows.len() - 1 {
        assert(rows.drop_last()[r] == rows[r]);
        lemma_column_cells_cover(rows.drop_last(), i, r, cjk);
    } else {
        assert(rows.last() == rows[r]);
    }
}

/// A table whose cells all fit some column widths `w` (each column at least the narrowest
/// width and as wide as its header and every cell in it) within `max_width`, borders and
/// padding included, is drawn with every column as wide as its widest cell, header
/// included, so no cell is cut; and no column is wider than `w` asks.
pub proof fn law_fitting_table_keeps_whole_cells(
    headers: Seq<Seq<char>>,
    rows: Seq<Seq<Seq<char>>>,
    max_width: nat,
    cjk: bool,
    w: Seq<nat>,
)
    requires
        w.len() == headers.len(),
        forall|i: int| 0 <= i < w.len() ==> #[trigger] w[i] >= TABLE_MIN_COL_WIDTH && w[i] >= spec_str_width(headers[i], cjk),
        forall|r: int, i: int| 0 <= r < rows.len() && 0 <= i < rows[r].len() && i < w.len() ==> #[trigger] spec_str_width(rows[r][i], cjk)
            <= w[i],
        table_overhead(headers.len(), cjk) + sum_nat(w) <= max_width,
    ensures
        spec_col_widths(headers, rows, max_width, cjk).len() == headers.len(),
        forall|i: int| 0 <= i < headers.len() ==> {
            let c = #[trigger] spec_col_widths(headers, rows, max_width, cjk)[i];
            &&& c >= TABLE_MIN_COL_WIDTH
            &&& c >= spec_str_width(headers[i], cjk)
            &&& c <= w[i]
        },
        forall|r: int, i: int| 0 <= r < rows.len() && 0 <= i < rows[r].len() && i < headers.len() ==> #[trigger] spec_str_width(
            rows[r][i],
            cjk,
        ) <= spec_col_widths(headers, rows, max_width, cjk)[i],
{
    let natural = natural_widths(headers, rows, cjk);
    assert forall|i: int| 0 <= i < natural.len() implies natural[i] <= w[i] by {
        assert forall|r: int| 0 <= r < rows.len() && 0 <= i < rows[r].len() implies #[trigger] spec_str_width(rows[r][i], cjk)
            <= w[i] by {}
        lemma_column_cells_bounded(rows, i, w[i], cjk);
    }
    lemma_sum_le(natural, w);
    assert(spec_col_widths(headers, rows, max_width, cjk) == natural);
    assert forall|r: int, i: int| 0 <= r < rows.len() && 0 <= i < rows[r].len() && i < headers.len() implies #[trigger] spec_str_width(
        rows[r][i],
        cjk,
    ) <= spec_col_widths(headers, rows, max_width, cjk)[i] by {
        lemma_column_cells_cover(rows, i, r, cjk);
    }
}

} // verus!
