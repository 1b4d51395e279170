//! Search highlighting: where a query occurs in rendered lines, and those lines with
//! the occurrences marked.
use crate::parser::{lemma_views_push, views};
use crate::renderer::inline::{spec_utf8_bytes, spec_utf8_len, utf8_len};
use crate::renderer::table::nats;
use crate::renderer::{line_text, SpanStyle, SpanV, StyledLine, StyledSpan};
use crate::text::{
    char_is_uppercase, char_lowercase, char_to_lowercase, chars_of, is_uppercase, push_char,
    push_str, str_lowercase, string_of_range, to_lowercase,
};
use unicode_normalization::UnicodeNormalization;
use vstd::prelude::*;

verus! {

/// The byte offset of character `k` of `s` in UTF-8.
pub open spec fn byte_off(s: Seq<char>, k: int) -> nat {
    spec_utf8_bytes(s.take(k))
}

// ---------------------------------------------------------------------------
// Aligning two strings
// ---------------------------------------------------------------------------

pub open spec fn subst_cost(a: char, b: char) -> nat {
    if a == b {
        0
    } else {
        1
    }
}

pub open spec fn min_nat(a: nat, b: nat) -> nat {
    if a <= b {
        a
    } else {
        b
    }
}

/// The edit distance between the first `i` characters of `s` and the first `j` of `d`.
pub open spec fn edit_distance(s: Seq<char>, d: Seq<char>, i: nat, j: nat) -> nat
    decreases i + j,
{
    if i == 0 {
        j
    } else if j == 0 {
        i
    } else {
        min_nat(
            min_nat(
                edit_distance(s, d, (i - 1) as nat, (j - 1) as nat) + subst_cost(s[i - 1], d[j - 1]),
                edit_distance(s, d, (i - 1) as nat, j) + 1,
            ),
            edit_distance(s, d, i, (j - 1) as nat) + 1,
        )
    }
}

/// Walks an optimal edit back from `(i, j)`, recording for each character of `d` the
/// character of `s` it came from (a substitution or match takes the diagonal first, then
/// a deletion from `s`, then an insertion, which maps to the character before).
pub open spec fn trace_back(s: Seq<char>, d: Seq<char>, i: nat, j: nat, acc: Seq<nat>) -> Seq<nat>
    decreases i + j,
{
    if j == 0 {
        acc
    } else if i == 0 {
        trace_back(s, d, 0, (j - 1) as nat, acc.update(j - 1, 0))
    } else if edit_distance(s, d, i, j) == edit_distance(s, d, (i - 1) as nat, (j - 1) as nat)
        + subst_cost(s[i - 1], d[j - 1]) {
        trace_back(s, d, (i - 1) as nat, (j - 1) as nat, acc.update(j - 1, (i - 1) as nat))
    } else if edit_distance(s, d, i, j) == edit_distance(s, d, (i - 1) as nat, j) + 1 {
        trace_back(s, d, (i - 1) as nat, j, acc)
    } else {
        trace_back(s, d, i, (j - 1) as nat, acc.update(j - 1, (i - 1) as nat))
    }
}

/// For each character of `d`, the character of `s` it corresponds to: the same index when
/// the two are equally long, otherwise by an optimal edit.
pub open spec fn char_map(s: Seq<char>, d: Seq<char>) -> Seq<nat> {
    if s.len() == d.len() {
        Seq::new(d.len(), |k: int| k as nat)
    } else {
        trace_back(s, d, s.len(), d.len(), Seq::new(d.len(), |k: int| 0nat))
    }
}

/// `n` copies of `v`.
pub open spec fn repeat_nat(v: nat, n: nat) -> Seq<nat> {
    Seq::new(n, |i: int| v)
}

/// For each byte of the first `k` characters of `d`, the byte offset in `s` of the
/// character it corresponds to.
pub open spec fn byte_fill(s: Seq<char>, d: Seq<char>, cm: Seq<nat>, k: int) -> Seq<nat>
    decreases k,
{
    if k <= 0 {
        Seq::empty()
    } else {
        byte_fill(s, d, cm, k - 1) + repeat_nat(byte_off(s, cm[k - 1] as int), spec_utf8_len(d[k - 1]))
    }
}

/// For each byte offset of `d` (and its end), the corresponding byte offset of `s`.
pub open spec fn spec_align(s: Seq<char>, d: Seq<char>) -> Seq<nat> {
    if s == d {
        Seq::new(spec_utf8_bytes(d) + 1, |b: int| b as nat)
    } else {
        byte_fill(s, d, char_map(s, d), d.len() as int) + seq![spec_utf8_bytes(s)]
    }
}

proof fn lemma_bytes_step(s: Seq<char>, k: int)
    requires
        0 <= k < s.len(),
    ensures
        byte_off(s, k + 1) == byte_off(s, k) + spec_utf8_len(s[k]),
{
    assert(s.take(k + 1).drop_last() =~= s.take(k));
}

proof fn lemma_bytes_mono(s: Seq<char>, a: int, b: int)
    requires
        0 <= a <= b <= s.len(),
    ensures
        byte_off(s, a) <= byte_off(s, b),
    decreases b - a,
{
    if a < b {
        lemma_bytes_step(s, b - 1);
        lemma_bytes_mono(s, a, b - 1);
    }
}

proof fn lemma_len_le_bytes(s: Seq<char>)
    ensures
        s.len() <= spec_utf8_bytes(s),
    decreases s.len(),
{
    if s.len() > 0 {
        lemma_len_le_bytes(s.drop_last());
    }
}

proof fn lemma_edit_distance_bound(s: Seq<char>, d: Seq<char>, i: nat, j: nat)
    ensures
        edit_distance(s, d, i, j) <= i + j,
    decreases i + j,
{
    if i > 0 && j > 0 {
        lemma_edit_distance_bound(s, d, i, (j - 1) as nat);
    }
}

/// The byte offsets of the characters of `v`, and of its end.
fn byte_offsets(v: &Vec<char>) -> (offs: Vec<usize>)
    requires
        spec_utf8_bytes(v@) <= usize::MAX,
    ensures
        offs@.len() == v@.len() + 1,
        forall|k: int| 0 <= k <= v@.len() ==> #[trigger] offs@[k] == byte_off(v@, k),
{
    let mut offs: Vec<usize> = Vec::new();
    let mut total: usize = 0;
    offs.push(0);
    assert(v@.take(0) =~= Seq::<char>::empty());
    let mut k: usize = 0;
    while k < v.len()
        invariant
            k <= v@.len(),
            spec_utf8_bytes(v@) <= usize::MAX,
            offs@.len() == k + 1,
            total == byte_off(v@, k as int),
            forall|m: int| 0 <= m <= k ==> #[trigger] offs@[m] == byte_off(v@, m),
        decreases v@.len() - k,
    {
        proof {
            lemma_bytes_step(v@, k as int);
            lemma_bytes_mono(v@, k + 1, v@.len() as int);
            assert(v@.take(v@.len() as int) =~= v@);
        }
        total = total + utf8_len(v[k]);
        offs.push(total);
        k = k + 1;
    }
    offs
}

/// Whether two character vectors are equal.
fn chars_equal(a: &Vec<char>, b: &Vec<char>) -> (r: bool)
    ensures
        r == (a@ == b@),
{
    if a.len() != b.len() {
        return false;
    }
    let mut k: usize = 0;
    while k < a.len()
        invariant
            k <= a@.len() == b@.len(),
            a@.take(k as int) == b@.take(k as int),
        decreases a@.len() - k,
    {
        if a[k] != b[k] {
            assert(a@[k as int] != b@[k as int]);
            return false;
        }
        assert(a@.take(k + 1) =~= a@.take(k as int).push(a@[k as int]));
        assert(b@.take(k + 1) =~= b@.take(k as int).push(b@[k as int]));
        k = k + 1;
    }
    assert(a@.take(a@.len() as int) =~= a@);
    assert(b@.take(b@.len() as int) =~= b@);
    true
}

/// The edit distance table: row `i`, column `j` holds the distance between the first `i`
/// characters of `s` and the first `j` of `d`.
fn distance_table(s: &Vec<char>, d: &Vec<char>) -> (dp: Vec<Vec<usize>>)
    requires
        s@.len() + d@.len() < usize::MAX,
    ensures
        dp@.len() == s@.len() + 1,
        forall|i: int| 0 <= i <= s@.len() ==> (#[trigger] dp@[i])@.len() == d@.len() + 1,
        forall|i: int, j: int|
            0 <= i <= s@.len() && 0 <= j <= d@.len() ==> (#[trigger] dp@[i]@[j]) == edit_distance(
                s@,
                d@,
                i as nat,
                j as nat,
            ),
{
    let n = s.len();
    let m = d.len();
    let mut dp: Vec<Vec<usize>> = Vec::new();
    let mut row0: Vec<usize> = Vec::new();
    let mut j: usize = 0;
    while j <= m
        invariant
            j <= m + 1,
            m == d@.len(),
            m < usize::MAX,
            row0@.len() == j,
            forall|q: int| 0 <= q < j ==> #[trigger] row0@[q] == edit_distance(s@, d@, 0, q as nat),
        decreases m + 1 - j,
    {
        row0.push(j);
        j = j + 1;
    }
    dp.push(row0);
    let mut i: usize = 1;
    while i <= n
        invariant
            1 <= i <= n + 1,
            n == s@.len(),
            m == d@.len(),
            n + m < usize::MAX,
            dp@.len() == i,
            forall|a: int| 0 <= a < i ==> (#[trigger] dp@[a])@.len() == m + 1,
            forall|a: int, b: int|
                0 <= a < i && 0 <= b <= m ==> (#[trigger] dp@[a]@[b]) == edit_distance(
                    s@,
                    d@,
                    a as nat,
                    b as nat,
                ),
        decreases n + 1 - i,
    {
        let mut row: Vec<usize> = Vec::new();
        row.push(i);
        let mut j: usize = 1;
        while j <= m
            invariant
                1 <= i <= n,
                1 <= j <= m + 1,
                n == s@.len(),
                m == d@.len(),
                n + m < usize::MAX,
                dp@.len() == i,
                dp@[i - 1]@.len() == m + 1,
                forall|b: int| 0 <= b <= m ==> (#[trigger] dp@[i - 1]@[b]) == edit_distance(s@, d@, (i - 1) as nat, b as nat),
                row@.len() == j,
                forall|b: int| 0 <= b < j ==> #[trigger] row@[b] == edit_distance(s@, d@, i as nat, b as nat),
            decreases m + 1 - j,
        {
            let prev = &dp[i - 1];
            let cost: usize = if s[i - 1] == d[j - 1] {
                0
            } else {
                1
            };
            proof {
                lemma_edit_distance_bound(s@, d@, (i - 1) as nat, (j - 1) as nat);
                lemma_edit_distance_bound(s@, d@, (i - 1) as nat, j as nat);
                lemma_edit_distance_bound(s@, d@, i as nat, (j - 1) as nat);
            }
            let a = prev[j - 1] + cost;
            let b = prev[j] + 1;
            let c = row[j - 1] + 1;
            let ab = if a <= b {
                a
            } else {
                b
            };
            let v = if ab <= c {
                ab
            } else {
                c
            };
            row.push(v);
            j = j + 1;
        }
        dp.push(row);
        i = i + 1;
    }
    dp
}

/// For each byte offset of `dst` (and its end), the byte offset of the corresponding
/// character in `src`: offsets map to themselves when the strings are equal, character
/// by character when they are equally long, and otherwise along an optimal edit.
pub fn align_strings(src: &str, dst: &str) -> (map: Vec<usize>)
    requires
        src@.len() > 0 || dst@.len() == 0,
        spec_utf8_bytes(src@) <= usize::MAX / 4,
        spec_utf8_bytes(dst@) <= usize::MAX / 4,
    ensures
        nats(map@) == spec_align(src@, dst@),
{
    let s = chars_of(src);
    let d = chars_of(dst);
    let soffs = byte_offsets(&s);
    let doffs = byte_offsets(&d);
    proof {
        lemma_len_le_bytes(s@);
        lemma_len_le_bytes(d@);
    }
    let n = s.len();
    let m = d.len();
    if chars_equal(&s, &d) {
        let total = doffs[m];
        assert(d@.take(m as int) =~= d@);
        let mut map: Vec<usize> = Vec::new();
        let mut b: usize = 0;
        while b <= total
            invariant
                b <= total + 1,
                total <= usize::MAX / 4,
                map@.len() == b,
                forall|q: int| 0 <= q < b ==> #[trigger] map@[q] == q,
            decreases total + 1 - b,
        {
            map.push(b);
            b = b + 1;
        }
        assert(nats(map@) =~= spec_align(src@, dst@));
        return map;
    }
    let mut cm: Vec<usize> = Vec::new();
    if n == m {
        let mut k: usize = 0;
        while k < m
            invariant
                k <= m,
                cm@.len() == k,
                forall|q: int| 0 <= q < k ==> #[trigger] cm@[q] == q,
            decreases m - k,
        {
            cm.push(k);
            k = k + 1;
        }
        assert(nats(cm@) =~= char_map(s@, d@));
    } else {
        let dp = distance_table(&s, &d);
        let mut k: usize = 0;
        while k < m
            invariant
                k <= m,
                cm@.len() == k,
                forall|q: int| 0 <= q < k ==> #[trigger] cm@[q] == 0,
            decreases m - k,
        {
            cm.push(0);
            k = k + 1;
        }
        assert(nats(cm@) =~= Seq::new(m as nat, |q: int| 0nat));
        let mut i = n;
        let mut j = m;
        while j > 0
            invariant
                i <= n,
                j <= m,
                n > 0,
                n == s@.len(),
                m == d@.len(),
                n + m < usize::MAX,
                cm@.len() == m,
                forall|q: int| 0 <= q < m ==> #[trigger] cm@[q] < n,
                dp@.len() == n + 1,
                forall|a: int| 0 <= a <= n ==> (#[trigger] dp@[a])@.len() == m + 1,
                forall|a: int, b: int|
                    0 <= a <= n && 0 <= b <= m ==> (#[trigger] dp@[a]@[b]) == edit_distance(
                        s@,
                        d@,
                        a as nat,
                        b as nat,
                    ),
                trace_back(s@, d@, i as nat, j as nat, nats(cm@)) == char_map(s@, d@),
            decreases i + j,
        {
            if i == 0 {
                let ghost before = nats(cm@);
                cm.set(j - 1, 0);
                assert(nats(cm@) =~= before.update(j - 1, 0));
                j = j - 1;
            } else {
                let cost: usize = if s[i - 1] == d[j - 1] {
                    0
                } else {
                    1
                };
                proof {
                    lemma_edit_distance_bound(s@, d@, (i - 1) as nat, (j - 1) as nat);
                    lemma_edit_distance_bound(s@, d@, (i - 1) as nat, j as nat);
                }
                if dp[i][j] == dp[i - 1][j - 1] + cost {
                    let ghost before = nats(cm@);
                    cm.set(j - 1, i - 1);
                    assert(nats(cm@) =~= before.update(j - 1, (i - 1) as nat));
                    i = i - 1;
                    j = j - 1;
                } else if dp[i][j] == dp[i - 1][j] + 1 {
                    i = i - 1;
                } else {
                    let ghost before = nats(cm@);
                    cm.set(j - 1, i - 1);
                    assert(nats(cm@) =~= before.update(j - 1, (i - 1) as nat));
                    j = j - 1;
                }
            }
        }
    }
    let ghost cmv = nats(cm@);
    let mut map: Vec<usize> = Vec::new();
    let mut k: usize = 0;
    while k < m
        invariant
            k <= m,
            m == d@.len(),
            n == s@.len(),
            cm@.len() == m,
            cmv == nats(cm@),
            cmv == char_map(s@, d@),
            forall|q: int| 0 <= q < m ==> #[trigger] cm@[q] <= n,
            soffs@.len() == n + 1,
            forall|q: int| 0 <= q <= n ==> #[trigger] soffs@[q] == byte_off(s@, q),
            nats(map@) == byte_fill(s@, d@, cmv, k as int),
        decreases m - k,
    {
        let v = soffs[cm[k]];
        let len = utf8_len(d[k]);
        let ghost before = nats(map@);
        let mut r: usize = 0;
        while r < len
            invariant
                r <= len,
                nats(map@) == before + repeat_nat(v as nat, r as nat),
            decreases len - r,
        {
            let ghost prev = map@;
            map.push(v);
            assert(nats(map@) =~= nats(prev).push(v as nat));
            assert(repeat_nat(v as nat, (r + 1) as nat) =~= repeat_nat(v as nat, r as nat).push(v as nat));
            r = r + 1;
            assert(nats(map@) =~= before + repeat_nat(v as nat, r as nat));
        }
        k = k + 1;
    }
    proof {
        assert(s@.take(n as int) =~= s@);
    }
    let ghost before = nats(map@);
    map.push(soffs[n]);
    assert(nats(map@) =~= before + seq![spec_utf8_bytes(s@)]);
    map
}

// ---------------------------------------------------------------------------
// Finding occurrences
// ---------------------------------------------------------------------------

/// `s` lowercased character by character.
pub open spec fn lower_chars(s: Seq<char>) -> Seq<char>
    decreases s.len(),
{
    if s.len() == 0 {
        Seq::empty()
    } else {
        lower_chars(s.drop_last()) + char_lowercase(s.last())
    }
}

/// For each byte of [`lower_chars`] of `s`, the byte offset in `s` of the character it
/// comes from.
pub open spec fn lower_byte_map(s: Seq<char>) -> Seq<nat>
    decreases s.len(),
{
    if s.len() == 0 {
        Seq::empty()
    } else {
        lower_byte_map(s.drop_last()) + repeat_nat(
            byte_off(s, s.len() - 1),
            spec_utf8_bytes(char_lowercase(s.last())),
        )
    }
}

/// Where `q` occurs in `hay` from character `from` on, without overlaps, leftmost first.
pub open spec fn match_starts(hay: Seq<char>, q: Seq<char>, from: int) -> Seq<int>
    decreases hay.len() + 1 - from,
{
    if from < 0 || q.len() == 0 || from + q.len() > hay.len() {
        Seq::empty()
    } else if hay.subrange(from, from + q.len()) == q {
        seq![from] + match_starts(hay, q, from + q.len())
    } else {
        match_starts(hay, q, from + 1)
    }
}

/// The occurrences at character positions `ps`, as byte ranges of `line` and byte ranges
/// of `full` (through `bm`, from `line` to the lowercased `full`, and `sm`, from there to
/// `full`), keeping those whose range in `full` is not empty.
pub open spec fn map_matches(
    ps: Seq<int>,
    line: Seq<char>,
    qlen: int,
    bm: Seq<nat>,
    sm: Seq<nat>,
) -> Seq<(int, int, int, int)>
    decreases ps.len(),
{
    if ps.len() == 0 {
        Seq::empty()
    } else {
        let prev = map_matches(ps.drop_last(), line, qlen, bm, sm);
        let a = byte_off(line, ps.last()) as int;
        let e = byte_off(line, ps.last() + qlen) as int;
        if a < bm.len() && e < bm.len() && bm[a] < sm.len() && bm[e] < sm.len()
            && sm[bm[a] as int] < sm[bm[e] as int] {
            prev.push((a, e, sm[bm[a] as int] as int, sm[bm[e] as int] as int))
        } else {
            prev
        }
    }
}

/// The occurrences of `q` in `line` (a lowercased or normalised form of `full`), each as
/// its byte range in `line` and the byte range in `full` it stands for.
pub open spec fn spec_mapped_matches(full: Seq<char>, line: Seq<char>, q: Seq<char>) -> Seq<(int, int, int, int)> {
    let bm = spec_align(lower_chars(full), line);
    let sm = lower_byte_map(full) + seq![spec_utf8_bytes(full)];
    map_matches(match_starts(line, q, 0), line, q.len() as int, bm, sm)
}

/// The sizes the search can count in a `usize`.
pub open spec fn search_sizes_ok(full: Seq<char>, line: Seq<char>) -> bool {
    &&& spec_utf8_bytes(full) <= usize::MAX / 4
    &&& spec_utf8_bytes(lower_chars(full)) <= usize::MAX / 4
    &&& spec_utf8_bytes(line) <= usize::MAX / 4
}

proof fn lemma_lower_nonempty(s: Seq<char>)
    requires
        s.len() > 0,
        forall|i: int| 0 <= i < s.len() ==> (#[trigger] char_lowercase(s[i])).len() >= 1,
    ensures
        lower_chars(s).len() > 0,
    decreases s.len(),
{
    if s.len() > 1 {
        lemma_lower_nonempty(s.drop_last());
    }
    assert(char_lowercase(s[s.len() - 1]).len() >= 1);
}

proof fn lemma_bytes_concat(a: Seq<char>, b: Seq<char>)
    ensures
        spec_utf8_bytes(a + b) == spec_utf8_bytes(a) + spec_utf8_bytes(b),
    decreases b.len(),
{
    if b.len() == 0 {
        assert(a + b =~= a);
    } else {
        lemma_bytes_concat(a, b.drop_last());
        assert((a + b).drop_last() =~= a + b.drop_last());
    }
}

/// The character positions where `q` occurs in `hay`, without overlaps.
pub fn find_all(hay: &Vec<char>, q: &Vec<char>) -> (ps: Vec<usize>)
    requires
        q@.len() > 0,
    ensures
        ps@.len() == match_starts(hay@, q@, 0).len(),
        forall|i: int| 0 <= i < ps@.len() ==> #[trigger] ps@[i] as int == match_starts(hay@, q@, 0)[i],
        forall|i: int| 0 <= i < ps@.len() ==> ps@[i] + q@.len() <= hay@.len(),
{
    let mut ps: Vec<usize> = Vec::new();
    let mut from: usize = 0;
    let hay_len = hay.len();
    while from <= hay.len() && q.len() <= hay.len() - from
        invariant
            q@.len() > 0,
            from <= hay@.len(),
            forall|i: int| 0 <= i < ps@.len() ==> ps@[i] + q@.len() <= hay@.len(),
            Seq::new(ps@.len(), |i: int| ps@[i] as int) + match_starts(hay@, q@, from as int) == match_starts(hay@, q@, 0),
        decreases hay@.len() + 1 - from,
    {
        let mut k: usize = 0;
        let mut same = true;
        assert(hay@.subrange(from as int, from as int) =~= q@.take(0));
        while k < q.len() && same
            invariant
                k <= q@.len(),
                from + q@.len() <= hay@.len(),
                hay@.len() <= usize::MAX,
                same == (hay@.subrange(from as int, from + k) == q@.take(k as int)),
            decreases q@.len() - k,
        {
            if hay[from + k] != q[k] {
                same = false;
                assert(hay@.subrange(from as int, from + k + 1)[k as int] != q@.take(k + 1)[k as int]);
            } else {
                assert(hay@.subrange(from as int, from + k + 1) =~= hay@.subrange(from as int, from + k).push(hay@[from + k]));
                assert(q@.take(k + 1) =~= q@.take(k as int).push(q@[k as int]));
            }
            k = k + 1;
        }
        let ghost before = Seq::new(ps@.len(), |i: int| ps@[i] as int);
        if same {
            assert(q@.take(q@.len() as int) =~= q@);
            assert(hay@.subrange(from as int, from + q@.len()) == q@);
            ps.push(from);
            assert(Seq::new(ps@.len(), |i: int| ps@[i] as int) =~= before.push(from as int));
            assert(before.push(from as int) + match_starts(hay@, q@, from + q@.len()) =~= before + match_starts(hay@, q@, from as int));
            from = from + q.len();
        } else {
            if k == q.len() {
                assert(q@.take(k as int) =~= q@);
            } else {
                assert(hay@.subrange(from as int, from + q@.len()) != q@) by {
                    assert(hay@.subrange(from as int, from + q@.len()).take(k as int) =~= hay@.subrange(from as int, from + k));
                }
            }
            assert(hay@.subrange(from as int, from + q@.len()) != q@) by {
                if k == q@.len() {
                    assert(hay@.subrange(from as int, from + k) != q@.take(k as int));
                }
            }
            from = from + 1;
        }
    }
    assert(match_starts(hay@, q@, from as int) =~= Seq::<int>::empty()) by {
        assert(from + q@.len() > hay@.len());
    }
    assert(Seq::new(ps@.len(), |i: int| ps@[i] as int) =~= match_starts(hay@, q@, 0));
    ps
}

/// The occurrences of `query_norm` in `line_text` (a lowercased or normalised form of
/// `full`), each as its byte range in `line_text` and the byte range in `full` it stands
/// for; occurrences that stand for nothing in `full` are left out.
pub fn find_mapped_matches(full: &str, line_text: &str, query_norm: &str) -> (r: Vec<(usize, usize, usize, usize)>)
    requires
        query_norm@.len() > 0,
        full@.len() > 0 || line_text@.len() == 0,
        search_sizes_ok(full@, line_text@),
    ensures
        r@.len() == spec_mapped_matches(full@, line_text@, query_norm@).len(),
        forall|i: int|
            0 <= i < r@.len() ==> ({
                let t = #[trigger] r@[i];
                let e = spec_mapped_matches(full@, line_text@, query_norm@)[i];
                t.0 as int == e.0 && t.1 as int == e.1 && t.2 as int == e.2 && t.3 as int == e.3
            }),
{
    let fv = chars_of(full);
    let offs = byte_offsets(&fv);
    let mut src_lower = String::new();
    let mut src_map: Vec<usize> = Vec::new();
    let mut k: usize = 0;
    while k < fv.len()
        invariant
            k <= fv@.len(),
            fv@ == full@,
            offs@.len() == fv@.len() + 1,
            forall|q: int| 0 <= q <= fv@.len() ==> #[trigger] offs@[q] == byte_off(fv@, q),
            src_lower@ == lower_chars(fv@.take(k as int)),
            nats(src_map@) == lower_byte_map(fv@.take(k as int)),
            forall|q: int| 0 <= q < k ==> (#[trigger] char_lowercase(fv@[q])).len() >= 1,
        decreases fv@.len() - k,
    {
        assert(fv@.take(k + 1).drop_last() =~= fv@.take(k as int));
        assert(byte_off(fv@.take(k + 1), k as int) == byte_off(fv@, k as int)) by {
            assert(fv@.take(k + 1).take(k as int) =~= fv@.take(k as int));
        }
        let lower = char_to_lowercase(fv[k]);
        let mut j: usize = 0;
        let ghost base_s = src_lower@;
        let ghost base_m = nats(src_map@);
        let off = offs[k];
        while j < lower.len()
            invariant
                j <= lower@.len(),
                src_lower@ == base_s + lower@.take(j as int),
                nats(src_map@) == base_m + repeat_nat(off as nat, spec_utf8_bytes(lower@.take(j as int))),
            decreases lower@.len() - j,
        {
            let c = lower[j];
            push_char(&mut src_lower, c);
            let len = utf8_len(c);
            let ghost before = nats(src_map@);
            let mut r: usize = 0;
            while r < len
                invariant
                    r <= len,
                    nats(src_map@) == before + repeat_nat(off as nat, r as nat),
                decreases len - r,
            {
                let ghost prev = src_map@;
                src_map.push(off);
                assert(nats(src_map@) =~= nats(prev).push(off as nat));
                assert(repeat_nat(off as nat, (r + 1) as nat) =~= repeat_nat(off as nat, r as nat).push(off as nat));
                r = r + 1;
            }
            assert(lower@.take(j + 1).drop_last() =~= lower@.take(j as int));
            assert(src_lower@ =~= base_s + lower@.take(j + 1));
            assert(nats(src_map@) =~= base_m + repeat_nat(off as nat, spec_utf8_bytes(lower@.take(j + 1))));
            j = j + 1;
        }
        assert(lower@.take(lower@.len() as int) =~= lower@);
        k = k + 1;
    }
    assert(fv@.take(fv@.len() as int) =~= fv@);
    let ghost sm_before = nats(src_map@);
    src_map.push(offs[fv.len()]);
    assert(nats(src_map@) =~= sm_before + seq![spec_utf8_bytes(full@)]);
    proof {
        if full@.len() > 0 {
            lemma_lower_nonempty(full@);
        }
    }
    let byte_map = align_strings(src_lower.as_str(), line_text);
    let line = chars_of(line_text);
    let q = chars_of(query_norm);
    let loffs = byte_offsets(&line);
    let positions = find_all(&line, &q);
    let ghost bm = nats(byte_map@);
    let ghost sm = nats(src_map@);
    let ghost ps = match_starts(line@, q@, 0);
    let mut mapped: Vec<(usize, usize, usize, usize)> = Vec::new();
    let line_len = line.len();
    let mut i: usize = 0;
    while i < positions.len()
        invariant
            i <= positions@.len(),
            line@.len() == line_len,
            positions@.len() == ps.len(),
            forall|m: int| 0 <= m < positions@.len() ==> #[trigger] positions@[m] as int == ps[m],
            forall|m: int| 0 <= m < positions@.len() ==> positions@[m] + q@.len() <= line@.len(),
            loffs@.len() == line@.len() + 1,
            forall|m: int| 0 <= m <= line@.len() ==> #[trigger] loffs@[m] == byte_off(line@, m),
            bm == nats(byte_map@),
            sm == nats(src_map@),
            ({
                let e = map_matches(ps.take(i as int), line@, q@.len() as int, bm, sm);
                &&& mapped@.len() == e.len()
                &&& forall|m: int| 0 <= m < mapped@.len() ==> ({
                    let t = #[trigger] mapped@[m];
                    t.0 as int == e[m].0 && t.1 as int == e[m].1 && t.2 as int == e[m].2 && t.3 as int == e[m].3
                })
            }),
        decreases positions@.len() - i,
    {
        assert(ps.take(i + 1).drop_last() =~= ps.take(i as int));
        let p = positions[i];
        let a = loffs[p];
        let e = loffs[p + q.len()];
        if a < byte_map.len() && e < byte_map.len() {
            let ba = byte_map[a];
            let be = byte_map[e];
            if ba < src_map.len() && be < src_map.len() {
                let m_start = src_map[ba];
                let m_end = src_map[be];
                if m_start < m_end {
                    mapped.push((a, e, m_start, m_end));
                }
            }
        }
        i = i + 1;
    }
    assert(ps.take(positions@.len() as int) =~= ps);
    mapped
}

// ---------------------------------------------------------------------------
// Marking occurrences in spans
// ---------------------------------------------------------------------------

/// The occurrence the user is on: its line and its byte range in that line's search text.
#[derive(Clone, Copy, Debug, PartialEq, Eq, Structural)]
pub struct SearchMatch {
    pub line_idx: usize,
    pub start_byte: usize,
    pub end_byte: usize,
}

/// How many characters of `s` lie wholly before byte `b`.
pub open spec fn byte_char(s: Seq<char>, b: int) -> int
    decreases s.len(),
{
    if s.len() == 0 || b <= 0 {
        0
    } else if spec_utf8_len(s[0]) > b {
        0
    } else {
        1 + byte_char(s.drop_first(), b - spec_utf8_len(s[0]))
    }
}

/// The characters of `s` between bytes `a` and `b` (each taken at the character boundary
/// at or before it).
pub open spec fn byte_slice(s: Seq<char>, a: int, b: int) -> Seq<char> {
    let ca = byte_char(s, a);
    let cb = byte_char(s, b);
    s.subrange(
        ca,
        if cb >= ca {
            cb
        } else {
            ca
        },
    )
}

proof fn lemma_byte_char_range(s: Seq<char>, b: int)
    ensures
        0 <= byte_char(s, b) <= s.len(),
    decreases s.len(),
{
    if s.len() > 0 && b > 0 && spec_utf8_len(s[0]) <= b {
        lemma_byte_char_range(s.drop_first(), b - spec_utf8_len(s[0]));
    }
}

pub open spec fn quads(s: Seq<(usize, usize, usize, usize)>) -> Seq<(int, int, int, int)> {
    Seq::new(s.len(), |i: int| (s[i].0 as int, s[i].1 as int, s[i].2 as int, s[i].3 as int))
}

/// Whether the occurrence at bytes `a..e` of line `line_idx` is the current one.
pub open spec fn is_current(cm: Option<SearchMatch>, line_idx: int, a: int, e: int) -> bool {
    match cm {
        Some(m) => m.line_idx == line_idx && m.start_byte == a && m.end_byte == e,
        None => false,
    }
}

pub struct PieceState {
    pub out: Seq<SpanV>,
    pub last: int,
}

/// Cuts the part of occurrence `mt` that falls in a span (covering bytes `cur..span_end`
/// of the line) out of it: the text before it since `last` keeps the span's style, the
/// occurrence gets the match style.
pub open spec fn piece_step(
    st: PieceState,
    text: Seq<char>,
    style: SpanStyle,
    cur: int,
    span_end: int,
    mt: (int, int, int, int),
    line_idx: int,
    cm: Option<SearchMatch>,
) -> PieceState {
    let is = if mt.2 >= cur {
        mt.2
    } else {
        cur
    };
    let ie = if mt.3 <= span_end {
        mt.3
    } else {
        span_end
    };
    if is < ie {
        let rs = is - cur;
        let re = ie - cur;
        let out1 = if rs > st.last {
            st.out.push(SpanV { content: byte_slice(text, st.last, rs), style })
        } else {
            st.out
        };
        let hl = if is_current(cm, line_idx, mt.0, mt.1) {
            SpanStyle::SearchCurrent
        } else {
            SpanStyle::SearchMatch
        };
        PieceState { out: out1.push(SpanV { content: byte_slice(text, rs, re), style: hl }), last: re }
    } else {
        st
    }
}

pub open spec fn pieces(
    text: Seq<char>,
    style: SpanStyle,
    cur: int,
    span_end: int,
    mts: Seq<(int, int, int, int)>,
    line_idx: int,
    cm: Option<SearchMatch>,
) -> PieceState
    decreases mts.len(),
{
    if mts.len() == 0 {
        PieceState { out: Seq::empty(), last: 0 }
    } else {
        piece_step(
            pieces(text, style, cur, span_end, mts.drop_last(), line_idx, cm),
            text,
            style,
            cur,
            span_end,
            mts.last(),
            line_idx,
            cm,
        )
    }
}

/// A span starting at byte `cur` of its line, cut at the occurrences.
pub open spec fn span_pieces(
    span: SpanV,
    cur: int,
    mts: Seq<(int, int, int, int)>,
    line_idx: int,
    cm: Option<SearchMatch>,
) -> Seq<SpanV> {
    let len = spec_utf8_bytes(span.content) as int;
    let st = pieces(span.content, span.style, cur, cur + len, mts, line_idx, cm);
    if st.last < len {
        st.out.push(SpanV { content: byte_slice(span.content, st.last, len), style: span.style })
    } else {
        st.out
    }
}

/// The spans of a line cut at the occurrences `mts`, and the byte length of the line.
pub open spec fn spec_rebuild(
    spans: Seq<SpanV>,
    mts: Seq<(int, int, int, int)>,
    line_idx: int,
    cm: Option<SearchMatch>,
) -> (Seq<SpanV>, int)
    decreases spans.len(),
{
    if spans.len() == 0 {
        (Seq::empty(), 0)
    } else {
        let p = spec_rebuild(spans.drop_last(), mts, line_idx, cm);
        (
            p.0 + span_pieces(spans.last(), p.1, mts, line_idx, cm),
            p.1 + spec_utf8_bytes(spans.last().content),
        )
    }
}

// ---------------------------------------------------------------------------
// Marking occurrences keeps the text
// ---------------------------------------------------------------------------

/// The byte ranges of the occurrences are each in order, and come one after another
/// without overlapping.
pub open spec fn ranges_apart(mts: Seq<(int, int, int, int)>) -> bool {
    &&& forall|k: int| 0 <= k < mts.len() ==> (#[trigger] mts[k]).2 <= mts[k].3
    &&& forall|i: int, j: int| 0 <= i < j < mts.len() ==> (#[trigger] mts[i]).3 <= (#[trigger] mts[j]).2
}

proof fn lemma_byte_char_mono(s: Seq<char>, a: int, b: int)
    requires
        a <= b,
    ensures
        byte_char(s, a) <= byte_char(s, b),
    decreases s.len(),
{
    lemma_byte_char_range(s, a);
    lemma_byte_char_range(s, b);
    if s.len() > 0 && a > 0 && spec_utf8_len(s[0]) <= a {
        lemma_byte_char_mono(s.drop_first(), a - spec_utf8_len(s[0]), b - spec_utf8_len(s[0]));
    }
}

proof fn lemma_utf8_bytes_first(s: Seq<char>)
    requires
        s.len() > 0,
    ensures
        spec_utf8_bytes(s) == spec_utf8_len(s[0]) + spec_utf8_bytes(s.drop_first()),
    decreases s.len(),
{
    if s.len() > 1 {
        lemma_utf8_bytes_first(s.drop_last());
        assert(s.drop_last().drop_first() =~= s.drop_first().drop_last());
        assert(s.drop_last()[0] == s[0]);
    } else {
        assert(s.drop_first() =~= Seq::<char>::empty());
        assert(s.drop_last() =~= Seq::<char>::empty());
    }
}

proof fn lemma_byte_char_all(s: Seq<char>)
    ensures
        byte_char(s, spec_utf8_bytes(s) as int) == s.len(),
    decreases s.len(),
{
    if s.len() > 0 {
        lemma_utf8_bytes_first(s);
        lemma_byte_char_all(s.drop_first());
        assert(spec_utf8_len(s[0]) >= 1);
    }
}

proof fn lemma_slice_concat(s: Seq<char>, a: int, b: int, c: int)
    requires
        a <= b <= c,
    ensures
        byte_slice(s, a, b) + byte_slice(s, b, c) == byte_slice(s, a, c),
{
    lemma_byte_char_mono(s, a, b);
    lemma_byte_char_mono(s, b, c);
    lemma_byte_char_range(s, a);
    lemma_byte_char_range(s, c);
    assert(byte_slice(s, a, b) + byte_slice(s, b, c) =~= byte_slice(s, a, c));
}

proof fn lemma_line_text_push(l: Seq<SpanV>, x: SpanV)
    ensures
        line_text(l.push(x)) == line_text(l) + x.content,
{
    assert(l.push(x).drop_last() =~= l);
}

proof fn lemma_pieces_text(
    text: Seq<char>,
    style: SpanStyle,
    cur: int,
    end: int,
    mts: Seq<(int, int, int, int)>,
    line_idx: int,
    cm: Option<SearchMatch>,
)
    requires
        0 <= cur <= end,
        ranges_apart(mts),
    ensures
        ({
            let st = pieces(text, style, cur, end, mts, line_idx, cm);
            &&& 0 <= st.last <= end - cur
            &&& line_text(st.out) == byte_slice(text, 0, st.last)
            &&& st.last == 0 || (mts.len() > 0 && st.last + cur <= mts.last().3)
        }),
    decreases mts.len(),
{
    if mts.len() == 0 {
        assert(line_text(Seq::<SpanV>::empty()) == Seq::<char>::empty());
        assert(byte_slice(text, 0, 0) =~= Seq::<char>::empty());
    } else {
        let d = mts.drop_last();
        assert(ranges_apart(d)) by {
            assert forall|k: int| 0 <= k < d.len() implies (#[trigger] d[k]).2 <= d[k].3 by {
                assert(d[k] == mts[k]);
            }
            assert forall|i: int, j: int| 0 <= i < j < d.len() implies (#[trigger] d[i]).3 <= (#[trigger] d[j]).2 by {
                assert(d[i] == mts[i] && d[j] == mts[j]);
            }
        }
        lemma_pieces_text(text, style, cur, end, d, line_idx, cm);
        let st = pieces(text, style, cur, end, d, line_idx, cm);
        let mt = mts.last();
        assert(mt == mts[mts.len() - 1]);
        assert(mt.2 <= mt.3);
        if st.last != 0 {
            assert(d.last() == mts[d.len() - 1]);
            assert(mts[d.len() - 1].3 <= mts[mts.len() - 1].2);
        }
        let is = if mt.2 >= cur {
            mt.2
        } else {
            cur
        };
        let ie = if mt.3 <= end {
            mt.3
        } else {
            end
        };
        if is < ie {
            let rs = is - cur;
            let re = ie - cur;
            assert(st.last <= rs);
            let hl = if is_current(cm, line_idx, mt.0, mt.1) {
                SpanStyle::SearchCurrent
            } else {
                SpanStyle::SearchMatch
            };
            if rs > st.last {
                let gap = SpanV { content: byte_slice(text, st.last, rs), style };
                lemma_line_text_push(st.out, gap);
                lemma_slice_concat(text, 0, st.last, rs);
                lemma_line_text_push(st.out.push(gap), SpanV { content: byte_slice(text, rs, re), style: hl });
            } else {
                lemma_line_text_push(st.out, SpanV { content: byte_slice(text, rs, re), style: hl });
            }
            lemma_slice_concat(text, 0, rs, re);
        }
    }
}

proof fn lemma_span_pieces_text(span: SpanV, cur: int, mts: Seq<(int, int, int, int)>, line_idx: int, cm: Option<SearchMatch>)
    requires
        0 <= cur,
        ranges_apart(mts),
    ensures
        line_text(span_pieces(span, cur, mts, line_idx, cm)) == span.content,
{
    let len = spec_utf8_bytes(span.content) as int;
    lemma_pieces_text(span.content, span.style, cur, cur + len, mts, line_idx, cm);
    let st = pieces(span.content, span.style, cur, cur + len, mts, line_idx, cm);
    if st.last < len {
        lemma_line_text_push(st.out, SpanV { content: byte_slice(span.content, st.last, len), style: span.style });
        lemma_slice_concat(span.content, 0, st.last, len);
    }
    lemma_byte_char_all(span.content);
    assert(byte_slice(span.content, 0, len) =~= span.content);
}

/// Marking the occurrences of a query in a line changes only how the line looks: its text
/// stays the same, where the occurrences' byte ranges come in order without overlapping.
pub proof fn law_marking_keeps_line_text(
    spans: Seq<SpanV>,
    mts: Seq<(int, int, int, int)>,
    line_idx: int,
    cm: Option<SearchMatch>,
)
    requires
        ranges_apart(mts),
    ensures
        line_text(spec_rebuild(spans, mts, line_idx, cm).0) == line_text(spans),
        spec_rebuild(spans, mts, line_idx, cm).1 >= 0,
    decreases spans.len(),
{
    if spans.len() > 0 {
        law_marking_keeps_line_text(spans.drop_last(), mts, line_idx, cm);
        let p = spec_rebuild(spans.drop_last(), mts, line_idx, cm);
        lemma_span_pieces_text(spans.last(), p.1, mts, line_idx, cm);
        lemma_line_text_concat(p.0, span_pieces(spans.last(), p.1, mts, line_idx, cm));
    } else {
        assert(line_text(Seq::<SpanV>::empty()) == Seq::<char>::empty());
    }
}

/// The characters of `v` wholly before byte `b`.
fn char_at_byte(v: &Vec<char>, b: usize) -> (k: usize)
    ensures
        k as int == byte_char(v@, b as int),
{
    proof {
        lemma_byte_char_range(v@, b as int);
    }
    let mut k: usize = 0;
    let mut rem = b;
    assert(v@.skip(0) =~= v@);
    while k < v.len() && rem > 0 && utf8_len(v[k]) <= rem
        invariant
            k <= v@.len(),
            byte_char(v@, b as int) == k + byte_char(v@.skip(k as int), rem as int),
        decreases v@.len() - k,
    {
        assert(v@.skip(k as int).drop_first() =~= v@.skip(k + 1));
        rem = rem - utf8_len(v[k]);
        k = k + 1;
    }
    k
}

/// The characters of `v` between bytes `a` and `b`.
fn slice_bytes(v: &Vec<char>, a: usize, b: usize) -> (s: String)
    ensures
        s@ == byte_slice(v@, a as int, b as int),
{
    proof {
        lemma_byte_char_range(v@, a as int);
        lemma_byte_char_range(v@, b as int);
    }
    let ca = char_at_byte(v, a);
    let cb = char_at_byte(v, b);
    string_of_range(v, ca, if cb >= ca { cb } else { ca })
}

fn styled(content: String, style: SpanStyle) -> (s: StyledSpan)
    ensures
        s@ == (SpanV { content: content@, style }),
{
    StyledSpan { content, style }
}

/// Rebuilds the spans of line `line_idx`, giving the parts that the occurrences
/// `mapped` cover (by their byte ranges in the line) the match style, or the current-match
/// style for `current_match`.
pub fn rebuild_spans_with_highlights(
    spans: Vec<StyledSpan>,
    mapped: &Vec<(usize, usize, usize, usize)>,
    line_idx: usize,
    current_match: Option<SearchMatch>,
) -> (r: Vec<StyledSpan>)
    requires
        spec_utf8_bytes(line_text(views(spans@))) <= usize::MAX,
    ensures
        views(r@) == spec_rebuild(views(spans@), quads(mapped@), line_idx as int, current_match).0,
{
    let ghost sv = views(spans@);
    let ghost mts = quads(mapped@);
    let ghost sseq = spans@;
    let nspans = spans.len();
    let mut out: Vec<StyledSpan> = Vec::new();
    let mut cur: usize = 0;
    let mut si: usize = 0;
    proof {
        broadcast use vstd::std_specs::vec::axiom_spec_into_iter;
    }
    assert(views(out@) =~= Seq::<SpanV>::empty());
    for span in it: spans.into_iter()
        invariant
            it.seq() == sseq,
            sv == views(sseq),
            sseq.len() == nspans,
            si == it.index(),
            mts == quads(mapped@),
            spec_utf8_bytes(line_text(sv)) <= usize::MAX,
            ({
                let p = spec_rebuild(sv.take(si as int), mts, line_idx as int, current_match);
                &&& views(out@) == p.0
                &&& cur as int == p.1
            }),
            cur as int == spec_utf8_bytes(line_text(sv.take(si as int))),
    {
        assert(span == sseq[si as int]);
        assert(sv.take(si + 1).drop_last() =~= sv.take(si as int));
        let ghost sp = span@;
        let text = chars_of(span.content.as_str());
        proof {
            assert(line_text(sv.take(si + 1)) == line_text(sv.take(si as int)) + sp.content);
            lemma_bytes_concat(line_text(sv.take(si as int)), sp.content);
            lemma_line_text_prefix(sv, si + 1);
            lemma_bytes_concat(line_text(sv.take(si + 1)), line_text(sv.skip(si + 1)));
        }
        let offs = byte_offsets(&text);
        assert(text@.take(text@.len() as int) =~= text@);
        let span_len = offs[text.len()];
        let span_end = cur + span_len;
        let mut last: usize = 0;
        let mut parts: Vec<StyledSpan> = Vec::new();
        let mut mi: usize = 0;
        assert(views(parts@) =~= Seq::<SpanV>::empty());
        while mi < mapped.len()
            invariant
                mi <= mapped@.len(),
                mts == quads(mapped@),
                text@ == sp.content,
                sp == span@,
                span_end == cur + span_len,
                ({
                    let st = pieces(text@, sp.style, cur as int, span_end as int, mts.take(mi as int), line_idx as int, current_match);
                    &&& views(parts@) == st.out
                    &&& last as int == st.last
                }),
            decreases mapped@.len() - mi,
        {
            assert(mts.take(mi + 1).drop_last() =~= mts.take(mi as int));
            let (abs_start, abs_end, m_start, m_end) = mapped[mi];
            assert(mts[mi as int] == (abs_start as int, abs_end as int, m_start as int, m_end as int));
            let is = if m_start >= cur {
                m_start
            } else {
                cur
            };
            let ie = if m_end <= span_end {
                m_end
            } else {
                span_end
            };
            if is < ie {
                let rel_start = is - cur;
                let rel_end = ie - cur;
                if rel_start > last {
                    let piece = styled(slice_bytes(&text, last, rel_start), span.style);
                    proof {
                        lemma_views_push(parts@, piece);
                    }
                    parts.push(piece);
                }
                let current = match current_match {
                    Some(m) => m.line_idx == line_idx && m.start_byte == abs_start && m.end_byte == abs_end,
                    None => false,
                };
                let hl = if current {
                    SpanStyle::SearchCurrent
                } else {
                    SpanStyle::SearchMatch
                };
                let piece = styled(slice_bytes(&text, rel_start, rel_end), hl);
                proof {
                    lemma_views_push(parts@, piece);
                }
                parts.push(piece);
                last = rel_end;
            }
            mi = mi + 1;
        }
        assert(mts.take(mapped@.len() as int) =~= mts);
        if last < span_len {
            let piece = styled(slice_bytes(&text, last, span_len), span.style);
            proof {
                lemma_views_push(parts@, piece);
            }
            parts.push(piece);
        }
        let ghost before = views(out@);
        let ghost pv = views(parts@);
        out.append(&mut parts);
        assert(views(out@) =~= before + pv);
        cur = span_end;
        si = si + 1;
    }
    assert(sv.take(nspans as int) =~= sv);
    out
}

proof fn lemma_line_text_prefix(l: Seq<SpanV>, k: int)
    requires
        0 <= k <= l.len(),
    ensures
        line_text(l) == line_text(l.take(k)) + line_text(l.skip(k)),
    decreases l.len() - k,
{
    if k < l.len() {
        lemma_line_text_prefix(l, k + 1);
        assert(l.take(k + 1).drop_last() =~= l.take(k));
        assert(l.skip(k) =~= seq![l[k]] + l.skip(k + 1));
        lemma_line_text_concat(seq![l[k]], l.skip(k + 1));
        assert(line_text(seq![l[k]]) =~= l[k].content) by {
            assert(seq![l[k]].drop_last() =~= Seq::<SpanV>::empty());
            assert(line_text(seq![l[k]]) == line_text(Seq::<SpanV>::empty()) + l[k].content);
            assert(Seq::<char>::empty() + l[k].content =~= l[k].content);
        }
    } else {
        assert(l.take(k) =~= l);
        assert(line_text(l.skip(k)) =~= Seq::<char>::empty()) by {
            assert(l.skip(k) =~= Seq::<SpanV>::empty());
        }
    }
}

proof fn lemma_line_text_concat(a: Seq<SpanV>, b: Seq<SpanV>)
    ensures
        line_text(a + b) == line_text(a) + line_text(b),
    decreases b.len(),
{
    if b.len() == 0 {
        assert(a + b =~= a);
        assert(line_text(a) + line_text(b) =~= line_text(a));
    } else {
        lemma_line_text_concat(a, b.drop_last());
        assert((a + b).drop_last() =~= a + b.drop_last());
    }
}

// ---------------------------------------------------------------------------
// Highlighting lines
// ---------------------------------------------------------------------------

/// The NFC normalisation `unicode-normalization` gives a string.
pub uninterp spec fn nfc_of(s: Seq<char>) -> Seq<char>;

/// Calls `UnicodeNormalization::nfc` and collects the result; it depends on the string alone.
#[verifier::external_body]
fn nfc(s: &str) -> (r: String)
    ensures
        r@ == nfc_of(s@),
{
    s.nfc().collect()
}

/// Whether some character of `q` is uppercase.
pub open spec fn has_upper(q: Seq<char>) -> bool {
    exists|i: int| 0 <= i < q.len() && char_is_uppercase(#[trigger] q[i])
}

/// What a query is looked for as: NFC of the query if it has an uppercase letter, else of
/// its lowercase form.
pub open spec fn spec_query_norm(q: Seq<char>) -> Seq<char> {
    if has_upper(q) {
        nfc_of(q)
    } else {
        nfc_of(str_lowercase(q))
    }
}

/// Whether `q` occurs in `hay`.
pub open spec fn occurs(hay: Seq<char>, q: Seq<char>) -> bool {
    match_starts(hay, q, 0).len() > 0
}

/// The text line `i` is searched in: the cached lowercased text at `text_offset + i` when a
/// cache is given (empty past its end), else the line's text, lowercased unless the query
/// has an uppercase letter.
pub open spec fn search_text(texts: Option<Seq<Seq<char>>>, idx: int, full: Seq<char>, upper: bool) -> Seq<char> {
    match texts {
        Some(t) => if 0 <= idx < t.len() {
            t[idx]
        } else {
            Seq::empty()
        },
        None => if upper {
            full
        } else {
            str_lowercase(full)
        },
    }
}

/// A line with the occurrences of `qn` in its search text `lt` marked. A line whose search
/// text does not hold the query is unchanged; so is a line with no text of its own, or one
/// too long to count in a quarter of a `usize`.
pub open spec fn highlight_line(line: Seq<SpanV>, lt: Seq<char>, qn: Seq<char>, line_idx: int, cm: Option<SearchMatch>) -> Seq<SpanV> {
    let full = line_text(line);
    if qn.len() == 0 || !occurs(lt, qn) || full.len() == 0 || !search_sizes_ok(full, lt) {
        line
    } else {
        spec_rebuild(line, spec_mapped_matches(full, lt, qn), line_idx, cm).0
    }
}

/// The lines with the occurrences of `query` marked; all lines unchanged for an empty query.
pub open spec fn spec_apply_search(
    lines: Seq<Seq<SpanV>>,
    query: Seq<char>,
    cm: Option<SearchMatch>,
    start_idx: int,
    texts: Option<Seq<Seq<char>>>,
    text_offset: int,
) -> Seq<Seq<SpanV>> {
    if query.len() == 0 {
        lines
    } else {
        let qn = spec_query_norm(query);
        Seq::new(
            lines.len(),
            |i: int|
                highlight_line(
                    lines[i],
                    search_text(texts, text_offset + i, line_text(lines[i]), has_upper(query)),
                    qn,
                    start_idx + i,
                    cm,
                ),
        )
    }
}

pub open spec fn texts_view(t: Option<&Vec<String>>) -> Option<Seq<Seq<char>>> {
    match t {
        Some(v) => Some(views(v@)),
        None => None,
    }
}

/// The UTF-8 length of `v`, capped at `cap + 1`.
fn bytes_capped(v: &Vec<char>, cap: usize) -> (n: usize)
    requires
        cap <= usize::MAX / 4,
    ensures
        n as nat == crate::width::capped(spec_utf8_bytes(v@), cap as nat),
{
    let mut total: usize = 0;
    let mut k: usize = 0;
    while k < v.len()
        invariant
            k <= v@.len(),
            cap <= usize::MAX / 4,
            total as nat == crate::width::capped(byte_off(v@, k as int), cap as nat),
        decreases v@.len() - k,
    {
        proof {
            lemma_bytes_step(v@, k as int);
        }
        let t = total + utf8_len(v[k]);
        total = if t > cap { cap + 1 } else { t };
        k = k + 1;
    }
    assert(v@.take(v@.len() as int) =~= v@);
    total
}

/// The UTF-8 length of `v` lowercased, capped at `cap + 1`.
fn lower_bytes_capped(v: &Vec<char>, cap: usize) -> (n: usize)
    requires
        cap <= usize::MAX / 4,
    ensures
        n as nat == crate::width::capped(spec_utf8_bytes(lower_chars(v@)), cap as nat),
{
    let mut total: usize = 0;
    let mut k: usize = 0;
    while k < v.len()
        invariant
            k <= v@.len(),
            cap <= usize::MAX / 4,
            total as nat == crate::width::capped(spec_utf8_bytes(lower_chars(v@.take(k as int))), cap as nat),
        decreases v@.len() - k,
    {
        assert(v@.take(k + 1).drop_last() =~= v@.take(k as int));
        proof {
            lemma_bytes_concat(lower_chars(v@.take(k as int)), char_lowercase(v@[k as int]));
        }
        let lower = char_to_lowercase(v[k]);
        let lb = bytes_capped(&lower, cap);
        let t = total + lb;
        total = if t > cap { cap + 1 } else { t };
        k = k + 1;
    }
    assert(v@.take(v@.len() as int) =~= v@);
    total
}

/// Marks the occurrences of `query` in `lines`, the first of which is line `start_idx`
/// of the document; `current_match` gets its own style. When `lowercased_texts` is given,
/// line `i` is searched in its entry `text_offset + i`.
pub fn apply_search_highlight(
    lines: Vec<StyledLine>,
    query: &str,
    current_match: Option<SearchMatch>,
    start_idx: usize,
    lowercased_texts: Option<&Vec<String>>,
    text_offset: usize,
) -> (r: Vec<StyledLine>)
    requires
        start_idx + lines@.len() <= usize::MAX,
        text_offset + lines@.len() <= usize::MAX,
    ensures
        views(r@) == spec_apply_search(
            views(lines@),
            query@,
            current_match,
            start_idx as int,
            texts_view(lowercased_texts),
            text_offset as int,
        ),
{
    if query.is_empty() {
        return lines;
    }
    let qv = chars_of(query);
    let mut upper = false;
    let mut k: usize = 0;
    while k < qv.len()
        invariant
            k <= qv@.len(),
            qv@ == query@,
            upper == exists|i: int| 0 <= i < k && char_is_uppercase(#[trigger] qv@[i]),
        decreases qv@.len() - k,
    {
        if is_uppercase(qv[k]) {
            upper = true;
        }
        k = k + 1;
    }
    let query_norm = if upper {
        nfc(query)
    } else {
        let lowered = to_lowercase(query);
        nfc(lowered.as_str())
    };
    let qn = chars_of(query_norm.as_str());
    let ghost lv = views(lines@);
    let ghost lseq = lines@;
    let ghost expected = spec_apply_search(lv, query@, current_match, start_idx as int, texts_view(lowercased_texts), text_offset as int);
    let n = lines.len();
    let mut out: Vec<StyledLine> = Vec::new();
    let mut i: usize = 0;
    proof {
        broadcast use vstd::std_specs::vec::axiom_spec_into_iter;
    }
    for line in it: lines.into_iter()
        invariant
            it.seq() == lseq,
            lv == views(lseq),
            lseq.len() == n,
            i == it.index(),
            start_idx + n <= usize::MAX,
            text_offset + n <= usize::MAX,
            qn@ == spec_query_norm(query@),
            qn@ == query_norm@,
            query@.len() > 0,
            upper == has_upper(query@),
            expected == spec_apply_search(lv, query@, current_match, start_idx as int, texts_view(lowercased_texts), text_offset as int),
            views(out@) == expected.take(i as int),
    {
        assert(line == lseq[i as int]);
        let ghost l = line@;
        let full = line.text();
        let line_text_owned: String = match lowercased_texts {
            Some(texts) => {
                if text_offset + i < texts.len() {
                    let mut t = String::new();
                    push_str(&mut t, texts[text_offset + i].as_str());
                    t
                } else {
                    String::new()
                }
            },
            None => {
                if upper {
                    full.clone()
                } else {
                    to_lowercase(full.as_str())
                }
            },
        };
        assert(line_text_owned@ == search_text(texts_view(lowercased_texts), text_offset + i, line_text(l), upper));
        let lt = chars_of(line_text_owned.as_str());
        let fv = chars_of(full.as_str());
        let mut result = line;
        let mut keep = true;
        if qn.len() > 0 && fv.len() > 0 {
            let cap = usize::MAX / 4;
            let fb = bytes_capped(&fv, cap);
            let lb = lower_bytes_capped(&fv, cap);
            let tb = bytes_capped(&lt, cap);
            if fb <= cap && lb <= cap && tb <= cap {
                let positions = find_all(&lt, &qn);
                if positions.len() > 0 {
                    let mapped = find_mapped_matches(full.as_str(), line_text_owned.as_str(), query_norm.as_str());
                    proof {
                        assert(quads(mapped@) =~= spec_mapped_matches(line_text(l), lt@, qn@));
                    }
                    let mut spans: Vec<StyledSpan> = Vec::new();
                    std::mem::swap(&mut spans, &mut result.spans);
                    let rebuilt = rebuild_spans_with_highlights(spans, &mapped, start_idx + i, current_match);
                    result = StyledLine { spans: rebuilt };
                    keep = false;
                }
            }
        }
        assert(result@ == expected[i as int]);
        let ghost before = out@;
        out.push(result);
        proof {
            lemma_views_push(before, result);
            assert(expected.take(i + 1) =~= expected.take(i as int).push(expected[i as int]));
        }
        i = i + 1;
    }
    assert(expected.take(n as int) =~= expected);
    out
}

} // verus!
