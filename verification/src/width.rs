//! Display width of characters and strings in terminal columns.
use unicode_width::UnicodeWidthChar;
use vstd::prelude::*;

verus! {

/// The UAX #11 width that `unicode-width` reports for a character (ambiguous = narrow).
pub uninterp spec fn uax11_width(c: char) -> Option<usize>;

/// The UAX #11 width that `unicode-width` reports for a character (ambiguous = wide).
pub uninterp spec fn uax11_width_cjk(c: char) -> Option<usize>;

/// Calls `UnicodeWidthChar::width`. Its source returns `Some(1)` for printable ASCII,
/// `None` for C0/C1 control characters and DEL, and otherwise a table width of at most 3.
/// It treats East Asian ambiguous characters as narrow, and UAX #11 classes the box
/// drawing block (U+2500 to U+257F) as neutral or ambiguous, never wide or zero-width, so
/// those are one column.
#[verifier::external_body]
fn unicode_char_width(c: char) -> (r: Option<usize>)
    ensures
        r == uax11_width(c),
        r matches Some(w) ==> w <= 3,
        (' ' <= c && c < '\u{7f}') ==> r == Some(1usize),
        ('\u{2500}' <= c && c <= '\u{257f}') ==> r == Some(1usize),
        (c < ' ' || ('\u{7f}' <= c && c < '\u{a0}')) ==> r is None,
{
    c.width()
}

/// Calls `UnicodeWidthChar::width_cjk`; the same facts hold of it as of `width`.
#[verifier::external_body]
fn unicode_char_width_cjk(c: char) -> (r: Option<usize>)
    ensures
        r == uax11_width_cjk(c),
        r matches Some(w) ==> w <= 3,
        (' ' <= c && c < '\u{7f}') ==> r == Some(1usize),
        (c < ' ' || ('\u{7f}' <= c && c < '\u{a0}')) ==> r is None,
{
    c.width_cjk()
}

/// Symbols that CJK terminals draw two columns wide although Unicode calls them narrow.
pub open spec fn is_cjk_wide_symbol(c: char) -> bool {
    c == '✓' || c == '✗' || c == '✔' || c == '✘' || c == '★' || c == '☆' || c == '●'
        || c == '○' || c == '▲' || c == '▼' || c == '◀' || c == '▶' || c == '▪' || c == '▫'
        || c == '•' || c == '◦' || c == '▸' || c == '▹' || c == '⚠'
}

/// Width reported for `c` (control characters count as zero), capped at three columns,
/// which the table never exceeds.
pub open spec fn table_width(w: Option<usize>) -> nat {
    match w {
        Some(n) => if n <= 3 { n as nat } else { 3 },
        None => 0,
    }
}

/// The column width of a character; `cjk` selects the East Asian convention. Printable
/// ASCII is one column wide in both.
pub open spec fn spec_char_width(c: char, cjk: bool) -> nat {
    if ' ' <= c && c <= '~' {
        1
    } else if cjk {
        if is_cjk_wide_symbol(c) {
            2
        } else {
            table_width(uax11_width_cjk(c))
        }
    } else {
        table_width(uax11_width(c))
    }
}

/// The column width of a character sequence: the sum of its characters' widths.
pub open spec fn spec_str_width(s: Seq<char>, cjk: bool) -> nat
    decreases s.len(),
{
    if s.len() == 0 {
        0
    } else {
        spec_str_width(s.drop_last(), cjk) + spec_char_width(s.last(), cjk)
    }
}

/// Width of `c` in terminal columns.
pub fn char_width(c: char, cjk: bool) -> (w: usize)
    ensures
        w == spec_char_width(c, cjk),
        w <= 3,
        !cjk && '\u{2500}' <= c && c <= '\u{257f}' ==> w == 1,
{
    if cjk {
        if c == '✓' || c == '✗' || c == '✔' || c == '✘' || c == '★' || c == '☆' || c == '●'
            || c == '○' || c == '▲' || c == '▼' || c == '◀' || c == '▶' || c == '▪' || c == '▫'
            || c == '•' || c == '◦' || c == '▸' || c == '▹' || c == '⚠' {
            2
        } else {
            match unicode_char_width_cjk(c) {
                Some(w) => w,
                None => 0,
            }
        }
    } else {
        match unicode_char_width(c) {
            Some(w) => w,
            None => 0,
        }
    }
}

/// Width of `s` in terminal columns.
pub fn str_width(s: &str, cjk: bool) -> (w: usize)
    requires
        spec_str_width(s@, cjk) <= usize::MAX,
    ensures
        w == spec_str_width(s@, cjk),
        w <= 3 * s@.len(),
{
    let mut total: usize = 0;
    let ghost mut seen: Seq<char> = Seq::empty();
    proof {
        broadcast use vstd::string::group_string_axioms;
        lemma_width_bound(s@, cjk);
    }
    for c in it: s.chars()
        invariant
            it.seq() == s@,
            spec_str_width(s@, cjk) <= usize::MAX,
            seen == it.seq().take(it.index() as int),
            total == spec_str_width(seen, cjk),
    {
        proof {
            assert(seen.push(c).drop_last() == seen);
            lemma_width_prefix(s@, it.index() + 1, cjk);
            assert(s@.take(it.index() + 1) =~= seen.push(c));
        }
        total = total + char_width(c, cjk);
        proof { seen = seen.push(c); }
    }
    assert(seen =~= s@);
    total
}

/// The width of `s`, capped at `cap + 1`: enough to compare it with anything up to `cap`.
pub fn str_width_capped(s: &str, cap: usize, cjk: bool) -> (w: usize)
    requires
        cap < usize::MAX - 3,
    ensures
        w == capped(spec_str_width(s@, cjk), cap as nat),
{
    let mut total: usize = 0;
    let ghost mut seen: Seq<char> = Seq::empty();
    proof {
        broadcast use vstd::string::group_string_axioms;
    }
    for c in it: s.chars()
        invariant
            it.seq() == s@,
            cap < usize::MAX - 3,
            seen == it.seq().take(it.index() as int),
            total == spec_str_width(seen, cjk),
            total <= cap,
    {
        proof {
            assert(seen.push(c).drop_last() == seen);
            assert(s@.take(it.index() + 1) =~= seen.push(c));
        }
        total = total + char_width(c, cjk);
        proof {
            seen = seen.push(c);
        }
        if total > cap {
            proof {
                lemma_width_prefix(s@, seen.len() as int, cjk);
            }
            return cap + 1;
        }
    }
    assert(seen =~= s@);
    total
}

} // verus!

verus! {

/// The width of a concatenation is the sum of the widths.
pub proof fn lemma_width_concat(a: Seq<char>, b: Seq<char>, cjk: bool)
    ensures
        spec_str_width(a + b, cjk) == spec_str_width(a, cjk) + spec_str_width(b, cjk),
    decreases b.len(),
{
    if b.len() == 0 {
        assert(a + b =~= a);
    } else {
        lemma_width_concat(a, b.drop_last(), cjk);
        assert((a + b).drop_last() =~= a + b.drop_last());
    }
}

/// A prefix is no wider than the whole.
pub proof fn lemma_width_prefix(s: Seq<char>, k: int, cjk: bool)
    requires
        0 <= k <= s.len(),
    ensures
        spec_str_width(s.take(k), cjk) <= spec_str_width(s, cjk),
{
    lemma_width_concat(s.take(k), s.skip(k), cjk);
    assert(s.take(k) + s.skip(k) =~= s);
}

/// Widths are at most three columns per character.
pub proof fn lemma_width_bound(s: Seq<char>, cjk: bool)
    ensures
        spec_str_width(s, cjk) <= 3 * s.len(),
    decreases s.len(),
{
    if s.len() > 0 {
        lemma_width_bound(s.drop_last(), cjk);
    }
}

/// `n`, or `cap + 1` when `n` exceeds `cap`: enough to compare `n` with anything up to `cap`.
pub open spec fn capped(n: nat, cap: nat) -> nat {
    if n <= cap {
        n
    } else {
        cap + 1
    }
}

/// The width of `v[from..to]`, capped at `cap + 1`.
pub fn width_capped(v: &Vec<char>, from: usize, to: usize, cap: usize, cjk: bool) -> (w: usize)
    requires
        from <= to <= v@.len(),
        cap < usize::MAX - 3,
    ensures
        w == capped(spec_str_width(v@.subrange(from as int, to as int), cjk), cap as nat),
{
    let ghost s = v@.subrange(from as int, to as int);
    let mut total: usize = 0;
    let mut k = from;
    while k < to
        invariant
            from <= k <= to <= v@.len(),
            cap < usize::MAX - 3,
            s == v@.subrange(from as int, to as int),
            total == spec_str_width(s.take(k - from), cjk),
            total <= cap,
        decreases to - k,
    {
        assert(s.take(k - from + 1).drop_last() =~= s.take(k - from));
        total = total + char_width(v[k], cjk);
        k = k + 1;
        if total > cap {
            proof {
                lemma_width_prefix(s, k - from, cjk);
            }
            return cap + 1;
        }
    }
    assert(s.take(to - from) =~= s);
    total
}


/// Whether a locale name asks for East Asian widths: it names Chinese, Japanese or
/// Korean (`zh`, `ja` or `ko`, in any letter case, anywhere in the name).
pub open spec fn spec_locale_is_cjk(locale: Seq<char>) -> bool {
    let l = crate::text::str_lowercase(locale);
    crate::renderer::search::occurs(l, seq!['z', 'h']) || crate::renderer::search::occurs(l, seq!['j', 'a'])
        || crate::renderer::search::occurs(l, seq!['k', 'o'])
}

/// Whether a locale name asks for East Asian widths.
pub fn locale_is_cjk(locale: &str) -> (b: bool)
    ensures
        b == spec_locale_is_cjk(locale@),
{
    let lower = crate::text::to_lowercase(locale);
    let hay = crate::text::chars_of(lower.as_str());
    let zh = vec!['z', 'h'];
    let ja = vec!['j', 'a'];
    let ko = vec!['k', 'o'];
    assert(zh@ == seq!['z', 'h']);
    assert(ja@ == seq!['j', 'a']);
    assert(ko@ == seq!['k', 'o']);
    crate::renderer::search::find_all(&hay, &zh).len() > 0 || crate::renderer::search::find_all(&hay, &ja).len() > 0
        || crate::renderer::search::find_all(&hay, &ko).len() > 0
}

} // verus!
