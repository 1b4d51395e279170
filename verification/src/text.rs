//! Small string operations of `std` that the library builds text with.
use vstd::prelude::*;

verus! {

/// Appends `t` to `s`.
pub(crate) fn push_str(s: &mut String, t: &str)
    ensures
        final(s)@ == old(s)@ + t@,
{
    s.append(t);
}

/// Calls `String::push`, which appends `c` to `s`.
#[verifier::external_body]
pub(crate) fn push_char(s: &mut String, c: char)
    ensures
        final(s)@ == old(s)@.push(c),
{
    s.push(c);
}

/// Calls `String::clear`, which leaves `s` empty.
#[verifier::external_body]
pub(crate) fn clear(s: &mut String)
    ensures
        final(s)@ == Seq::<char>::empty(),
{
    s.clear();
}

} // verus!

verus! {

/// Characters with the Unicode `White_Space` property, which `char::is_whitespace` tests.
pub open spec fn spec_is_whitespace(c: char) -> bool {
    ('\t' <= c && c <= '\r') || c == ' ' || c == '\u{85}' || c == '\u{a0}' || c == '\u{1680}'
        || ('\u{2000}' <= c && c <= '\u{200a}') || c == '\u{2028}' || c == '\u{2029}'
        || c == '\u{202f}' || c == '\u{205f}' || c == '\u{3000}'
}

/// Whether `c` is Unicode white space.
pub fn is_whitespace(c: char) -> (b: bool)
    ensures
        b == spec_is_whitespace(c),
{
    ('\t' <= c && c <= '\r') || c == ' ' || c == '\u{85}' || c == '\u{a0}' || c == '\u{1680}'
        || ('\u{2000}' <= c && c <= '\u{200a}') || c == '\u{2028}' || c == '\u{2029}'
        || c == '\u{202f}' || c == '\u{205f}' || c == '\u{3000}'
}

/// `s` without its leading white space.
pub open spec fn spec_trim_start(s: Seq<char>) -> Seq<char>
    decreases s.len(),
{
    if s.len() > 0 && spec_is_whitespace(s[0]) {
        spec_trim_start(s.drop_first())
    } else {
        s
    }
}

/// `s` without its trailing white space.
pub open spec fn spec_trim_end(s: Seq<char>) -> Seq<char>
    decreases s.len(),
{
    if s.len() > 0 && spec_is_whitespace(s.last()) {
        spec_trim_end(s.drop_last())
    } else {
        s
    }
}

/// `s` without leading and trailing white space, as `str::trim` gives it.
pub open spec fn spec_trim(s: Seq<char>) -> Seq<char> {
    spec_trim_end(spec_trim_start(s))
}

/// The characters of `s`.
pub fn chars_of(s: &str) -> (v: Vec<char>)
    ensures
        v@ == s@,
{
    proof {
        broadcast use vstd::string::group_string_axioms;
    }
    let mut v: Vec<char> = Vec::new();
    for c in it: s.chars()
        invariant
            it.seq() == s@,
            v@ == it.seq().take(it.index() as int),
    {
        v.push(c);
    }
    assert(v@ =~= s@);
    v
}

/// The string made of `v[from..to]`.
pub fn string_of_range(v: &Vec<char>, from: usize, to: usize) -> (s: String)
    requires
        from <= to <= v@.len(),
    ensures
        s@ == v@.subrange(from as int, to as int),
{
    let mut s = String::new();
    let mut k = from;
    while k < to
        invariant
            from <= k <= to <= v@.len(),
            s@ == v@.subrange(from as int, k as int),
        decreases to - k,
    {
        push_char(&mut s, v[k]);
        k = k + 1;
        assert(s@ =~= v@.subrange(from as int, k as int));
    }
    s
}

/// The string made of all of `v`.
pub fn string_of(v: &Vec<char>) -> (s: String)
    ensures
        s@ == v@,
{
    let s = string_of_range(v, 0, v.len());
    assert(v@.subrange(0, v@.len() as int) =~= v@);
    s
}

/// `n` copies of `s`, one after another.
pub open spec fn spec_repeat(s: Seq<char>, n: nat) -> Seq<char>
    decreases n,
{
    if n == 0 {
        Seq::empty()
    } else {
        spec_repeat(s, (n - 1) as nat) + s
    }
}

/// `n` copies of `s` hold `n` times as many characters.
pub proof fn lemma_repeat_len(s: Seq<char>, n: nat)
    ensures
        spec_repeat(s, n).len() == n * s.len(),
    decreases n,
{
    if n > 0 {
        let m = (n - 1) as nat;
        lemma_repeat_len(s, m);
        let l = s.len();
        assert(spec_repeat(s, n) == spec_repeat(s, m) + s);
        assert(n * l == m * l + l) by (nonlinear_arith)
            requires
                n == m + 1,
        ;
    } else {
        assert(n * s.len() == 0) by (nonlinear_arith)
            requires
                n == 0,
        ;
    }
}

/// `n` copies of `s` (`str::repeat`).
pub fn repeat_str(s: &str, n: usize) -> (r: String)
    ensures
        r@ == spec_repeat(s@, n as nat),
{
    let mut r = String::new();
    let mut k: usize = 0;
    while k < n
        invariant
            k <= n,
            r@ == spec_repeat(s@, k as nat),
        decreases n - k,
    {
        push_str(&mut r, s);
        k = k + 1;
    }
    r
}

/// The decimal digit `d`.
pub open spec fn digit_char(d: nat) -> char {
    if d == 0 {
        '0'
    } else if d == 1 {
        '1'
    } else if d == 2 {
        '2'
    } else if d == 3 {
        '3'
    } else if d == 4 {
        '4'
    } else if d == 5 {
        '5'
    } else if d == 6 {
        '6'
    } else if d == 7 {
        '7'
    } else if d == 8 {
        '8'
    } else {
        '9'
    }
}

/// The decimal numeral of `n`.
pub open spec fn spec_decimal(n: u64) -> Seq<char>
    decreases n,
{
    if n < 10 {
        seq![digit_char(n as nat)]
    } else {
        spec_decimal(n / 10).push(digit_char((n % 10) as nat))
    }
}

fn digit(d: u64) -> (c: char)
    requires
        d < 10,
    ensures
        c == digit_char(d as nat),
{
    if d == 0 {
        '0'
    } else if d == 1 {
        '1'
    } else if d == 2 {
        '2'
    } else if d == 3 {
        '3'
    } else if d == 4 {
        '4'
    } else if d == 5 {
        '5'
    } else if d == 6 {
        '6'
    } else if d == 7 {
        '7'
    } else if d == 8 {
        '8'
    } else {
        '9'
    }
}

/// Appends the decimal numeral of `n` to `s`.
pub fn push_decimal(s: &mut String, n: u64)
    ensures
        final(s)@ == old(s)@ + spec_decimal(n),
    decreases n,
{
    if n < 10 {
        push_char(s, digit(n));
        assert(old(s)@.push(digit_char(n as nat)) =~= old(s)@ + spec_decimal(n));
    } else {
        push_decimal(s, n / 10);
        push_char(s, digit(n % 10));
        assert(old(s)@ + spec_decimal(n / 10) + seq![digit_char((n % 10) as nat)] =~= old(s)@ + spec_decimal(n));
    }
}

/// The numeral of `n` has at most twenty digits.
pub proof fn lemma_decimal_len(n: u64)
    ensures
        1 <= spec_decimal(n).len() <= 20,
{
    reveal_with_fuel(pow10_nat, 21);
    assert(pow10_nat(20) == 100000000000000000000);
    lemma_decimal_len_bound(n, 20);
}

proof fn lemma_decimal_len_bound(n: u64, k: nat)
    requires
        1 <= k,
        n < pow10_nat(k),
    ensures
        1 <= spec_decimal(n).len() <= k,
    decreases n,
{
    if n >= 10 {
        let p = pow10_nat((k - 1) as nat);
        assert(pow10_nat(k) == 10 * p);
        assert(n / 10 < p) by (nonlinear_arith)
            requires
                n < 10 * p,
        ;
        if k == 1 {
            assert(pow10_nat(0) == 1);
        } else {
            lemma_decimal_len_bound(n / 10, (k - 1) as nat);
        }
    }
}

/// Ten to the power `k`.
pub open spec fn pow10_nat(k: nat) -> nat
    decreases k,
{
    if k == 0 {
        1
    } else {
        10 * pow10_nat((k - 1) as nat)
    }
}

/// What `str::to_lowercase` returns for a string.
pub uninterp spec fn str_lowercase(s: Seq<char>) -> Seq<char>;

/// Calls `str::to_lowercase`; its result depends on the string alone.
#[verifier::external_body]
pub(crate) fn to_lowercase(s: &str) -> (r: String)
    ensures
        r@ == str_lowercase(s@),
{
    s.to_lowercase()
}

/// What `char::to_lowercase` yields for a character (one or more characters).
pub uninterp spec fn char_lowercase(c: char) -> Seq<char>;

/// Calls `char::to_lowercase` and collects what it yields: its documentation promises one
/// or more characters, the character itself where it has no lowercase mapping.
#[verifier::external_body]
pub(crate) fn char_to_lowercase(c: char) -> (r: Vec<char>)
    ensures
        r@ == char_lowercase(c),
        r@.len() >= 1,
{
    c.to_lowercase().collect()
}

/// Whether `char::is_uppercase` holds of a character.
pub uninterp spec fn char_is_uppercase(c: char) -> bool;

/// Calls `char::is_uppercase`.
#[verifier::external_body]
pub(crate) fn is_uppercase(c: char) -> (b: bool)
    ensures
        b == char_is_uppercase(c),
{
    c.is_uppercase()
}

/// `s` without one trailing carriage return.
pub open spec fn strip_cr(s: Seq<char>) -> Seq<char> {
    if s.len() > 0 && s.last() == '\r' {
        s.drop_last()
    } else {
        s
    }
}

/// The lines of `s` (`str::lines`): the pieces between line feeds, each without the
/// carriage return of a CRLF ending; a line feed at the very end starts no further line.
pub open spec fn spec_lines(s: Seq<char>) -> Seq<Seq<char>> {
    let parts = spec_split(s, '\n');
    let n = if parts.last().len() == 0 {
        parts.len() - 1
    } else {
        parts.len() as int
    };
    Seq::new(
        n as nat,
        |i: int|
            if i < parts.len() - 1 {
                strip_cr(parts[i])
            } else {
                parts[i]
            },
    )
}

/// `s` with leading and trailing white space removed (`str::trim`).
pub fn trim(s: &str) -> (t: String)
    ensures
        t@ == spec_trim(s@),
{
    let v = chars_of(s);
    let mut a: usize = 0;
    assert(v@.subrange(0, v@.len() as int) =~= v@);
    while a < v.len() && is_whitespace(v[a])
        invariant
            a <= v@.len(),
            spec_trim_start(v@) == spec_trim_start(v@.subrange(a as int, v@.len() as int)),
        decreases v@.len() - a,
    {
        assert(v@.subrange(a as int, v@.len() as int).drop_first() =~= v@.subrange(
            a + 1,
            v@.len() as int,
        ));
        a = a + 1;
    }
    let ghost st = v@.subrange(a as int, v@.len() as int);
    assert(spec_trim_start(v@) == st);
    let mut b: usize = v.len();
    while b > a && is_whitespace(v[b - 1])
        invariant
            a <= b <= v@.len(),
            st == v@.subrange(a as int, v@.len() as int),
            spec_trim_end(st) == spec_trim_end(v@.subrange(a as int, b as int)),
        decreases b,
    {
        assert(v@.subrange(a as int, b as int).drop_last() =~= v@.subrange(a as int, b - 1));
        b = b - 1;
    }
    string_of_range(&v, a, b)
}

} // verus!

verus! {

/// The pieces of `s` between occurrences of `sep` (`str::split`): one more piece than
/// there are separators.
pub open spec fn spec_split(s: Seq<char>, sep: char) -> Seq<Seq<char>>
    decreases s.len(),
{
    if s.len() == 0 {
        seq![Seq::empty()]
    } else {
        let r = spec_split(s.drop_last(), sep);
        if s.last() == sep {
            r.push(Seq::empty())
        } else {
            r.update(r.len() - 1, r.last().push(s.last()))
        }
    }
}

/// The pieces of `s` each ending just after a space, the last one possibly without
/// (`str::split_inclusive(' ')`); none for an empty `s`.
pub open spec fn spec_split_words(s: Seq<char>) -> Seq<Seq<char>>
    decreases s.len(),
{
    if s.len() == 0 {
        Seq::empty()
    } else {
        let r = spec_split_words(s.drop_last());
        if r.len() == 0 || r.last().last() == ' ' {
            r.push(seq![s.last()])
        } else {
            r.update(r.len() - 1, r.last().push(s.last()))
        }
    }
}

pub proof fn lemma_split_nonempty(s: Seq<char>, sep: char)
    ensures
        spec_split(s, sep).len() >= 1,
    decreases s.len(),
{
    if s.len() > 0 {
        lemma_split_nonempty(s.drop_last(), sep);
    }
}

/// The pieces of `v` between occurrences of `sep`.
pub fn split_chars(v: &Vec<char>, sep: char) -> (r: Vec<Vec<char>>)
    ensures
        r@.len() >= 1,
        r@.len() == spec_split(v@, sep).len(),
        forall|k: int| 0 <= k < r@.len() ==> (#[trigger] r@[k])@ == spec_split(v@, sep)[k],
{
    let mut r: Vec<Vec<char>> = Vec::new();
    let mut cur: Vec<char> = Vec::new();
    let mut i: usize = 0;
    assert(v@.take(0) =~= Seq::<char>::empty());
    while i < v.len()
        invariant
            i <= v@.len(),
            r@.len() + 1 == spec_split(v@.take(i as int), sep).len(),
            forall|k: int| 0 <= k < r@.len() ==> (#[trigger] r@[k])@ == spec_split(v@.take(i as int), sep)[k],
            cur@ == spec_split(v@.take(i as int), sep).last(),
        decreases v@.len() - i,
    {
        proof {
            lemma_split_nonempty(v@.take(i as int), sep);
            assert(v@.take(i + 1).drop_last() =~= v@.take(i as int));
        }
        let c = v[i];
        if c == sep {
            let mut done = Vec::new();
            std::mem::swap(&mut done, &mut cur);
            r.push(done);
        } else {
            cur.push(c);
        }
        i = i + 1;
    }
    proof {
        lemma_split_nonempty(v@, sep);
        assert(v@.take(v@.len() as int) =~= v@);
    }
    r.push(cur);
    r
}

/// The pieces of `v` each ending just after a space.
pub fn split_words(v: &Vec<char>) -> (r: Vec<Vec<char>>)
    ensures
        r@.len() == spec_split_words(v@).len(),
        forall|k: int| 0 <= k < r@.len() ==> (#[trigger] r@[k])@ == spec_split_words(v@)[k],
{
    let mut r: Vec<Vec<char>> = Vec::new();
    let mut cur: Vec<char> = Vec::new();
    let mut i: usize = 0;
    assert(v@.take(0) =~= Seq::<char>::empty());
    while i < v.len()
        invariant
            i <= v@.len(),
            cur@.len() == 0 ==> r@.len() == spec_split_words(v@.take(i as int)).len(),
            cur@.len() > 0 ==> r@.len() + 1 == spec_split_words(v@.take(i as int)).len(),
            cur@.len() > 0 ==> cur@ == spec_split_words(v@.take(i as int)).last(),
            cur@.len() > 0 ==> cur@.last() != ' ',
            forall|k: int| 0 <= k < r@.len() ==> (#[trigger] r@[k])@ == spec_split_words(v@.take(i as int))[k],
            forall|k: int| 0 <= k < r@.len() ==> (#[trigger] r@[k])@.len() > 0,
            forall|k: int| 0 <= k < r@.len() ==> (#[trigger] r@[k])@.last() == ' ',
        decreases v@.len() - i,
    {
        proof {
            assert(v@.take(i + 1).drop_last() =~= v@.take(i as int));
        }
        let c = v[i];
        let ghost prev = spec_split_words(v@.take(i as int));
        let ghost next = spec_split_words(v@.take(i + 1));
        proof {
            if cur@.len() == 0 {
                assert(prev.len() == r@.len());
                if prev.len() > 0 {
                    assert(prev.last() == r@[r@.len() - 1]@);
                }
                assert(next == prev.push(seq![c]));
            } else {
                assert(next == prev.update(prev.len() - 1, prev.last().push(c)));
            }
        }
        let ghost r0 = r@;
        cur.push(c);
        if c == ' ' {
            let mut done = Vec::new();
            std::mem::swap(&mut done, &mut cur);
            r.push(done);
            assert forall|k: int| 0 <= k < r@.len() implies (#[trigger] r@[k])@ == next[k] by {
                if k < r0.len() {
                    assert(r@[k] == r0[k]);
                }
            }
        } else {
            assert forall|k: int| 0 <= k < r@.len() implies (#[trigger] r@[k])@ == next[k] by {
                assert(r@[k] == r0[k]);
            }
        }
        i = i + 1;
    }
    proof {
        assert(v@.take(v@.len() as int) =~= v@);
    }
    if cur.len() > 0 {
        r.push(cur);
    }
    r
}

/// The lines of `s` (`str::lines`).
pub fn lines_of(s: &str) -> (r: Vec<String>)
    ensures
        r@.len() == spec_lines(s@).len(),
        forall|i: int| 0 <= i < r@.len() ==> (#[trigger] r@[i])@ == spec_lines(s@)[i],
{
    let v = chars_of(s);
    let parts = split_chars(&v, '\n');
    let ghost ps = spec_split(v@, '\n');
    let last = &parts[parts.len() - 1];
    let n = if last.len() == 0 {
        parts.len() - 1
    } else {
        parts.len()
    };
    let mut r: Vec<String> = Vec::new();
    let mut i: usize = 0;
    while i < n
        invariant
            i <= n <= parts@.len(),
            parts@.len() >= 1,
            parts@.len() == ps.len(),
            ps == spec_split(s@, '\n'),
            n == spec_lines(s@).len(),
            forall|q: int| 0 <= q < parts@.len() ==> (#[trigger] parts@[q])@ == ps[q],
            r@.len() == i,
            forall|q: int| 0 <= q < i ==> (#[trigger] r@[q])@ == spec_lines(s@)[q],
        decreases n - i,
    {
        let piece = &parts[i];
        let end = if i < parts.len() - 1 && piece.len() > 0 && piece[piece.len() - 1] == '\r' {
            piece.len() - 1
        } else {
            piece.len()
        };
        let line = string_of_range(piece, 0, end);
        assert(line@ == spec_lines(s@)[i as int]) by {
            assert(piece@.subrange(0, end as int) =~= if (i as int) < ps.len() - 1 { strip_cr(ps[i as int]) } else { ps[i as int] }) by {
                if end < piece@.len() {
                    assert(piece@.subrange(0, end as int) =~= piece@.drop_last());
                } else {
                    assert(piece@.subrange(0, end as int) =~= piece@);
                }
            }
        }
        r.push(line);
        i = i + 1;
    }
    r
}

} // verus!
