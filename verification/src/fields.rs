//! Splitting text into lines, separated fields and words, and trimming
//! whitespace, over `Seq<char>` views.

use vstd::prelude::*;
use crate::text::{is_ws, is_whitespace};

verus! {

/// The character views of a vector of character rows.
pub open spec fn rows(v: Seq<Vec<char>>) -> Seq<Seq<char>> {
    v.map_values(|r: Vec<char>| r@)
}

/// The pieces of `s` between occurrences of `sep` (as `str::split` with a
/// character yields them), where `cur` is the piece read so far.
pub open spec fn split_from(s: Seq<char>, sep: char, cur: Seq<char>) -> Seq<Seq<char>>
    decreases s.len(),
{
    if s.len() == 0 {
        seq![cur]
    } else if s[0] == sep {
        seq![cur] + split_from(s.drop_first(), sep, seq![])
    } else {
        split_from(s.drop_first(), sep, cur.push(s[0]))
    }
}

pub open spec fn split_on(s: Seq<char>, sep: char) -> Seq<Seq<char>> {
    split_from(s, sep, seq![])
}

pub proof fn lemma_split_nonempty(s: Seq<char>, sep: char, cur: Seq<char>)
    ensures
        split_from(s, sep, cur).len() > 0,
    decreases s.len(),
{
    if s.len() > 0 {
        if s[0] == sep {
            lemma_split_nonempty(s.drop_first(), sep, seq![]);
        } else {
            lemma_split_nonempty(s.drop_first(), sep, cur.push(s[0]));
        }
    }
}

proof fn lemma_rows_push(v: Seq<Vec<char>>, x: Vec<char>)
    ensures
        rows(v.push(x)) == rows(v).push(x@),
{
    assert(rows(v.push(x)) =~= rows(v).push(x@));
}

/// The first `n` characters of `v`, copied.
pub fn copy_prefix(v: &Vec<char>, n: usize) -> (r: Vec<char>)
    requires
        n <= v.len(),
    ensures
        r@ == v@.take(n as int),
{
    let mut r: Vec<char> = Vec::new();
    let mut i: usize = 0;
    while i < n
        invariant
            i <= n <= v.len(),
            r@ == v@.take(i as int),
        decreases n - i,
    {
        r.push(v[i]);
        assert(v@.take(i + 1) == v@.take(i as int).push(v@[i as int]));
        i = i + 1;
    }
    r
}

/// The characters of `v` from `a` up to `b`, copied.
pub fn copy_range(v: &Vec<char>, a: usize, b: usize) -> (r: Vec<char>)
    requires
        a <= b <= v.len(),
    ensures
        r@ == v@.subrange(a as int, b as int),
{
    let mut r: Vec<char> = Vec::new();
    let mut i: usize = a;
    while i < b
        invariant
            a <= i <= b <= v.len(),
            r@ == v@.subrange(a as int, i as int),
        decreases b - i,
    {
        r.push(v[i]);
        assert(v@.subrange(a as int, i + 1) == v@.subrange(a as int, i as int).push(v@[i as int]));
        i = i + 1;
    }
    r
}

/// Splits `s` at every occurrence of `sep`.
pub fn split_chars(s: &Vec<char>, sep: char) -> (r: Vec<Vec<char>>)
    ensures
        rows(r@) == split_on(s@, sep),
{
    let mut out: Vec<Vec<char>> = Vec::new();
    let mut cur: Vec<char> = Vec::new();
    let mut i: usize = 0;
    assert(s@.skip(0) == s@);
    assert(rows(out@) =~= Seq::<Seq<char>>::empty());
    while i < s.len()
        invariant
            i <= s.len(),
            rows(out@) + split_from(s@.skip(i as int), sep, cur@) == split_on(s@, sep),
        decreases s.len() - i,
    {
        let c = s[i];
        let ghost rest = s@.skip(i as int);
        assert(rest.drop_first() == s@.skip(i + 1));
        if c == sep {
            let ghost before = out@;
            let ghost piece = cur@;
            out.push(cur);
            proof {
                lemma_rows_push(before, out@.last());
                assert(rows(before) + split_from(rest, sep, piece) == rows(out@) + split_from(
                    rest.drop_first(),
                    sep,
                    seq![],
                ));
            }
            cur = Vec::new();
        } else {
            cur.push(c);
        }
        i = i + 1;
    }
    let ghost before = out@;
    let ghost piece = cur@;
    out.push(cur);
    proof {
        lemma_rows_push(before, out@.last());
        assert(s@.skip(i as int).len() == 0);
        assert(rows(before) + split_from(s@.skip(i as int), sep, piece) == rows(out@));
    }
    out
}

/// A line without the carriage return that ended it.
pub open spec fn strip_cr(l: Seq<char>) -> Seq<char> {
    if l.len() > 0 && l.last() == '\r' {
        l.drop_last()
    } else {
        l
    }
}

/// The lines of `s`, as `str::lines` yields them: split at `'\n'`, a `'\r'`
/// before the `'\n'` dropped, and no empty line after a final `'\n'`.
pub open spec fn text_lines(s: Seq<char>) -> Seq<Seq<char>> {
    let parts = split_on(s, '\n');
    let body = parts.drop_last().map_values(|l: Seq<char>| strip_cr(l));
    if parts.last().len() == 0 {
        body
    } else {
        body.push(parts.last())
    }
}

/// The lines of `s`.
pub fn lines_of(s: &Vec<char>) -> (r: Vec<Vec<char>>)
    ensures
        rows(r@) == text_lines(s@),
{
    let parts = split_chars(s, '\n');
    proof {
        lemma_split_nonempty(s@, '\n', seq![]);
    }
    let ghost ps = split_on(s@, '\n');
    let n = parts.len();
    assert(rows(parts@)[n - 1] == parts@[n - 1]@);
    let mut out: Vec<Vec<char>> = Vec::new();
    let mut i: usize = 0;
    while i + 1 < n
        invariant
            n == parts@.len(),
            n >= 1,
            rows(parts@) == ps,
            i + 1 <= n,
            rows(out@) == ps.take(i as int).map_values(|l: Seq<char>| strip_cr(l)),
        decreases n - i,
    {
        let p = &parts[i];
        assert(rows(parts@)[i as int] == parts@[i as int]@);
        let k = if p.len() > 0 && p[p.len() - 1] == '\r' {
            p.len() - 1
        } else {
            p.len()
        };
        let line = copy_prefix(p, k);
        assert(line@ == strip_cr(ps[i as int]));
        let ghost before = out@;
        out.push(line);
        proof {
            lemma_rows_push(before, line);
            assert(ps.take(i + 1) == ps.take(i as int).push(ps[i as int]));
            assert(rows(out@) =~= ps.take(i + 1).map_values(|l: Seq<char>| strip_cr(l)));
        }
        i = i + 1;
    }
    assert(ps.take(i as int) == ps.drop_last());
    let last = &parts[n - 1];
    if last.len() > 0 {
        let line = copy_prefix(last, last.len());
        assert(last@.take(last@.len() as int) == last@);
        let ghost before = out@;
        out.push(line);
        proof {
            lemma_rows_push(before, line);
        }
    }
    out
}

/// `s` without leading whitespace.
pub open spec fn trim_start(s: Seq<char>) -> Seq<char>
    decreases s.len(),
{
    if s.len() > 0 && is_ws(s[0]) {
        trim_start(s.drop_first())
    } else {
        s
    }
}

/// `s` without trailing whitespace.
pub open spec fn trim_end(s: Seq<char>) -> Seq<char>
    decreases s.len(),
{
    if s.len() > 0 && is_ws(s.last()) {
        trim_end(s.drop_last())
    } else {
        s
    }
}

/// `s` without leading and trailing whitespace, as `str::trim` gives it.
pub open spec fn trim(s: Seq<char>) -> Seq<char> {
    trim_end(trim_start(s))
}

/// `s` without leading and trailing whitespace.
pub fn trim_chars(s: &Vec<char>) -> (r: Vec<char>)
    ensures
        r@ == trim(s@),
{
    let mut a: usize = 0;
    assert(s@.skip(0) == s@);
    while a < s.len() && is_whitespace(s[a])
        invariant
            a <= s.len(),
            trim_start(s@) == trim_start(s@.skip(a as int)),
        decreases s.len() - a,
    {
        assert(s@.skip(a as int).drop_first() == s@.skip(a + 1));
        a = a + 1;
    }
    assert(trim_start(s@) == s@.skip(a as int));
    assert(s@.skip(a as int) == s@.subrange(a as int, s@.len() as int));
    let mut b: usize = s.len();
    while b > a && is_whitespace(s[b - 1])
        invariant
            a <= b <= s.len(),
            trim(s@) == trim_end(s@.subrange(a as int, b as int)),
        decreases b - a,
    {
        assert(s@.subrange(a as int, b as int).drop_last() == s@.subrange(a as int, b - 1));
        b = b - 1;
    }
    copy_range(s, a, b)
}

/// The whitespace-separated words of `s` (as `str::split_whitespace` yields
/// them), where `cur` is the word read so far.
pub open spec fn words_from(s: Seq<char>, cur: Seq<char>) -> Seq<Seq<char>>
    decreases s.len(),
{
    if s.len() == 0 {
        if cur.len() > 0 { seq![cur] } else { seq![] }
    } else if is_ws(s[0]) {
        (if cur.len() > 0 { seq![cur] } else { Seq::<Seq<char>>::empty() }) + words_from(
            s.drop_first(),
            seq![],
        )
    } else {
        words_from(s.drop_first(), cur.push(s[0]))
    }
}

pub open spec fn words(s: Seq<char>) -> Seq<Seq<char>> {
    words_from(s, seq![])
}

/// The whitespace-separated words of `s`.
pub fn words_of(s: &Vec<char>) -> (r: Vec<Vec<char>>)
    ensures
        rows(r@) == words(s@),
{
    let mut out: Vec<Vec<char>> = Vec::new();
    let mut cur: Vec<char> = Vec::new();
    let mut i: usize = 0;
    assert(s@.skip(0) == s@);
    assert(rows(out@) =~= Seq::<Seq<char>>::empty());
    while i < s.len()
        invariant
            i <= s.len(),
            rows(out@) + words_from(s@.skip(i as int), cur@) == words(s@),
        decreases s.len() - i,
    {
        let c = s[i];
        let ghost rest = s@.skip(i as int);
        assert(rest.drop_first() == s@.skip(i + 1));
        if is_whitespace(c) {
            if cur.len() > 0 {
                let ghost before = out@;
                let ghost piece = cur@;
                out.push(cur);
                proof {
                    lemma_rows_push(before, out@.last());
                    assert(rows(before) + words_from(rest, piece) == rows(out@) + words_from(
                        rest.drop_first(),
                        seq![],
                    ));
                }
            } else {
                assert(rows(out@) + words_from(rest, cur@) == rows(out@) + words_from(
                    rest.drop_first(),
                    seq![],
                ));
            }
            cur = Vec::new();
        } else {
            cur.push(c);
        }
        i = i + 1;
    }
    assert(s@.skip(i as int).len() == 0);
    if cur.len() > 0 {
        let ghost before = out@;
        let ghost piece = cur@;
        out.push(cur);
        proof {
            lemma_rows_push(before, out@.last());
            assert(rows(before) + words_from(s@.skip(i as int), piece) == rows(out@));
        }
    } else {
        assert(rows(out@) + words_from(s@.skip(i as int), cur@) == rows(out@));
    }
    out
}

/// The index of the first `c` in `s`, or -1 where there is none.
pub open spec fn index_of_char(s: Seq<char>, c: char) -> int
    decreases s.len(),
{
    if s.len() == 0 {
        -1
    } else if s[0] == c {
        0
    } else {
        let r = index_of_char(s.drop_first(), c);
        if r < 0 {
            -1
        } else {
            r + 1
        }
    }
}

/// The index of the first `c` in `s`, where there is one.
pub fn find_char(s: &Vec<char>, c: char) -> (r: Option<usize>)
    ensures
        r is None <==> index_of_char(s@, c) < 0,
        r matches Some(k) ==> k == index_of_char(s@, c) && k < s@.len(),
{
    let mut i: usize = 0;
    assert(s@.skip(0) == s@);
    while i < s.len()
        invariant
            i <= s.len(),
            forall|j: int| 0 <= j < i ==> s@[j] != c,
            index_of_char(s@, c) == (if index_of_char(s@.skip(i as int), c) < 0 {
                -1
            } else {
                index_of_char(s@.skip(i as int), c) + i
            }),
        decreases s.len() - i,
    {
        assert(s@.skip(i as int).drop_first() == s@.skip(i + 1));
        if s[i] == c {
            return Some(i);
        }
        i = i + 1;
    }
    None
}

pub open spec fn is_digit(c: char) -> bool {
    '0' <= c && c <= '9'
}

pub open spec fn all_digits(d: Seq<char>) -> bool {
    forall|i: int| 0 <= i < d.len() ==> is_digit(#[trigger] d[i])
}

/// The value of a string of decimal digits.
pub open spec fn digits_value(d: Seq<char>) -> int
    decreases d.len(),
{
    if d.len() == 0 {
        0
    } else {
        digits_value(d.drop_last()) * 10 + (d.last() as int - '0' as int)
    }
}

/// A decimal `i64` as `str::parse::<i64>` reads it: an optional `+` or `-`,
/// then one or more ASCII digits, with a value in range; `None` otherwise.
pub open spec fn decimal_i64(s: Seq<char>) -> Option<i64> {
    let neg = s.len() > 0 && s[0] == '-';
    let d = if s.len() > 0 && (s[0] == '-' || s[0] == '+') {
        s.drop_first()
    } else {
        s
    };
    if d.len() > 0 && all_digits(d) {
        let v = if neg { -digits_value(d) } else { digits_value(d) };
        if i64::MIN <= v && v <= i64::MAX {
            Some(v as i64)
        } else {
            None
        }
    } else {
        None
    }
}

proof fn lemma_digits_nonneg(d: Seq<char>)
    requires
        all_digits(d),
    ensures
        digits_value(d) >= 0,
    decreases d.len(),
{
    if d.len() > 0 {
        assert(all_digits(d.drop_last())) by {
            assert forall|i: int| 0 <= i < d.drop_last().len() implies is_digit(#[trigger] d.drop_last()[i]) by {
                assert(d.drop_last()[i] == d[i]);
            }
        }
        lemma_digits_nonneg(d.drop_last());
        assert(is_digit(d[d.len() - 1]));
    }
}

proof fn lemma_digits_monotone(d: Seq<char>, j: int)
    requires
        all_digits(d),
        0 <= j <= d.len(),
    ensures
        digits_value(d.take(j)) <= digits_value(d),
    decreases d.len(),
{
    if j < d.len() {
        assert(all_digits(d.drop_last())) by {
            assert forall|i: int| 0 <= i < d.drop_last().len() implies is_digit(#[trigger] d.drop_last()[i]) by {
                assert(d.drop_last()[i] == d[i]);
            }
        }
        lemma_digits_monotone(d.drop_last(), j);
        assert(d.drop_last().take(j) == d.take(j));
        lemma_digits_nonneg(d.drop_last());
        assert(is_digit(d[d.len() - 1]));
    } else {
        assert(d.take(j) == d);
    }
}

/// Reads a decimal `i64` from `s`.
pub fn parse_decimal_i64(s: &Vec<char>) -> (r: Option<i64>)
    ensures
        r == decimal_i64(s@),
{
    let n = s.len();
    let neg = n > 0 && s[0] == '-';
    let start: usize = if n > 0 && (s[0] == '-' || s[0] == '+') {
        1
    } else {
        0
    };
    let ghost d = if s@.len() > 0 && (s@[0] == '-' || s@[0] == '+') {
        s@.drop_first()
    } else {
        s@
    };
    assert(d == s@.skip(start as int));
    if start >= n {
        return None;
    }
    let mut acc: u128 = 0;
    let mut i: usize = start;
    assert(d.take(0) == Seq::<char>::empty());
    while i < n
        invariant
            start <= i <= n == s@.len(),
            d == s@.skip(start as int),
            d == (if s@.len() > 0 && (s@[0] == '-' || s@[0] == '+') {
                s@.drop_first()
            } else {
                s@
            }),
            d.len() == n - start,
            acc as int == digits_value(d.take(i - start)),
            forall|k: int| start <= k < i ==> is_digit(#[trigger] s@[k]),
            acc <= 9223372036854775808,
        decreases n - i,
    {
        let c = s[i];
        if !('0' <= c && c <= '9') {
            assert(d[i - start] == c);
            assert(!is_digit(d[i - start]));
            assert(!all_digits(d));
            return None;
        }
        let digit = ((c as u32) - 48) as u128;
        assert(d.take(i + 1 - start).drop_last() == d.take(i - start));
        assert(d.take(i + 1 - start).last() == c);
        assert(digit as int == c as int - '0' as int);
        acc = acc * 10 + digit;
        assert(acc as int == digits_value(d.take(i + 1 - start)));
        i = i + 1;
        if acc > 9223372036854775808 {
            proof {
                if all_digits(d) {
                    lemma_digits_monotone(d, i - start);
                    assert(digits_value(d) > 9223372036854775808);
                }
            }
            return None;
        }
    }
    assert(d.take(n - start) == d);
    assert(all_digits(d)) by {
        assert forall|k: int| 0 <= k < d.len() implies is_digit(#[trigger] d[k]) by {
            assert(d[k] == s@[k + start]);
        }
    }
    if neg {
        let v: i128 = 0 - (acc as i128);
        Some(v as i64)
    } else if acc <= 9223372036854775807 {
        Some(acc as i64)
    } else {
        None
    }
}

} // verus!
