//! Character classes and small text operations over `Seq<char>` views.

use vstd::prelude::*;

verus! {

/// `String::push` appends one character at the end of the string.
pub assume_specification[ String::push ](s: &mut String, ch: char)
    ensures
        final(s)@ == old(s)@.push(ch),
;

/// `String::pop` removes and returns the last character, or returns `None`
/// and leaves an empty string as it is.
pub assume_specification[ String::pop ](s: &mut String) -> (r: Option<char>)
    ensures
        old(s)@.len() == 0 ==> r is None && final(s)@ == old(s)@,
        old(s)@.len() > 0 ==> r == Some(old(s)@.last()) && final(s)@ == old(s)@.drop_last(),
;

/// Unicode `White_Space` property, as `char::is_whitespace` decides it.
pub open spec fn is_ws(c: char) -> bool {
    ||| ('\u{9}' <= c && c <= '\u{d}')
    ||| c == ' '
    ||| c == '\u{85}'
    ||| c == '\u{a0}'
    ||| c == '\u{1680}'
    ||| ('\u{2000}' <= c && c <= '\u{200a}')
    ||| c == '\u{2028}'
    ||| c == '\u{2029}'
    ||| c == '\u{202f}'
    ||| c == '\u{205f}'
    ||| c == '\u{3000}'
}

pub fn is_whitespace(c: char) -> (r: bool)
    ensures
        r == is_ws(c),
{
    ('\u{9}' <= c && c <= '\u{d}') || c == ' ' || c == '\u{85}' || c == '\u{a0}' || c
        == '\u{1680}' || ('\u{2000}' <= c && c <= '\u{200a}') || c == '\u{2028}' || c
        == '\u{2029}' || c == '\u{202f}' || c == '\u{205f}' || c == '\u{3000}'
}

pub open spec fn is_ascii_alnum(c: char) -> bool {
    ||| ('a' <= c && c <= 'z')
    ||| ('A' <= c && c <= 'Z')
    ||| ('0' <= c && c <= '9')
}

/// Characters that may appear in a package name.
pub open spec fn is_pkg_char(c: char) -> bool {
    is_ascii_alnum(c) || c == '-' || c == '_' || c == '.' || c == '+' || c == '@'
}

pub fn pkg_char(c: char) -> (r: bool)
    ensures
        r == is_pkg_char(c),
{
    ('a' <= c && c <= 'z') || ('A' <= c && c <= 'Z') || ('0' <= c && c <= '9') || c == '-'
        || c == '_' || c == '.' || c == '+' || c == '@'
}

/// The characters of a string slice.
pub fn chars_of(s: &str) -> (v: Vec<char>)
    ensures
        v@ == s@,
{
    let mut v: Vec<char> = Vec::new();
    for c in it: s.chars()
        invariant
            v@ == it.seq().take(it.index() as int),
    {
        v.push(c);
    }
    v
}

/// A string holding the given characters.
pub fn string_of(v: &Vec<char>) -> (s: String)
    ensures
        s@ == v@,
{
    let mut s = String::new();
    let mut i: usize = 0;
    while i < v.len()
        invariant
            i <= v.len(),
            s@ == v@.take(i as int),
        decreases v.len() - i,
    {
        s.push(v[i]);
        proof {
            assert(v@.take(i + 1) == v@.take(i as int).push(v@[i as int]));
        }
        i = i + 1;
    }
    proof {
        assert(v@.take(v.len() as int) == v@);
    }
    s
}

} // verus!

verus! {

/// `parts` joined with `sep` between neighbours.
pub open spec fn join_with(parts: Seq<Seq<char>>, sep: Seq<char>) -> Seq<char>
    decreases parts.len(),
{
    if parts.len() == 0 {
        seq![]
    } else if parts.len() == 1 {
        parts[0]
    } else {
        join_with(parts.drop_last(), sep) + sep + parts.last()
    }
}

pub open spec fn strings_view(v: Seq<String>) -> Seq<Seq<char>> {
    v.map_values(|s: String| s@)
}

/// Joins strings with a separator, as `[String]::join` does.
pub fn join_strings(parts: &Vec<String>, sep: &str) -> (r: String)
    ensures
        r@ == join_with(strings_view(parts@), sep@),
{
    let mut r = String::new();
    let ghost pv = strings_view(parts@);
    let mut i: usize = 0;
    while i < parts.len()
        invariant
            i <= parts.len(),
            pv == strings_view(parts@),
            r@ == join_with(pv.take(i as int), sep@),
        decreases parts.len() - i,
    {
        proof {
            assert(pv.take(i + 1).drop_last() == pv.take(i as int));
            assert(pv.take(i + 1).last() == parts@[i as int]@);
        }
        if i > 0 {
            r.append(sep);
        } else {
            assert(pv.take(1) == seq![parts@[0]@]);
        }
        r.append(parts[i].as_str());
        i = i + 1;
    }
    assert(pv.take(parts.len() as int) == pv);
    r
}

pub open spec fn digit_char(d: int) -> char {
    if d == 0 { '0' } else if d == 1 { '1' } else if d == 2 { '2' } else if d == 3 { '3' }
    else if d == 4 { '4' } else if d == 5 { '5' } else if d == 6 { '6' } else if d == 7 { '7' }
    else if d == 8 { '8' } else { '9' }
}

/// Decimal digits of `n`, without leading zeros (`"0"` for zero).
pub open spec fn decimal(n: nat) -> Seq<char>
    decreases n,
{
    if n < 10 {
        seq![digit_char(n as int)]
    } else {
        decimal(n / 10) + seq![digit_char((n % 10) as int)]
    }
}

fn digit(d: usize) -> (c: char)
    requires
        d < 10,
    ensures
        c == digit_char(d as int),
{
    if d == 0 { '0' } else if d == 1 { '1' } else if d == 2 { '2' } else if d == 3 { '3' }
    else if d == 4 { '4' } else if d == 5 { '5' } else if d == 6 { '6' } else if d == 7 { '7' }
    else if d == 8 { '8' } else { '9' }
}

/// Decimal text of a count.
pub fn usize_text(n: usize) -> (r: String)
    ensures
        r@ == decimal(n as nat),
{
    let mut digits: Vec<char> = Vec::new();
    let mut m: usize = n;
    // digits collected least significant first
    while m >= 10
        invariant
            m <= n,
            decimal(n as nat) == decimal(m as nat) + digits@.reverse(),
        decreases m,
    {
        let d = m % 10;
        let c = digit(d);
        proof {
            assert(decimal(m as nat) == decimal((m / 10) as nat) + seq![c]);
            assert(digits@.push(c).reverse() == seq![c] + digits@.reverse());
            assert(decimal(m as nat) + digits@.reverse() == decimal((m / 10) as nat) + (seq![c] + digits@.reverse()));
        }
        digits.push(c);
        m = m / 10;
    }
    let c = digit(m);
    let mut r = String::new();
    r.push(c);
    assert(decimal(m as nat) == seq![c]);
    let mut k: usize = digits.len();
    while k > 0
        invariant
            k <= digits.len(),
            decimal(n as nat) == seq![c] + digits@.reverse(),
            r@ == seq![c] + digits@.reverse().take((digits.len() - k) as int),
        decreases k,
    {
        k = k - 1;
        proof {
            let rv = digits@.reverse();
            let j = (digits.len() - k - 1) as int;
            assert(rv[j] == digits@[k as int]);
            assert(rv.take(j + 1) == rv.take(j).push(rv[j]));
        }
        r.push(digits[k]);
        proof {
            let rv = digits@.reverse();
            assert(seq![c] + rv.take((digits.len() - k) as int) == (seq![c] + rv.take((digits.len() - k - 1) as int)).push(digits@[k as int]));
        }
    }
    assert(digits@.reverse().take(digits.len() as int) == digits@.reverse());
    r
}

/// Decimal text of a 64-bit count.
pub fn u64_text(n: u64) -> (r: String)
    ensures
        r@ == decimal(n as nat),
{
    let mut digits: Vec<char> = Vec::new();
    let mut m: u64 = n;
    // digits collected least significant first
    while m >= 10
        invariant
            m <= n,
            decimal(n as nat) == decimal(m as nat) + digits@.reverse(),
        decreases m,
    {
        let d = (m % 10) as usize;
        let c = digit(d);
        proof {
            assert(decimal(m as nat) == decimal((m / 10) as nat) + seq![c]);
            assert(digits@.push(c).reverse() == seq![c] + digits@.reverse());
            assert(decimal(m as nat) + digits@.reverse() == decimal((m / 10) as nat) + (seq![c] + digits@.reverse()));
        }
        digits.push(c);
        m = m / 10;
    }
    let c = digit(m as usize);
    let mut r = String::new();
    r.push(c);
    assert(decimal(m as nat) == seq![c]);
    let mut k: usize = digits.len();
    while k > 0
        invariant
            k <= digits.len(),
            decimal(n as nat) == seq![c] + digits@.reverse(),
            r@ == seq![c] + digits@.reverse().take((digits.len() - k) as int),
        decreases k,
    {
        k = k - 1;
        proof {
            let rv = digits@.reverse();
            let j = (digits.len() - k - 1) as int;
            assert(rv[j] == digits@[k as int]);
            assert(rv.take(j + 1) == rv.take(j).push(rv[j]));
        }
        r.push(digits[k]);
        proof {
            let rv = digits@.reverse();
            assert(seq![c] + rv.take((digits.len() - k) as int) == (seq![c] + rv.take((digits.len() - k - 1) as int)).push(digits@[k as int]));
        }
    }
    assert(digits@.reverse().take(digits.len() as int) == digits@.reverse());
    r
}

/// Whether two string slices hold the same characters.
pub fn text_eq(a: &str, b: &str) -> (r: bool)
    ensures
        r == (a@ == b@),
{
    let x = chars_of(a);
    let y = chars_of(b);
    if x.len() != y.len() {
        return false;
    }
    let mut i: usize = 0;
    while i < x.len()
        invariant
            x@ == a@,
            y@ == b@,
            x.len() == y.len(),
            i <= x.len(),
            forall|k: int| 0 <= k < i ==> x@[k] == y@[k],
        decreases x.len() - i,
    {
        if x[i] != y[i] {
            return false;
        }
        i = i + 1;
    }
    assert(x@ =~= y@);
    true
}

/// The characters of `s` for which `keep` holds, in order.
pub open spec fn pkg_chars_of(s: Seq<char>) -> Seq<char> {
    s.filter(|c: char| is_pkg_char(c))
}

/// Keeps only package-name characters.
pub fn keep_pkg_chars(s: &str) -> (r: String)
    ensures
        r@ == pkg_chars_of(s@),
{
    let cs = chars_of(s);
    let mut r = String::new();
    let mut i: usize = 0;
    while i < cs.len()
        invariant
            i <= cs.len(),
            cs@ == s@,
            r@ == pkg_chars_of(cs@.take(i as int)),
        decreases cs.len() - i,
    {
        proof {
            assert(cs@.take(i + 1).drop_last() == cs@.take(i as int));
            reveal_with_fuel(Seq::<char>::filter, 1);
        }
        if pkg_char(cs[i]) {
            r.push(cs[i]);
        }
        i = i + 1;
    }
    assert(cs@.take(cs.len() as int) == cs@);
    r
}

} // verus!

verus! {

/// Every character is ASCII.
pub open spec fn is_ascii_text(s: Seq<char>) -> bool {
    forall|i: int| 0 <= i < s.len() ==> (#[trigger] s[i] as u32) < 128
}

pub open spec fn upper_ascii_char(c: char) -> char {
    if 'a' <= c && c <= 'z' {
        ((c as u32) - 32) as char
    } else {
        c
    }
}

/// ASCII lower-case letters mapped to upper case, as `to_ascii_uppercase` does.
pub open spec fn ascii_upper(s: Seq<char>) -> Seq<char> {
    s.map_values(|c: char| upper_ascii_char(c))
}

/// Upper-casing ASCII letters first changes nothing once the text is
/// lower-cased, and keeps ASCII text ASCII.
pub proof fn lemma_ascii_case(s: Seq<char>)
    ensures
        ascii_lower(ascii_upper(s)) == ascii_lower(s),
        is_ascii_text(s) ==> is_ascii_text(ascii_upper(s)),
{
    assert forall|i: int| 0 <= i < s.len() implies #[trigger] lower_ascii_char(upper_ascii_char(s[i])) == lower_ascii_char(s[i]) by {
        let c = s[i];
        if 'a' <= c && c <= 'z' {
            let u = ((c as u32) - 32) as char;
            assert(u as u32 == (c as u32) - 32);
            assert('A' <= u && u <= 'Z');
            assert(((u as u32) + 32) as char == c);
        }
    }
    assert(ascii_lower(ascii_upper(s)) =~= ascii_lower(s));
    if is_ascii_text(s) {
        assert forall|i: int| 0 <= i < ascii_upper(s).len() implies (#[trigger] ascii_upper(s)[i] as u32) < 128 by {
            assert(ascii_upper(s)[i] == upper_ascii_char(s[i]));
            assert((s[i] as u32) < 128);
        }
    }
}

/// What `str::to_lowercase` returns for a string: the full Unicode lower-case mapping.
pub uninterp spec fn unicode_lowercase(s: Seq<char>) -> Seq<char>;

/// Calls `str::to_lowercase`; the result is named by `unicode_lowercase`.
/// On text that is all ASCII the Unicode lower-case mapping is the ASCII one
/// (`'A'..='Z'` to `'a'..='z'`, every other character kept), as the
/// documentation of `to_lowercase` and of `to_ascii_lowercase` give it.
#[verifier::external_body]
pub(crate) fn to_lowercase(s: &str) -> (r: String)
    ensures
        r@ == unicode_lowercase(s@),
        is_ascii_text(s@) ==> r@ == ascii_lower(s@),
{
    s.to_lowercase()
}

} // verus!

verus! {

pub open spec fn lower_ascii_char(c: char) -> char {
    if 'A' <= c && c <= 'Z' {
        ((c as u32) + 32) as char
    } else {
        c
    }
}

/// ASCII upper-case letters mapped to lower case, as `to_ascii_lowercase` does.
pub open spec fn ascii_lower(s: Seq<char>) -> Seq<char> {
    s.map_values(|c: char| lower_ascii_char(c))
}

fn lower_char(c: char) -> (r: char)
    ensures
        r == lower_ascii_char(c),
{
    if 'A' <= c && c <= 'Z' {
        let b = (c as u32) + 32;
        let r = (b as u8) as char;
        assert((b as u8) as u32 == b);
        r
    } else {
        c
    }
}

pub fn to_ascii_lower(s: &str) -> (r: String)
    ensures
        r@ == ascii_lower(s@),
{
    let cs = chars_of(s);
    let mut r = String::new();
    let mut i: usize = 0;
    while i < cs.len()
        invariant
            i <= cs.len(),
            cs@ == s@,
            r@ == ascii_lower(cs@.take(i as int)),
        decreases cs.len() - i,
    {
        r.push(lower_char(cs[i]));
        assert(ascii_lower(cs@.take(i + 1)) =~= ascii_lower(cs@.take(i as int)).push(lower_ascii_char(cs@[i as int])));
        i = i + 1;
    }
    assert(cs@.take(cs.len() as int) == cs@);
    r
}

/// `t` occurs in `s` as a contiguous piece.
pub open spec fn has_sub(s: Seq<char>, t: Seq<char>) -> bool {
    exists|i: int| 0 <= i && i + t.len() <= s.len() && #[trigger] s.subrange(i, i + t.len()) == t
}

pub fn contains_text(s: &Vec<char>, t: &str) -> (r: bool)
    ensures
        r == has_sub(s@, t@),
{
    let tc = chars_of(t);
    if tc.len() > s.len() {
        return false;
    }
    let mut i: usize = 0;
    while i <= s.len() - tc.len()
        invariant
            tc@ == t@,
            tc.len() <= s.len(),
            i <= s.len() - tc.len() + 1,
            forall|k: int| 0 <= k < i ==> #[trigger] s@.subrange(k, k + tc@.len()) != t@,
        decreases s.len() - i,
    {
        let mut j: usize = 0;
        let mut same = true;
        while j < tc.len()
            invariant
                tc@ == t@,
                i + tc.len() <= s.len(),
                j <= tc.len(),
                same == (forall|q: int| 0 <= q < j ==> s@[i + q] == tc@[q]),
            decreases tc.len() - j,
        {
            if s[i + j] != tc[j] {
                same = false;
            }
            j = j + 1;
        }
        if same {
            assert(s@.subrange(i as int, i + tc@.len()) =~= t@);
            return true;
        }
        assert(s@.subrange(i as int, i + tc@.len()) != t@) by {
            let q = choose|q: int| 0 <= q < tc@.len() && s@[i + q] != tc@[q];
            assert(s@.subrange(i as int, i + tc@.len())[q] == s@[i + q]);
        }
        i = i + 1;
    }
    false
}

/// Only whitespace, so that trimming leaves nothing.
pub open spec fn all_ws(s: Seq<char>) -> bool {
    forall|i: int| 0 <= i < s.len() ==> is_ws(#[trigger] s[i])
}

pub fn is_blank(s: &str) -> (r: bool)
    ensures
        r == all_ws(s@),
{
    let cs = chars_of(s);
    let mut i: usize = 0;
    while i < cs.len()
        invariant
            cs@ == s@,
            i <= cs.len(),
            forall|k: int| 0 <= k < i ==> is_ws(#[trigger] cs@[k]),
        decreases cs.len() - i,
    {
        if !is_whitespace(cs[i]) {
            return false;
        }
        i = i + 1;
    }
    true
}

} // verus!
