//! Package-name parsing and fuzzy matching.

use vstd::prelude::*;
use crate::text::{is_ws, is_pkg_char, chars_of, string_of, is_whitespace, pkg_char, join_with};

verus! {

/// Separators between package names in manual input: commas and whitespace.
pub open spec fn is_sep(c: char) -> bool {
    c == ',' || is_ws(c)
}

/// The package names in `s`, where `cur` holds the allowed characters of the
/// field read so far: the input is split at separators, every field keeps only
/// its package-name characters, and fields left empty are dropped.
pub open spec fn tokens_from(s: Seq<char>, cur: Seq<char>) -> Seq<Seq<char>>
    decreases s.len(),
{
    if s.len() == 0 {
        if cur.len() > 0 { seq![cur] } else { seq![] }
    } else if is_sep(s[0]) {
        (if cur.len() > 0 { seq![cur] } else { Seq::<Seq<char>>::empty() }) + tokens_from(
            s.drop_first(),
            seq![],
        )
    } else {
        tokens_from(s.drop_first(), if is_pkg_char(s[0]) { cur.push(s[0]) } else { cur })
    }
}

pub open spec fn package_tokens(s: Seq<char>) -> Seq<Seq<char>> {
    tokens_from(s, seq![])
}

pub open spec fn pkg_chars_only(w: Seq<char>) -> bool {
    forall|i: int| 0 <= i < w.len() ==> is_pkg_char(#[trigger] w[i])
}

pub open spec fn is_pkg_word(w: Seq<char>) -> bool {
    w.len() > 0 && pkg_chars_only(w)
}

proof fn lemma_tokens_are_words(s: Seq<char>, cur: Seq<char>)
    requires
        pkg_chars_only(cur),
    ensures
        forall|i: int| 0 <= i < tokens_from(s, cur).len() ==> is_pkg_word(#[trigger] tokens_from(s, cur)[i]),
    decreases s.len(),
{
    if s.len() == 0 {
        if cur.len() > 0 {
            assert(tokens_from(s, cur) == seq![cur]);
            assert(is_pkg_word(cur));
        } else {
            assert(tokens_from(s, cur).len() == 0);
        }
    } else {
        if is_sep(s[0]) {
            lemma_tokens_are_words(s.drop_first(), seq![]);
            let head = if cur.len() > 0 { seq![cur] } else { Seq::<Seq<char>>::empty() };
            let rest = tokens_from(s.drop_first(), seq![]);
            assert(tokens_from(s, cur) == head + rest);
            assert forall|i: int| 0 <= i < tokens_from(s, cur).len() implies is_pkg_word(#[trigger] tokens_from(s, cur)[i]) by {
                if i >= head.len() {
                    assert(tokens_from(s, cur)[i] == rest[i - head.len()]);
                } else {
                    assert(tokens_from(s, cur)[i] == cur);
                }
            }
        } else if is_pkg_char(s[0]) {
            assert(pkg_chars_only(cur.push(s[0]))) by {
                assert forall|i: int| 0 <= i < cur.push(s[0]).len() implies is_pkg_char(#[trigger] cur.push(s[0])[i]) by {
                    if i < cur.len() {
                        assert(cur.push(s[0])[i] == cur[i]);
                    }
                }
            }
            lemma_tokens_are_words(s.drop_first(), cur.push(s[0]));
            assert(tokens_from(s, cur) == tokens_from(s.drop_first(), cur.push(s[0])));
        } else {
            lemma_tokens_are_words(s.drop_first(), cur);
            assert(tokens_from(s, cur) == tokens_from(s.drop_first(), cur));
        }
    }
}

proof fn lemma_word_then(w: Seq<char>, r: Seq<char>, cur: Seq<char>)
    requires
        pkg_chars_only(w),
    ensures
        tokens_from(w + r, cur) == tokens_from(r, cur + w),
    decreases w.len(),
{
    if w.len() == 0 {
        assert(w + r =~= r);
        assert(cur + w =~= cur);
    } else {
        let c = w[0];
        assert(is_pkg_char(c));
        assert(!is_sep(c));
        assert((w + r)[0] == c);
        assert((w + r).drop_first() =~= w.drop_first() + r);
        assert(pkg_chars_only(w.drop_first())) by {
            assert forall|i: int| 0 <= i < w.drop_first().len() implies is_pkg_char(#[trigger] w.drop_first()[i]) by {
                assert(w.drop_first()[i] == w[i + 1]);
            }
        }
        lemma_word_then(w.drop_first(), r, cur.push(c));
        assert(cur.push(c) + w.drop_first() =~= cur + w);
    }
}

proof fn lemma_join_then(toks: Seq<Seq<char>>, r: Seq<char>)
    requires
        toks.len() >= 1,
        forall|i: int| 0 <= i < toks.len() ==> is_pkg_word(#[trigger] toks[i]),
        r.len() == 0 || is_sep(r[0]),
    ensures
        tokens_from(join_with(toks, ","@) + r, seq![]) == toks + tokens_from(r, seq![]),
    decreases toks.len(),
{
    let last = toks.last();
    assert(is_pkg_word(toks[toks.len() - 1]));
    // a word followed by `r`
    lemma_word_then(last, r, seq![]);
    assert(Seq::<char>::empty() + last =~= last);
    if r.len() == 0 {
        assert(tokens_from(r, last) == seq![last]);
        assert(tokens_from(r, Seq::<char>::empty()) =~= Seq::<Seq<char>>::empty());
    } else {
        assert(tokens_from(r, last) == seq![last] + tokens_from(r.drop_first(), seq![]));
        assert(tokens_from(r, Seq::<char>::empty()) == Seq::<Seq<char>>::empty() + tokens_from(r.drop_first(), seq![]));
    }
    assert(tokens_from(last + r, seq![]) =~= seq![last] + tokens_from(r, seq![]));
    if toks.len() == 1 {
        assert(join_with(toks, ","@) == toks[0]);
        assert(toks =~= seq![last]);
    } else {
        let init = toks.drop_last();
        assert forall|i: int| 0 <= i < init.len() implies is_pkg_word(#[trigger] init[i]) by {
            assert(init[i] == toks[i]);
        }
        reveal_strlit(",");
        let r2 = ","@ + (last + r);
        assert(r2[0] == ',');
        lemma_join_then(init, r2);
        assert(join_with(toks, ","@) == join_with(init, ","@) + ","@ + last);
        assert(join_with(toks, ","@) + r =~= join_with(init, ","@) + r2);
        assert(r2.drop_first() =~= last + r);
        assert(tokens_from(r2, seq![]) == Seq::<Seq<char>>::empty() + tokens_from(r2.drop_first(), seq![]));
        assert(tokens_from(r2, seq![]) =~= seq![last] + tokens_from(r, seq![]));
        assert(init + (seq![last] + tokens_from(r, seq![])) =~= toks + tokens_from(r, seq![]));
    }
}

/// Parsing is idempotent: the names parsed from some input, joined with
/// commas, parse back to the same names in the same order.
pub proof fn law_parse_round_trip(s: Seq<char>)
    ensures
        package_tokens(join_with(package_tokens(s), ","@)) == package_tokens(s),
{
    let toks = package_tokens(s);
    lemma_tokens_are_words(s, seq![]);
    if toks.len() == 0 {
        assert(join_with(toks, ","@) == Seq::<char>::empty());
        assert(package_tokens(Seq::<char>::empty()) =~= Seq::<Seq<char>>::empty());
    } else {
        lemma_join_then(toks, seq![]);
        assert(join_with(toks, ","@) + Seq::<char>::empty() =~= join_with(toks, ","@));
        assert(tokens_from(Seq::<char>::empty(), Seq::<char>::empty()) =~= Seq::<Seq<char>>::empty());
        assert(toks + Seq::<Seq<char>>::empty() =~= toks);
    }
}

/// Splits manual input such as `"fastfetch,btop nvtop"` into package names.
pub fn parse_packages(input: &str) -> (out: Vec<String>)
    ensures
        out@.len() == package_tokens(input@).len(),
        forall|i: int| 0 <= i < out@.len() ==> #[trigger] out@[i]@ == package_tokens(input@)[i],
{
    let chars = chars_of(input);
    let mut out: Vec<String> = Vec::new();
    let ghost mut done: Seq<Seq<char>> = seq![];
    let mut cur: Vec<char> = Vec::new();
    let mut i: usize = 0;
    proof {
        assert(chars@.skip(0) == chars@);
        assert(done + tokens_from(chars@.skip(0), cur@) == tokens_from(chars@.skip(0), cur@));
    }
    while i < chars.len()
        invariant
            i <= chars.len(),
            chars@ == input@,
            out@.len() == done.len(),
            forall|k: int| 0 <= k < out@.len() ==> #[trigger] out@[k]@ == done[k],
            done + tokens_from(chars@.skip(i as int), cur@) == package_tokens(input@),
        decreases chars.len() - i,
    {
        let c = chars[i];
        let ghost rest = chars@.skip(i as int);
        assert(rest.drop_first() == chars@.skip(i + 1));
        if c == ',' || is_whitespace(c) {
            if cur.len() > 0 {
                let w = string_of(&cur);
                out.push(w);
                proof {
                    assert(done + tokens_from(rest, cur@) == done.push(cur@) + tokens_from(
                        rest.drop_first(),
                        seq![],
                    ));
                    done = done.push(cur@);
                }
            } else {
                proof {
                    assert(done + tokens_from(rest, cur@) == done + tokens_from(
                        rest.drop_first(),
                        seq![],
                    ));
                }
            }
            cur = Vec::new();
        } else if pkg_char(c) {
            cur.push(c);
        }
        i = i + 1;
    }
    if cur.len() > 0 {
        let w = string_of(&cur);
        out.push(w);
        proof {
            assert(chars@.skip(i as int).len() == 0);
            assert(done + tokens_from(chars@.skip(i as int), cur@) == done.push(cur@));
            done = done.push(cur@);
        }
    } else {
        proof {
            assert(chars@.skip(i as int).len() == 0);
            assert(done + tokens_from(chars@.skip(i as int), cur@) == done);
        }
    }
    out
}

/// Subsequence match score: walking the candidate from position `i`, the
/// query character `q[qi]` is looked for; each hit adds `10 + 6 * run`
/// (where `run` counts consecutive hits) minus the hit's position, and the
/// last query character adds a bonus of 100. The score is a 64-bit signed
/// integer and the arithmetic wraps on overflow, which only names and queries
/// of about a billion characters reach.
pub open spec fn fuzzy_from(c: Seq<char>, q: Seq<char>, i: int, qi: int, run: i64, score: i64) -> Option<i64>
    decreases c.len() - i,
{
    if i < 0 || i >= c.len() {
        None
    } else if c[i] == q[qi] {
        let run2 = run.wrapping_add(1);
        let score2 = score.wrapping_add(10i64.wrapping_add(run2.wrapping_mul(6))).wrapping_sub(i as i64);
        if qi + 1 < q.len() {
            fuzzy_from(c, q, i + 1, qi + 1, run2, score2)
        } else {
            Some(score2.wrapping_add(100))
        }
    } else {
        fuzzy_from(c, q, i + 1, qi, 0, score)
    }
}

/// The fuzzy score of `candidate` for `query`: `None` when the query is not a
/// subsequence of the candidate, `Some(0)` for the empty query.
pub open spec fn fuzzy_spec(c: Seq<char>, q: Seq<char>) -> Option<i64> {
    if q.len() == 0 {
        Some(0)
    } else {
        fuzzy_from(c, q, 0, 0, 0, 0)
    }
}

/// `f` places the characters of `q` from position `qi` on at increasing
/// positions of `c`, all at `i` or after, each on an equal character.
pub open spec fn embeds_from(f: Seq<int>, q: Seq<char>, qi: int, c: Seq<char>, i: int) -> bool {
    &&& f.len() == q.len() - qi
    &&& forall|k: int| 0 <= k < f.len() ==> i <= #[trigger] f[k] < c.len() && c[f[k]] == q[qi + k]
    &&& forall|k: int, l: int| 0 <= k < l < f.len() ==> #[trigger] f[k] < #[trigger] f[l]
}

/// The characters of `q` occur in `c` in the same order, not necessarily
/// next to each other.
pub open spec fn is_subsequence(q: Seq<char>, c: Seq<char>) -> bool {
    exists|f: Seq<int>| embeds_from(f, q, 0, c, 0)
}

proof fn lemma_fuzzy_matches_subsequence(c: Seq<char>, q: Seq<char>, i: int, qi: int, run: i64, score: i64)
    requires
        0 <= i,
        0 <= qi < q.len(),
    ensures
        fuzzy_from(c, q, i, qi, run, score) is Some <==> exists|f: Seq<int>| embeds_from(f, q, qi, c, i),
    decreases c.len() - i,
{
    let i1 = i + 1;
    let qi1 = qi + 1;
    if i >= c.len() {
        if exists|f: Seq<int>| embeds_from(f, q, qi, c, i) {
            let f = choose|f: Seq<int>| embeds_from(f, q, qi, c, i);
            assert(i <= f[0] < c.len());
        }
    } else if c[i] == q[qi] {
        let run2 = run.wrapping_add(1);
        let score2 = score.wrapping_add(10i64.wrapping_add(run2.wrapping_mul(6))).wrapping_sub(i as i64);
        if qi + 1 < q.len() {
            lemma_fuzzy_matches_subsequence(c, q, i + 1, qi + 1, run2, score2);
            if exists|g: Seq<int>| embeds_from(g, q, qi1, c, i1) {
                let g = choose|g: Seq<int>| embeds_from(g, q, qi1, c, i1);
                let f = seq![i] + g;
                assert forall|k: int| 0 <= k < f.len() implies i <= #[trigger] f[k] < c.len() && c[f[k]] == q[qi + k] by {
                    if k > 0 {
                        assert(f[k] == g[k - 1]);
                    }
                }
                assert forall|k: int, l: int| 0 <= k < l < f.len() implies #[trigger] f[k] < #[trigger] f[l] by {
                    assert(f[l] == g[l - 1]);
                    if k > 0 {
                        assert(f[k] == g[k - 1]);
                    }
                }
                assert(embeds_from(f, q, qi, c, i));
            }
            if exists|f: Seq<int>| embeds_from(f, q, qi, c, i) {
                let f = choose|f: Seq<int>| embeds_from(f, q, qi, c, i);
                let g = f.drop_first();
                assert forall|k: int| 0 <= k < g.len() implies i + 1 <= #[trigger] g[k] < c.len() && c[g[k]] == q[qi + 1 + k] by {
                    assert(g[k] == f[k + 1]);
                    assert(f[0] < f[k + 1]);
                }
                assert forall|k: int, l: int| 0 <= k < l < g.len() implies #[trigger] g[k] < #[trigger] g[l] by {
                    assert(g[k] == f[k + 1] && g[l] == f[l + 1]);
                }
                assert(embeds_from(g, q, qi1, c, i1));
            }
        } else {
            let f = seq![i];
            assert(embeds_from(f, q, qi, c, i));
        }
    } else {
        lemma_fuzzy_matches_subsequence(c, q, i + 1, qi, 0, score);
        if exists|g: Seq<int>| embeds_from(g, q, qi, c, i1) {
            let g = choose|g: Seq<int>| embeds_from(g, q, qi, c, i1);
            assert(embeds_from(g, q, qi, c, i));
        }
        if exists|f: Seq<int>| embeds_from(f, q, qi, c, i) {
            let f = choose|f: Seq<int>| embeds_from(f, q, qi, c, i);
            assert(f[0] != i);
            assert forall|k: int| 0 <= k < f.len() implies i + 1 <= #[trigger] f[k] < c.len() && c[f[k]] == q[qi + k] by {
                if k > 0 {
                    assert(f[0] < f[k]);
                }
            }
            assert(embeds_from(f, q, qi, c, i1));
        }
    }
}

/// A candidate gets a score exactly when the query's characters occur in it
/// in order: the empty query matches everything, and no candidate lacking
/// one of the query's characters, or holding them in another order, does.
pub proof fn law_score_exactly_for_subsequences(c: Seq<char>, q: Seq<char>)
    ensures
        fuzzy_spec(c, q) is Some <==> is_subsequence(q, c),
{
    if q.len() == 0 {
        assert(embeds_from(Seq::<int>::empty(), q, 0, c, 0));
    } else {
        lemma_fuzzy_matches_subsequence(c, q, 0, 0, 0, 0);
    }
}

/// Scores `candidate` against `query`, see `fuzzy_spec`.
pub fn fuzzy_score(candidate: &str, query: &str) -> (r: Option<i64>)
    ensures
        r == fuzzy_spec(candidate@, query@),
{
    let q = chars_of(query);
    if q.len() == 0 {
        return Some(0);
    }
    let c = chars_of(candidate);
    let mut score: i64 = 0;
    let mut qi: usize = 0;
    let mut run: i64 = 0;
    let mut i: usize = 0;
    while i < c.len()
        invariant
            c@ == candidate@,
            q@ == query@,
            0 < q@.len(),
            i <= c.len(),
            qi < q.len(),
            fuzzy_spec(c@, q@) == fuzzy_from(c@, q@, i as int, qi as int, run, score),
        decreases c.len() - i,
    {
        if c[i] == q[qi] {
            run = run.wrapping_add(1);
            score = score.wrapping_add(10i64.wrapping_add(run.wrapping_mul(6)));
            score = score.wrapping_sub(i as i64);
            if qi + 1 < q.len() {
                qi = qi + 1;
            } else {
                return Some(score.wrapping_add(100));
            }
        } else {
            run = 0;
        }
        i = i + 1;
    }
    None
}

} // verus!
