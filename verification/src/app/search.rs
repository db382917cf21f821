//! Incremental ranking of packages against the search query.

use vstd::prelude::*;
use crate::model::PackageRecord;
use crate::search::{fuzzy_score, fuzzy_spec, is_subsequence, law_score_exactly_for_subsequences};
use crate::text::{all_ws, ascii_lower, is_blank, to_ascii_lower};
use super::{App, AppModel, JobModel, usize_ints};
use crate::order::{seq_lt, str_lt, lemma_lt_transitive, lemma_lt_total, lemma_lt_asymmetric};

verus! {

/// Most matches kept for display.
pub const MAX_MATCHES: usize = 500;

/// Packages scored per tick.
pub const SEARCH_BATCH_SIZE: usize = 1200;

/// The score of package `i` for `query`, when it matches.
pub open spec fn score_of(p: Seq<PackageRecord>, query: Seq<char>, i: int) -> Option<int> {
    match fuzzy_spec(p[i].lower@, query) {
        Some(x) => Some(x as int),
        None => None,
    }
}

/// `a` ranks before `b`: higher score first, then the smaller name.
pub open spec fn ranks_before(p: Seq<PackageRecord>, a: (i64, usize), b: (i64, usize)) -> bool {
    a.0 > b.0 || (a.0 == b.0 && seq_lt(p[a.1 as int].name@, p[b.1 as int].name@))
}

pub proof fn lemma_rank_asymmetric(p: Seq<PackageRecord>, a: (i64, usize), b: (i64, usize))
    ensures
        ranks_before(p, a, b) ==> !ranks_before(p, b, a),
{
    lemma_lt_asymmetric(p[a.1 as int].name@, p[b.1 as int].name@);
}

/// Ranking is a strict weak order: if `a` ranks before `c`, then every `b`
/// ranks after `a` or before `c`.
pub proof fn lemma_rank_split(p: Seq<PackageRecord>, a: (i64, usize), b: (i64, usize), c: (i64, usize))
    ensures
        ranks_before(p, a, c) ==> ranks_before(p, a, b) || ranks_before(p, b, c),
{
    let (na, nb, nc) = (p[a.1 as int].name@, p[b.1 as int].name@, p[c.1 as int].name@);
    lemma_lt_total(na, nb);
    lemma_lt_total(nb, nc);
    if seq_lt(na, nc) && !seq_lt(na, nb) && !seq_lt(nb, nc) {
        if na == nb {
        } else {
            assert(seq_lt(nb, na));
            if nb == nc {
            } else {
                assert(seq_lt(nc, nb));
                lemma_lt_transitive(nc, nb, na);
                lemma_lt_asymmetric(na, nc);
            }
        }
    }
}

pub proof fn lemma_rank_transitive(p: Seq<PackageRecord>, a: (i64, usize), b: (i64, usize), c: (i64, usize))
    ensures
        ranks_before(p, a, b) && ranks_before(p, b, c) ==> ranks_before(p, a, c),
{
    if ranks_before(p, a, b) && ranks_before(p, b, c) && a.0 == b.0 && b.0 == c.0 {
        lemma_lt_transitive(p[a.1 as int].name@, p[b.1 as int].name@, p[c.1 as int].name@);
    }
}

/// A ranking in progress: `top` holds the best-ranked matches among the
/// packages before `cursor`.
#[derive(Clone, Debug)]
pub struct SearchJob {
    pub query: String,
    pub cursor: usize,
    pub top: Vec<(i64, usize)>,
}

pub open spec fn top_indices(top: Seq<(i64, usize)>) -> Seq<usize> {
    top.map_values(|e: (i64, usize)| e.1)
}

/// `top` is the best `MAX_MATCHES`-or-fewer matches among the first `n`
/// packages, best first.
#[verifier::opaque]
pub open spec fn is_top(p: Seq<PackageRecord>, query: Seq<char>, n: int, top: Seq<(i64, usize)>) -> bool {
    &&& top.len() <= MAX_MATCHES
    &&& forall|k: int| 0 <= k < top.len() ==> {
        &&& (#[trigger] top[k]).1 < n
        &&& score_of(p, query, top[k].1 as int) == Some(top[k].0 as int)
    }
    &&& forall|k: int, l: int| 0 <= k < l < top.len() ==> top[k].1 != top[l].1
    &&& forall|k: int, l: int| 0 <= k < l < top.len() ==> !ranks_before(p, #[trigger] top[l], #[trigger] top[k])
    &&& forall|i: int| 0 <= i < n && (#[trigger] score_of(p, query, i)) is Some ==> {
        ||| top_indices(top).contains(i as usize)
        ||| (top.len() == MAX_MATCHES && !ranks_before(p, (score_of(p, query, i)->0 as i64, i as usize), top.last()))
    }
}

impl SearchJob {
    pub open spec fn valid(&self, p: Seq<PackageRecord>) -> bool {
        &&& self.cursor <= p.len()
        &&& is_top(p, self.query@, self.cursor as int, self.top@)
    }
}

fn ranks_before_exec(p: &Vec<PackageRecord>, a: (i64, usize), b: (i64, usize)) -> (r: bool)
    requires
        a.1 < p@.len(),
        b.1 < p@.len(),
    ensures
        r == ranks_before(p@, a, b),
{
    a.0 > b.0 || (a.0 == b.0 && str_lt(p[a.1].name.as_str(), p[b.1].name.as_str()))
}

/// Inserts match `e` behind every entry that does not rank after it and
/// drops the worst entry beyond `MAX_MATCHES`.
fn insert_ranked(top: &mut Vec<(i64, usize)>, p: &Vec<PackageRecord>, query: Ghost<Seq<char>>, n: Ghost<int>, e: (i64, usize))
    requires
        is_top(p@, query@, n@, old(top)@),
        e.1 == n@,
        0 <= n@ < p@.len(),
        score_of(p@, query@, n@) == Some(e.0 as int),
    ensures
        is_top(p@, query@, n@ + 1, final(top)@),
{
    reveal(is_top);
    let ghost t0 = top@;
    let mut k: usize = top.len();
    while k > 0 && ranks_before_exec(p, e, top[k - 1])
        invariant
            k <= top@.len(),
            top@ == t0,
            0 <= n@ < p@.len(),
            e.1 < p@.len(),
            forall|l: int| 0 <= l < t0.len() ==> (#[trigger] t0[l]).1 < p@.len(),
            forall|l: int| k <= l < t0.len() ==> ranks_before(p@, e, #[trigger] t0[l]),
        decreases k,
    {
        k = k - 1;
    }
    // everything before position k does not rank after e
    assert(k == 0 || !ranks_before(p@, e, t0[k - 1]));
    proof {
        assert forall|l: int| 0 <= l < k implies !ranks_before(p@, e, #[trigger] t0[l]) by {
            if l < k - 1 {
                lemma_rank_transitive(p@, e, t0[l], t0[k - 1]);
                if ranks_before(p@, e, t0[l]) {
                    lemma_rank_split(p@, e, t0[k - 1], t0[l]);
                    lemma_rank_asymmetric(p@, t0[l], t0[k - 1]);
                }
            }
        }
    }
    if k < MAX_MATCHES {
        top.insert(k, e);
        let ghost t1 = top@;
        assert(t1 == t0.insert(k as int, e));
        proof {
            assert forall|a: int| 0 <= a < t1.len() implies {
                &&& (#[trigger] t1[a]).1 < n@ + 1
                &&& score_of(p@, query@, t1[a].1 as int) == Some(t1[a].0 as int)
            } by {
                if a < k {
                    assert(t1[a] == t0[a]);
                } else if a > k {
                    assert(t1[a] == t0[a - 1]);
                }
            }
            assert forall|a: int, b: int| 0 <= a < b < t1.len() implies !ranks_before(p@, #[trigger] t1[b], #[trigger] t1[a]) by {
                if a < k && b == k {
                    assert(t1[a] == t0[a]);
                } else if a == k && b > k {
                    assert(t1[b] == t0[b - 1]);
                    lemma_rank_asymmetric(p@, e, t0[b - 1]);
                } else if a < k && b > k {
                    assert(t1[a] == t0[a] && t1[b] == t0[b - 1]);
                } else if b < k {
                    assert(t1[a] == t0[a] && t1[b] == t0[b]);
                } else {
                    assert(t1[a] == t0[a - 1] && t1[b] == t0[b - 1]);
                }
            }
            assert forall|a: int, b: int| 0 <= a < b < t1.len() implies t1[a].1 != t1[b].1 by {
                if a < k && b == k {
                    assert(t1[a] == t0[a]);
                } else if a == k && b > k {
                    assert(t1[b] == t0[b - 1]);
                } else if a < k && b > k {
                    assert(t1[a] == t0[a] && t1[b] == t0[b - 1]);
                } else if b < k {
                    assert(t1[a] == t0[a] && t1[b] == t0[b]);
                } else {
                    assert(t1[a] == t0[a - 1] && t1[b] == t0[b - 1]);
                }
            }
        }
        if top.len() > MAX_MATCHES {
            let ghost t1 = top@;
            let dropped = top.pop();
            let ghost t2 = top@;
            proof {
                assert(t2 == t1.drop_last());
                // the dropped entry and everything that lost to the old last ranks no better than the new last
                assert forall|i: int| 0 <= i < n@ + 1 && (#[trigger] score_of(p@, query@, i)) is Some implies {
                    ||| top_indices(t2).contains(i as usize)
                    ||| (t2.len() == MAX_MATCHES && !ranks_before(p@, (score_of(p@, query@, i)->0 as i64, i as usize), t2.last()))
                } by {
                    let ei = (score_of(p@, query@, i)->0 as i64, i as usize);
                    if top_indices(t1).contains(i as usize) {
                        let j = choose|j: int| 0 <= j < t1.len() && top_indices(t1)[j] == i as usize;
                        if j < t2.len() {
                            assert(top_indices(t2)[j] == i as usize);
                        } else {
                            assert(t1[j].1 == i as usize);
                            assert(score_of(p@, query@, i) == Some(t1[j].0 as int));
                            assert(t1[j] == ei);
                            assert(j == t1.len() - 1);
                            assert(t2.last() == t1[t1.len() - 2]);
                            assert(!ranks_before(p@, t1[t1.len() - 1], t1[t1.len() - 2]));
                        }
                    } else {
                        if top_indices(t0).contains(i as usize) {
                            let j = choose|j: int| 0 <= j < t0.len() && top_indices(t0)[j] == i as usize;
                            if j < k {
                                assert(top_indices(t1)[j] == i as usize);
                            } else {
                                assert(top_indices(t1)[j + 1] == i as usize);
                            }
                        }
                        if i < n@ {
                            assert(t0.len() == MAX_MATCHES);
                            assert(!ranks_before(p@, ei, t0.last()));
                            let nl = t2.last();
                            lemma_rank_split(p@, ei, t0.last(), nl);
                            assert(nl == t1[t1.len() - 2]);
                            assert(!ranks_before(p@, t0.last(), nl)) by {
                                assert(t0.last() == t1.last());
                                assert(!ranks_before(p@, t1[t1.len() - 1], t1[t1.len() - 2]));
                            }
                            assert(t2.len() == MAX_MATCHES);
                        } else {
                            assert(t1[k as int] == e);
                            assert(top_indices(t1)[k as int] == i as usize);
                        }
                    }
                }
            }
        } else {
            proof {
                assert forall|i: int| 0 <= i < n@ + 1 && (#[trigger] score_of(p@, query@, i)) is Some implies {
                    ||| top_indices(t1).contains(i as usize)
                    ||| (t1.len() == MAX_MATCHES && !ranks_before(p@, (score_of(p@, query@, i)->0 as i64, i as usize), t1.last()))
                } by {
                    if i == n@ {
                        assert(top_indices(t1)[k as int] == i as usize);
                    } else if top_indices(t0).contains(i as usize) {
                        let j = choose|j: int| 0 <= j < t0.len() && top_indices(t0)[j] == i as usize;
                        if j < k {
                            assert(top_indices(t1)[j] == i as usize);
                        } else {
                            assert(top_indices(t1)[j + 1] == i as usize);
                        }
                    }
                }
            }
        }
    } else {
        proof {
            assert(t0.len() == MAX_MATCHES);
            assert forall|i: int| 0 <= i < n@ + 1 && (#[trigger] score_of(p@, query@, i)) is Some implies {
                ||| top_indices(t0).contains(i as usize)
                ||| (t0.len() == MAX_MATCHES && !ranks_before(p@, (score_of(p@, query@, i)->0 as i64, i as usize), t0.last()))
            } by {
                if i == n@ {
                    assert(score_of(p@, query@, i)->0 as i64 == e.0);
                }
            }
        }
    }
}


fn score_at(p: &Vec<PackageRecord>, query: &String, i: usize) -> (r: Option<i64>)
    requires
        i < p@.len(),
    ensures
        match score_of(p@, query@, i as int) {
            Some(v) => r matches Some(x) && x as int == v,
            None => r is None,
        },
{
    fuzzy_score(p[i].lower.as_str(), query.as_str())
}

impl SearchJob {
    /// Scores the next `SEARCH_BATCH_SIZE` packages.
    pub fn advance(&mut self, p: &Vec<PackageRecord>)
        requires
            old(self).valid(p@),
        ensures
            final(self).valid(p@),
            final(self).query == old(self).query,
            final(self).cursor == if old(self).cursor + SEARCH_BATCH_SIZE < p@.len() { old(self).cursor + SEARCH_BATCH_SIZE } else { p@.len() as int },
    {
        let start = self.cursor;
        let end = if p.len() - start > SEARCH_BATCH_SIZE { start + SEARCH_BATCH_SIZE } else { p.len() };
        let mut i = start;
        while i < end
            invariant
                start <= i <= end <= p@.len(),
                self.query == old(self).query,
                is_top(p@, self.query@, i as int, self.top@),
            decreases end - i,
        {
            let sc = score_at(p, &self.query, i);
            match sc {
                Some(v) => {
                    insert_ranked(&mut self.top, p, Ghost(self.query@), Ghost(i as int), (v, i));
                },
                None => {
                    proof {
                        reveal(is_top);
                        let t = self.top@;
                        assert forall|k: int| 0 <= k < i + 1 && (#[trigger] score_of(p@, self.query@, k)) is Some implies {
                            ||| top_indices(t).contains(k as usize)
                            ||| (t.len() == MAX_MATCHES && !ranks_before(p@, (score_of(p@, self.query@, k)->0 as i64, k as usize), t.last()))
                        } by {}
                    }
                },
            }
            i = i + 1;
        }
        self.cursor = end;
    }
}

/// Restarts the search: no query shows the first packages as they are,
/// otherwise a ranking job starts on the lower-cased query.
pub open spec fn refresh_spec(m: AppModel) -> AppModel {
    let m0 = AppModel { job: None, search_loading: false, ..m };
    if m.packages.len() == 0 {
        AppModel { matches: seq![], result_cursor: 0, ..m0 }
    } else if all_ws(m.search_query) {
        let n = if m.packages.len() < MAX_MATCHES { m.packages.len() as int } else { MAX_MATCHES as int };
        AppModel { matches: Seq::new(n as nat, |i: int| i), result_cursor: 0, ..m0 }
    } else {
        AppModel {
            matches: seq![],
            result_cursor: 0,
            search_loading: true,
            job: Some(JobModel { query: ascii_lower(m.search_query), cursor: 0, top: seq![] }),
            ..m0
        }
    }
}

/// End of the batch that starts at `cursor`.
pub open spec fn batch_end(cursor: int, len: int) -> int {
    if cursor + SEARCH_BATCH_SIZE < len { cursor + SEARCH_BATCH_SIZE } else { len }
}

/// One tick of the search job: the next batch is scored; after the last
/// batch the best matches become the results.
#[verifier::opaque]
pub open spec fn advance_post(m: AppModel, m2: AppModel) -> bool {
    match m.job {
        None => m2 =~= m,
        Some(j) => {
            let end = batch_end(j.cursor, m.packages.len() as int);
            if end < m.packages.len() {
                exists|top: Seq<(i64, usize)>| {
                    &&& is_top(m.packages, j.query, end, top)
                    &&& m2 == AppModel { job: Some(JobModel { query: j.query, cursor: end, top }), search_loading: true, ..m }
                }
            } else {
                exists|top: Seq<(i64, usize)>| {
                    &&& is_top(m.packages, j.query, m.packages.len() as int, top)
                    &&& m2 == AppModel { job: None, matches: usize_ints(top_indices(top)), search_loading: false, ..m }
                }
            }
        },
    }
}

/// Each tick moves a running search forward: either it scores the next
/// batch of packages (its cursor advancing by a full batch, never past the
/// index) or it ends and publishes its results; the queue, the index and
/// the screen stay as they were.
pub proof fn law_search_advances(m: AppModel, m2: AppModel)
    requires
        m.wf(),
        m.job is Some,
        advance_post(m, m2),
    ensures
        m2.job is None || (m2.job->0.cursor == m.job->0.cursor + SEARCH_BATCH_SIZE && m2.job->0.cursor < m.packages.len()),
        m2.job is None ==> !m2.search_loading,
        m2.queue == m.queue,
        m2.packages == m.packages,
        m2.screen == m.screen,
        m2.search_query == m.search_query,
{
    reveal(advance_post);
}

/// A running search finishes on the tick whose batch reaches the end of the
/// index, so a search started on `n` packages ends after one tick per
/// `SEARCH_BATCH_SIZE` packages (at least one); its results are then the
/// best-ranked matches among all the packages (at most `MAX_MATCHES`, by
/// score and then by name, see `is_top`), the loading flag drops and the
/// cursor of the results is left where it was.
pub proof fn law_search_result_is_top_of_all(m: AppModel, m2: AppModel)
    requires
        m.wf(),
        m.job is Some,
        advance_post(m, m2),
    ensures
        (m2.job is None) <==> m.job->0.cursor + SEARCH_BATCH_SIZE >= m.packages.len(),
        m2.job is None ==> exists|top: Seq<(i64, usize)>| {
            &&& is_top(m.packages, m.job->0.query, m.packages.len() as int, top)
            &&& m2.matches == usize_ints(top_indices(top))
        },
        m2.job is None ==> !m2.search_loading,
        m2.job is Some ==> m2.search_loading && m2.matches == m.matches,
{
    reveal(advance_post);
}

/// The published results of a search are best first: when a tick ends the
/// search, every listed package matches the query, none is listed twice, no
/// entry has a lower score than an entry after it (equal scores go by name),
/// and a matching package that is left out scores no higher than the last
/// one listed, which happens only when `MAX_MATCHES` are listed.
pub proof fn law_results_are_best_first(m: AppModel, m2: AppModel)
    requires
        m.packages.len() <= usize::MAX,
        m.job is Some,
        advance_post(m, m2),
        m2.job is None,
    ensures
        ({
            let p = m.packages;
            let q = m.job->0.query;
            let r = m2.matches;
            &&& r.len() <= MAX_MATCHES
            &&& forall|a: int| 0 <= a < r.len() ==> 0 <= #[trigger] r[a] < p.len() && score_of(p, q, r[a]) is Some
            &&& forall|a: int, b: int| 0 <= a < b < r.len() ==> #[trigger] r[a] != #[trigger] r[b]
            &&& forall|a: int, b: int| 0 <= a < b < r.len() ==>
                (score_of(p, q, #[trigger] r[a])->0 > score_of(p, q, #[trigger] r[b])->0
                || (score_of(p, q, r[a])->0 == score_of(p, q, r[b])->0 && !seq_lt(p[r[b]].name@, p[r[a]].name@)))
            &&& forall|i: int| 0 <= i < p.len() && (#[trigger] score_of(p, q, i)) is Some && !r.contains(i) ==> {
                &&& r.len() == MAX_MATCHES
                &&& score_of(p, q, i)->0 <= score_of(p, q, r[r.len() - 1])->0
            }
            &&& forall|a: int| 0 <= a < r.len() ==> is_subsequence(q, #[trigger] p[r[a]].lower@)
            &&& forall|i: int| 0 <= i < p.len() && is_subsequence(q, #[trigger] p[i].lower@) && !r.contains(i) ==> r.len() == MAX_MATCHES
        }),
{
    assert forall|i: int| 0 <= i < m.packages.len() implies (#[trigger] score_of(m.packages, m.job->0.query, i) is Some
        <==> is_subsequence(m.job->0.query, m.packages[i].lower@)) by {
        law_score_exactly_for_subsequences(m.packages[i].lower@, m.job->0.query);
    }
    reveal(advance_post);
    reveal(is_top);
    let p = m.packages;
    let q = m.job->0.query;
    let top = choose|top: Seq<(i64, usize)>| {
        &&& is_top(m.packages, q, m.packages.len() as int, top)
        &&& m2 == AppModel { job: None, matches: usize_ints(top_indices(top)), search_loading: false, ..m }
    };
    let r = m2.matches;
    assert(r.len() == top.len());
    assert forall|a: int| 0 <= a < r.len() implies r[a] == top[a].1 as int by {}
    assert forall|a: int| 0 <= a < r.len() implies 0 <= #[trigger] r[a] < p.len() && score_of(p, q, r[a]) is Some by {
        assert(r[a] == top[a].1 as int);
    }
    assert forall|a: int, b: int| 0 <= a < b < r.len() implies #[trigger] r[a] != #[trigger] r[b] by {
        assert(r[a] == top[a].1 as int && r[b] == top[b].1 as int);
    }
    assert forall|a: int, b: int| 0 <= a < b < r.len() implies
        (score_of(p, q, #[trigger] r[a])->0 > score_of(p, q, #[trigger] r[b])->0
        || (score_of(p, q, r[a])->0 == score_of(p, q, r[b])->0 && !seq_lt(p[r[b]].name@, p[r[a]].name@))) by {
        assert(r[a] == top[a].1 as int && r[b] == top[b].1 as int);
        assert(!ranks_before(p, top[b], top[a]));
    }
    assert forall|i: int| 0 <= i < p.len() && (#[trigger] score_of(p, q, i)) is Some && !r.contains(i) implies {
        &&& r.len() == MAX_MATCHES
        &&& score_of(p, q, i)->0 <= score_of(p, q, r[r.len() - 1])->0
    } by {
        if top_indices(top).contains(i as usize) {
            let k = choose|k: int| 0 <= k < top_indices(top).len() && top_indices(top)[k] == i as usize;
            assert(top_indices(top)[k] == top[k].1);
            assert(r[k] == top[k].1 as int);
            assert(r[k] == i);
            assert(r.contains(i));
        }
        assert(top.len() == MAX_MATCHES);
        assert(r[r.len() - 1] == top.last().1 as int);
        assert(!ranks_before(p, (score_of(p, q, i)->0 as i64, i as usize), top.last()));
    }
    assert forall|a: int| 0 <= a < r.len() implies is_subsequence(q, #[trigger] p[r[a]].lower@) by {
        assert(score_of(p, q, r[a]) is Some);
    }
    assert forall|i: int| 0 <= i < p.len() && is_subsequence(q, #[trigger] p[i].lower@) && !r.contains(i) implies r.len() == MAX_MATCHES by {
        assert(score_of(p, q, i) is Some);
    }
}

/// Ticks a search over `n` packages takes: one per `SEARCH_BATCH_SIZE`
/// packages, the last batch possibly short.
pub open spec fn search_ticks(n: int) -> int {
    (n + SEARCH_BATCH_SIZE - 1) / (SEARCH_BATCH_SIZE as int)
}

/// `ms[j + 1]` is one tick of the search after `ms[j]`.
pub open spec fn tick_at(ms: Seq<AppModel>, j: int) -> bool {
    advance_post(ms[j], ms[j + 1])
}

/// Each state of `ms` is one tick after the one before.
pub open spec fn ticks(ms: Seq<AppModel>) -> bool {
    forall|j: int| 0 <= j < ms.len() - 1 ==> #[trigger] tick_at(ms, j)
}

/// Where the search that `m`'s query started stands in `s`, after `k`
/// ticks: still loading, with no results and its cursor `k` batches in,
/// or done, its results the best-ranked matches among all the packages.
pub open spec fn search_after(m: AppModel, k: int, s: AppModel) -> bool {
    let n = m.packages.len() as int;
    &&& s.packages == m.packages
    &&& if k < search_ticks(n) {
        &&& s.search_loading
        &&& s.matches.len() == 0
        &&& s.job is Some
        &&& s.job->0.query == ascii_lower(m.search_query)
        &&& s.job->0.cursor == k * SEARCH_BATCH_SIZE
    } else {
        &&& !s.search_loading
        &&& s.job is None
        &&& exists|top: Seq<(i64, usize)>| {
            &&& is_top(m.packages, ascii_lower(m.search_query), n, top)
            &&& s.matches == usize_ints(top_indices(top))
        }
    }
}

proof fn lemma_batches_left(n: int, j: int)
    requires
        n >= 1,
        0 <= j < search_ticks(n),
    ensures
        (j + 1) * SEARCH_BATCH_SIZE < n <==> j + 1 < search_ticks(n),
        j * SEARCH_BATCH_SIZE < n,
{
    assert((j + 1) * 1200 < n <==> j + 1 < (n + 1199) / 1200) by (nonlinear_arith)
        requires
            n >= 1,
            j >= 0,
    ;
    assert(j * 1200 < n) by (nonlinear_arith)
        requires
            n >= 1,
            0 <= j < (n + 1199) / 1200,
    ;
}

/// One tick moves a search from where it stands after `k` ticks to where it
/// stands after `k + 1`.
pub proof fn lemma_search_step(m: AppModel, k: int, s: AppModel, s2: AppModel)
    requires
        m.packages.len() >= 1,
        0 <= k,
        search_after(m, k, s),
        advance_post(s, s2),
    ensures
        search_after(m, k + 1, s2),
{
    let n = m.packages.len() as int;
    reveal(advance_post);
    if k < search_ticks(n) {
        lemma_batches_left(n, k);
        assert(batch_end(s.job->0.cursor, n) == if k + 1 < search_ticks(n) { (k + 1) * SEARCH_BATCH_SIZE } else { n });
    } else {
        assert(s2 == s);
    }
}

proof fn lemma_search_after(m: AppModel, ms: Seq<AppModel>, k: int)
    requires
        m.packages.len() >= 1,
        !all_ws(m.search_query),
        ms.len() >= 1,
        ms[0] == refresh_spec(m),
        ticks(ms),
        0 <= k < ms.len(),
    ensures
        search_after(m, k, ms[k]),
    decreases k,
{
    let n = m.packages.len() as int;
    if k == 0 {
        assert(search_ticks(n) >= 1);
    } else {
        lemma_search_after(m, ms, k - 1);
        assert(tick_at(ms, k - 1));
        lemma_search_step(m, k - 1, ms[k - 1], ms[k]);
    }
}

/// A search started on a query that is not blank, over an index of `n`
/// packages (at least one), then moved on tick after tick with nothing else
/// in between (`ms[0]` the state the query left, each next state one tick
/// after the one before): for the first `search_ticks(n)` states it is still
/// loading, shows no results and has its cursor one batch further on each
/// tick; from then on it is done, and its results are the best-ranked
/// matches of the lower-cased query among all the packages. The same holds
/// of the executable steps: `refresh_matches` leaves the search where it
/// stands after no tick, and each `advance_search_job` moves it one tick on.
pub proof fn law_search_after_ticks(m: AppModel, ms: Seq<AppModel>)
    requires
        m.packages.len() >= 1,
        !all_ws(m.search_query),
        ms.len() >= 1,
        ms[0] == refresh_spec(m),
        ticks(ms),
    ensures
        forall|k: int| 0 <= k < ms.len() ==> search_after(m, k, #[trigger] ms[k]),
{
    assert forall|k: int| 0 <= k < ms.len() implies search_after(m, k, #[trigger] ms[k]) by {
        lemma_search_after(m, ms, k);
    }
}

impl App {
    pub fn refresh_matches(&mut self)
        requires
            old(self).wf(),
        ensures
            final(self).wf(),
            final(self)@ == refresh_spec(old(self)@),
            old(self)@.packages.len() >= 1 && !all_ws(old(self)@.search_query) ==> search_after(old(self)@, 0, final(self)@),
    {
        let ghost m0 = self@;
        proof {
            if m0.packages.len() >= 1 {
                assert(search_ticks(m0.packages.len() as int) >= 1);
            }
        }
        self.search_job = None;
        self.search_loading = false;
        if self.packages.len() == 0 {
            self.matches.clear();
            self.result_cursor = 0;
            assert(self@ =~= refresh_spec(m0));
            return;
        }
        if is_blank(self.search_query.as_str()) {
            let n = if self.packages.len() < MAX_MATCHES { self.packages.len() } else { MAX_MATCHES };
            let mut v: Vec<usize> = Vec::new();
            let mut i: usize = 0;
            while i < n
                invariant
                    i <= n,
                    v@.len() == i,
                    forall|k: int| 0 <= k < i ==> v@[k] == k,
                decreases n - i,
            {
                v.push(i);
                i = i + 1;
            }
            self.matches = v;
            self.result_cursor = 0;
            assert(usize_ints(self.matches@) =~= Seq::new(n as nat, |i: int| i));
            assert(self@ =~= refresh_spec(m0));
            return;
        }
        self.matches.clear();
        self.result_cursor = 0;
        self.search_loading = true;
        let q = to_ascii_lower(self.search_query.as_str());
        self.search_job = Some(SearchJob { query: q, cursor: 0, top: Vec::new() });
        proof { reveal(is_top); }
        assert(self@.matches =~= Seq::<int>::empty());
        assert(self@ =~= refresh_spec(m0));
    }

    /// One tick of the running search, see `advance_post`; after `k` ticks
    /// of a search the state is one tick further on (`search_after`).
    pub fn advance_search_job(&mut self)
        requires
            old(self).wf(),
        ensures
            final(self).wf(),
            advance_post(old(self)@, final(self)@),
            final(self).spinner_tick == old(self).spinner_tick,
            forall|m: AppModel, k: int|
                m.packages.len() >= 1 && 0 <= k && #[trigger] search_after(m, k, old(self)@)
                    ==> search_after(m, k + 1, final(self)@),
    {
        let ghost m0 = self@;
        self.advance_job();
        proof {
            assert forall|m: AppModel, k: int|
                m.packages.len() >= 1 && 0 <= k && #[trigger] search_after(m, k, m0)
                    implies search_after(m, k + 1, self@) by {
                lemma_search_step(m, k, m0, self@);
            }
        }
    }

    #[verifier::rlimit(40)]
    fn advance_job(&mut self)
        requires
            old(self).wf(),
        ensures
            final(self).wf(),
            advance_post(old(self)@, final(self)@),
            final(self).spinner_tick == old(self).spinner_tick,
    {
        proof { reveal(advance_post); }
        let ghost m0 = self@;
        if self.search_job.is_none() {
            assert(advance_post(m0, self@));
            return;
        }
        let job = self.search_job.take();
        match job {
            None => { assert(false); },
            Some(mut job) => {
                job.advance(&self.packages);
                if job.cursor < self.packages.len() {
                    let ghost top = job.top@;
                    self.search_job = Some(job);
                    self.search_loading = true;
                    assert(self@ =~= (AppModel { job: Some(JobModel { query: m0.job->0.query, cursor: self@.job->0.cursor, top }), search_loading: true, ..m0 }));
                    assert(is_top(m0.packages, m0.job->0.query, self@.job->0.cursor, top));
                    assert(advance_post(m0, self@));
                } else {
                    let ghost top = job.top@;
                    let mut out: Vec<usize> = Vec::new();
                    let mut k: usize = 0;
                    while k < job.top.len()
                        invariant
                            k <= job.top@.len(),
                            out@ == top_indices(job.top@).take(k as int),
                        decreases job.top@.len() - k,
                    {
                        out.push(job.top[k].1);
                        assert(top_indices(job.top@).take(k + 1) =~= top_indices(job.top@).take(k as int).push(job.top@[k as int].1));
                        k = k + 1;
                    }
                    assert(top_indices(job.top@).take(job.top@.len() as int) =~= top_indices(job.top@));
                    self.matches = out;
                    self.search_loading = false;
                    proof {
                        reveal(is_top);
                        assert forall|i: int| 0 <= i < self@.matches.len() implies 0 <= #[trigger] self@.matches[i] < self@.packages.len() by {
                            assert(self@.matches[i] == top[i].1 as int);
                        }
                    }
                    assert(self@ =~= (AppModel { job: None, matches: usize_ints(top_indices(top)), search_loading: false, ..m0 }));
                    assert(is_top(m0.packages, m0.job->0.query, m0.packages.len() as int, top));
                    assert(advance_post(m0, self@));
                }
            },
        }
    }
}

} // verus!
