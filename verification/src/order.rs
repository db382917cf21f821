//! Lexicographic order on names and sorting of name lists.

use vstd::prelude::*;
use crate::text::strings_view;
use vstd::std_specs::iter::IteratorSpec;

verus! {

broadcast use vstd::string::group_string_axioms;

/// Lexicographic order by character value. UTF-8 encoding preserves this
/// order, so it is the order `str` comparison uses.
pub open spec fn seq_lt(a: Seq<char>, b: Seq<char>) -> bool
    decreases a.len(),
{
    if a.len() == 0 {
        b.len() > 0
    } else if b.len() == 0 {
        false
    } else if a[0] < b[0] {
        true
    } else if a[0] > b[0] {
        false
    } else {
        seq_lt(a.drop_first(), b.drop_first())
    }
}

pub proof fn lemma_lt_irreflexive(a: Seq<char>)
    ensures
        !seq_lt(a, a),
    decreases a.len(),
{
    if a.len() > 0 {
        lemma_lt_irreflexive(a.drop_first());
    }
}

pub proof fn lemma_lt_asymmetric(a: Seq<char>, b: Seq<char>)
    ensures
        seq_lt(a, b) ==> !seq_lt(b, a),
    decreases a.len(),
{
    if a.len() > 0 && b.len() > 0 {
        lemma_lt_asymmetric(a.drop_first(), b.drop_first());
    }
}

pub proof fn lemma_lt_transitive(a: Seq<char>, b: Seq<char>, c: Seq<char>)
    requires
        seq_lt(a, b),
        seq_lt(b, c),
    ensures
        seq_lt(a, c),
    decreases a.len(),
{
    if a.len() > 0 && b.len() > 0 && c.len() > 0 {
        if a[0] == b[0] && b[0] == c[0] {
            lemma_lt_transitive(a.drop_first(), b.drop_first(), c.drop_first());
        }
    }
}

pub proof fn lemma_lt_total(a: Seq<char>, b: Seq<char>)
    ensures
        a != b ==> seq_lt(a, b) || seq_lt(b, a),
    decreases a.len(),
{
    if a.len() > 0 && b.len() > 0 {
        lemma_lt_total(a.drop_first(), b.drop_first());
        if a[0] == b[0] && a.drop_first() == b.drop_first() {
            assert(a =~= seq![a[0]] + a.drop_first());
            assert(b =~= seq![b[0]] + b.drop_first());
        }
    } else if a.len() == 0 && b.len() == 0 {
        assert(a =~= b);
    }
}

/// Whether `a` orders strictly before `b`, see `seq_lt`.
pub fn str_lt(a: &str, b: &str) -> (r: bool)
    ensures
        r == seq_lt(a@, b@),
{
    let mut ia = a.chars();
    let mut ib = b.chars();
    let ghost mut k: int = 0;
    loop
        invariant
            0 <= k <= a@.len(),
            k <= b@.len(),
            ia.remaining() == a@.skip(k),
            ib.remaining() == b@.skip(k),
            seq_lt(a@, b@) == seq_lt(a@.skip(k), b@.skip(k)),
        decreases a@.len() - k,
    {
        let x = ia.next();
        let y = ib.next();
        let ghost sa = a@.skip(k);
        let ghost sb = b@.skip(k);
        match (x, y) {
            (None, None) => {
                return false;
            },
            (None, Some(_)) => {
                return true;
            },
            (Some(_), None) => {
                return false;
            },
            (Some(cx), Some(cy)) => {
                if cx < cy {
                    return true;
                } else if cx > cy {
                    return false;
                }
                proof {
                    assert(sa.drop_first() == a@.skip(k + 1));
                    assert(sb.drop_first() == b@.skip(k + 1));
                    k = k + 1;
                }
            },
        }
    }
}


/// Strictly increasing in `seq_lt`: sorted and free of duplicates.
pub open spec fn strictly_sorted(s: Seq<Seq<char>>) -> bool {
    forall|i: int, j: int| 0 <= i < j < s.len() ==> seq_lt(#[trigger] s[i], #[trigger] s[j])
}

proof fn lemma_take_set(s: Seq<Seq<char>>, i: int)
    requires
        0 <= i < s.len(),
    ensures
        s.take(i + 1).to_set() == s.take(i).to_set().insert(s[i]),
{
    assert(s.take(i + 1) == s.take(i).push(s[i]));
    s.take(i).lemma_push_to_set_commute(s[i]);
}

/// Merges two strictly sorted lists into one, keeping one copy of names
/// that occur in both.
pub fn merge_unique(a: Vec<String>, b: Vec<String>) -> (r: Vec<String>)
    requires
        strictly_sorted(strings_view(a@)),
        strictly_sorted(strings_view(b@)),
    ensures
        strictly_sorted(strings_view(r@)),
        strings_view(r@).to_set() == strings_view(a@).to_set() + strings_view(b@).to_set(),
{
    let ghost av = strings_view(a@);
    let ghost bv = strings_view(b@);
    let mut r: Vec<String> = Vec::new();
    let mut i: usize = 0;
    let mut j: usize = 0;
    while i < a.len() || j < b.len()
        invariant
            av == strings_view(a@),
            bv == strings_view(b@),
            strictly_sorted(av),
            strictly_sorted(bv),
            i <= a@.len(),
            j <= b@.len(),
            strictly_sorted(strings_view(r@)),
            r@.len() > 0 ==> forall|k: int| i <= k < av.len() ==> seq_lt(strings_view(r@).last(), #[trigger] av[k]),
            r@.len() > 0 ==> forall|k: int| j <= k < bv.len() ==> seq_lt(strings_view(r@).last(), #[trigger] bv[k]),
            strings_view(r@).to_set() == av.take(i as int).to_set() + bv.take(j as int).to_set(),
        decreases a@.len() + b@.len() - i - j,
    {
        let ghost rv = strings_view(r@);
        let take_a: bool;
        let take_b: bool;
        if i < a.len() && j < b.len() {
            if str_lt(a[i].as_str(), b[j].as_str()) {
                take_a = true;
                take_b = false;
            } else if str_lt(b[j].as_str(), a[i].as_str()) {
                take_a = false;
                take_b = true;
            } else {
                proof { lemma_lt_total(av[i as int], bv[j as int]); }
                take_a = true;
                take_b = true;
            }
        } else if i < a.len() {
            take_a = true;
            take_b = false;
        } else {
            take_a = false;
            take_b = true;
        }
        let item = if take_a { a[i].clone() } else { b[j].clone() };
        let ghost x = item@;
        proof {
            if take_a {
                assert(x == av[i as int]);
            } else {
                assert(x == bv[j as int]);
            }
            // the new item is above everything in r and below the rest of a and b
            assert forall|k: int| (take_a && i < k < av.len()) implies seq_lt(x, #[trigger] av[k]) by {
                assert(seq_lt(av[i as int], av[k]));
            }
            assert forall|k: int| (take_a && !take_b && j <= k < bv.len()) implies seq_lt(x, #[trigger] bv[k]) by {
                if k > j {
                    lemma_lt_transitive(x, bv[j as int], bv[k]);
                }
            }
            assert forall|k: int| (!take_a && j < k < bv.len()) implies seq_lt(x, #[trigger] bv[k]) by {
                assert(seq_lt(bv[j as int], bv[k]));
            }
            assert forall|k: int| (!take_a && i <= k < av.len()) implies seq_lt(x, #[trigger] av[k]) by {
                if k > i {
                    lemma_lt_transitive(x, av[i as int], av[k]);
                }
            }
            assert forall|k: int| (take_a && take_b && j < k < bv.len()) implies seq_lt(x, #[trigger] bv[k]) by {
                assert(seq_lt(bv[j as int], bv[k]));
            }
        }
        r.push(item);
        proof {
            let rv2 = strings_view(r@);
            assert(rv2 == rv.push(x));
            assert forall|p: int, q: int| 0 <= p < q < rv2.len() implies seq_lt(#[trigger] rv2[p], #[trigger] rv2[q]) by {
                if q == rv2.len() - 1 && p < q {
                    if p < rv.len() - 1 {
                        lemma_lt_transitive(rv2[p], rv.last(), x);
                    }
                }
            }
            rv.lemma_push_to_set_commute(x);
            if take_a {
                lemma_take_set(av, i as int);
            }
            if take_b {
                lemma_take_set(bv, j as int);
            }
        }
        if take_a {
            i = i + 1;
        }
        if take_b {
            j = j + 1;
        }
        proof {
            assert(strings_view(r@).to_set() =~= av.take(i as int).to_set() + bv.take(j as int).to_set());
        }
    }
    assert(av.take(a@.len() as int) == av);
    assert(bv.take(b@.len() as int) == bv);
    r
}

/// Sorts names and drops duplicates.
pub fn sort_unique(v: Vec<String>) -> (r: Vec<String>)
    ensures
        strictly_sorted(strings_view(r@)),
        strings_view(r@).to_set() == strings_view(v@).to_set(),
    decreases v@.len(),
{
    if v.len() <= 1 {
        return v;
    }
    let mut left = v;
    let ghost all = strings_view(left@);
    let mid = left.len() / 2;
    let right = left.split_off(mid);
    proof {
        assert(strings_view(left@) =~= all.take(mid as int));
        assert(strings_view(right@) =~= all.skip(mid as int));
    }
    let sl = sort_unique(left);
    let sr = sort_unique(right);
    let r = merge_unique(sl, sr);
    proof {
        let lv = all.take(mid as int);
        let rv = all.skip(mid as int);
        assert forall|x: Seq<char>| all.to_set().contains(x) <==> strings_view(r@).to_set().contains(x) by {
            if all.to_set().contains(x) {
                let k = choose|k: int| 0 <= k < all.len() && all[k] == x;
                if k < mid {
                    assert(lv[k] == x);
                    assert(lv.to_set().contains(x));
                } else {
                    assert(rv[k - mid] == x);
                    assert(rv.to_set().contains(x));
                }
            }
            if lv.to_set().contains(x) {
                let k = choose|k: int| 0 <= k < lv.len() && lv[k] == x;
                assert(all[k] == x);
            }
            if rv.to_set().contains(x) {
                let k = choose|k: int| 0 <= k < rv.len() && rv[k] == x;
                assert(all[k + mid] == x);
            }
        }
        assert(strings_view(r@).to_set() =~= all.to_set());
    }
    r
}

} // verus!
