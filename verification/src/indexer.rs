//! Building the searchable package index from the name lists of pacman and
//! the AUR helper.

use vstd::prelude::*;
use crate::model::{Manager, ManagerAvailability, PackageRecord, RepoHint, manager_bin};
use crate::text::{strings_view, unicode_lowercase, to_lowercase, decimal, usize_text};
use crate::order::{seq_lt, strictly_sorted, sort_unique, str_lt, lemma_lt_transitive, lemma_lt_total, lemma_lt_irreflexive, lemma_lt_asymmetric};
use crate::backend::owned;

verus! {

/// What the index loader reports to the UI.
#[derive(Debug)]
pub enum IndexEvent {
    Status(String),
    Ready { packages: Vec<PackageRecord>, official_set: Vec<String>, availability: ManagerAvailability },
    Error(String),
}

/// The non-empty names of a list.
pub open spec fn nonempty_names(s: Seq<Seq<char>>) -> Set<Seq<char>> {
    s.to_set().filter(|n: Seq<char>| n.len() > 0)
}

/// Where a package of the index comes from.
pub open spec fn repo_tag(official: bool, aur: bool) -> RepoHint {
    if official && aur {
        RepoHint::Both
    } else if official {
        RepoHint::Official
    } else {
        RepoHint::Aur
    }
}

pub open spec fn record_names(r: Seq<PackageRecord>) -> Seq<Seq<char>> {
    r.map_values(|p: PackageRecord| p.name@)
}

fn drop_empty(v: Vec<String>) -> (r: Vec<String>)
    ensures
        strings_view(r@).to_set() == nonempty_names(strings_view(v@)),
{
    let mut r: Vec<String> = Vec::new();
    let ghost vv = strings_view(v@);
    let mut i: usize = 0;
    while i < v.len()
        invariant
            i <= v@.len(),
            vv == strings_view(v@),
            strings_view(r@).to_set() == nonempty_names(vv.take(i as int)),
        decreases v@.len() - i,
    {
        let ghost before = strings_view(r@);
        proof {
            assert(vv.take(i + 1) == vv.take(i as int).push(vv[i as int]));
            vv.take(i as int).lemma_push_to_set_commute(vv[i as int]);
        }
        if !v[i].as_str().is_empty() {
            r.push(v[i].clone());
            proof {
                assert(strings_view(r@) == before.push(vv[i as int]));
                before.lemma_push_to_set_commute(vv[i as int]);
            }
        } else {
            assert(strings_view(r@) == before);
        }
        assert(strings_view(r@).to_set() =~= nonempty_names(vv.take(i + 1)));
        i = i + 1;
    }
    assert(vv.take(v@.len() as int) == vv);
    r
}

fn record(name: &String, repo: RepoHint) -> (r: PackageRecord)
    ensures
        r.name@ == name@,
        r.lower@ == unicode_lowercase(name@),
        r.repo == repo,
{
    PackageRecord { lower: to_lowercase(name.as_str()), name: name.clone(), repo }
}

/// Merges two strictly sorted name lists into records: names in both are
/// tagged `Both`, the others by the list they come from.
fn merge_records(a: &Vec<String>, b: &Vec<String>) -> (r: Vec<PackageRecord>)
    requires
        strictly_sorted(strings_view(a@)),
        strictly_sorted(strings_view(b@)),
    ensures
        strictly_sorted(record_names(r@)),
        record_names(r@).to_set() == strings_view(a@).to_set() + strings_view(b@).to_set(),
        forall|k: int| 0 <= k < r@.len() ==> {
            &&& (#[trigger] r@[k]).repo == repo_tag(strings_view(a@).contains(r@[k].name@), strings_view(b@).contains(r@[k].name@))
            &&& r@[k].lower@ == unicode_lowercase(r@[k].name@)
        },
{
    let ghost av = strings_view(a@);
    let ghost bv = strings_view(b@);
    let mut r: Vec<PackageRecord> = Vec::new();
    let mut i: usize = 0;
    let mut j: usize = 0;
    while i < a.len() || j < b.len()
        invariant
            av == strings_view(a@),
            bv == strings_view(b@),
            strictly_sorted(av),
            strictly_sorted(bv),
            i <= a@.len(),
            j <= b@.len(),
            strictly_sorted(record_names(r@)),
            r@.len() > 0 ==> forall|k: int| i <= k < av.len() ==> seq_lt(record_names(r@).last(), #[trigger] av[k]),
            r@.len() > 0 ==> forall|k: int| j <= k < bv.len() ==> seq_lt(record_names(r@).last(), #[trigger] bv[k]),
            forall|k: int| 0 <= k < i ==> !seq_lt(record_names(r@).last(), #[trigger] av[k]),
            forall|k: int| 0 <= k < j ==> !seq_lt(record_names(r@).last(), #[trigger] bv[k]),
            record_names(r@).to_set() == av.take(i as int).to_set() + bv.take(j as int).to_set(),
            forall|k: int| 0 <= k < r@.len() ==> {
                &&& (#[trigger] r@[k]).repo == repo_tag(av.contains(r@[k].name@), bv.contains(r@[k].name@))
                &&& r@[k].lower@ == unicode_lowercase(r@[k].name@)
            },
        decreases a@.len() + b@.len() - i - j,
    {
        let ghost rv = record_names(r@);
        let take_a: bool;
        let take_b: bool;
        if i < a.len() && j < b.len() {
            if str_lt(a[i].as_str(), b[j].as_str()) {
                take_a = true;
                take_b = false;
            } else if str_lt(b[j].as_str(), a[i].as_str()) {
                take_a = false;
                take_b = true;
            } else {
                proof { lemma_lt_total(av[i as int], bv[j as int]); }
                take_a = true;
                take_b = true;
            }
        } else if i < a.len() {
            take_a = true;
            take_b = false;
        } else {
            take_a = false;
            take_b = true;
        }
        let ghost x = if take_a { av[i as int] } else { bv[j as int] };
        proof {
            // x lies above every name taken so far and below the rest of both lists
            assert forall|k: int| (take_a && i < k < av.len()) implies seq_lt(x, #[trigger] av[k]) by {
                assert(seq_lt(av[i as int], av[k]));
            }
            assert forall|k: int| (!take_a && j < k < bv.len()) implies seq_lt(x, #[trigger] bv[k]) by {
                assert(seq_lt(bv[j as int], bv[k]));
            }
            assert forall|k: int| (take_a && take_b && j < k < bv.len()) implies seq_lt(x, #[trigger] bv[k]) by {
                assert(seq_lt(bv[j as int], bv[k]));
            }
            assert forall|k: int| (take_a && !take_b && j <= k < bv.len()) implies seq_lt(x, #[trigger] bv[k]) by {
                if k > j {
                    assert(seq_lt(bv[j as int], bv[k]));
                    lemma_lt_transitive(x, bv[j as int], bv[k]);
                }
            }
            assert forall|k: int| (!take_a && i <= k < av.len()) implies seq_lt(x, #[trigger] av[k]) by {
                if k > i {
                    assert(seq_lt(av[i as int], av[k]));
                    lemma_lt_transitive(x, av[i as int], av[k]);
                }
            }
            // x is in the other list only when both heads were equal
            if take_a && !take_b {
                assert(!bv.contains(x)) by {
                    if bv.contains(x) {
                        let k = choose|k: int| 0 <= k < bv.len() && bv[k] == x;
                        if k >= j {
                            lemma_lt_irreflexive(x);
                        } else {
                            if rv.len() > 0 {
                                lemma_lt_asymmetric(rv.last(), x);
                            } else {
                                assert(bv.take(j as int)[k] == bv[k]);
                                assert(bv.take(j as int).to_set().contains(bv[k]));
                                assert(rv.to_set().contains(bv[k]));
                            }
                        }
                    }
                }
            }
            if !take_a {
                assert(!av.contains(x)) by {
                    if av.contains(x) {
                        let k = choose|k: int| 0 <= k < av.len() && av[k] == x;
                        if k >= i {
                            lemma_lt_irreflexive(x);
                        } else {
                            if rv.len() > 0 {
                                lemma_lt_asymmetric(rv.last(), x);
                            } else {
                                assert(av.take(i as int)[k] == av[k]);
                                assert(av.take(i as int).to_set().contains(av[k]));
                                assert(rv.to_set().contains(av[k]));
                            }
                        }
                    }
                }
            }
            if take_a && take_b {
                assert(av[i as int] == bv[j as int]);
            }
        }
        let rec = if take_a {
            let tag = if take_b { RepoHint::Both } else { RepoHint::Official };
            record(&a[i], tag)
        } else {
            record(&b[j], RepoHint::Aur)
        };
        r.push(rec);
        proof {
            let rv2 = record_names(r@);
            assert(rv2 == rv.push(x));
            assert forall|p: int, q: int| 0 <= p < q < rv2.len() implies seq_lt(#[trigger] rv2[p], #[trigger] rv2[q]) by {
                if q == rv2.len() - 1 && p < rv.len() - 1 {
                    lemma_lt_transitive(rv2[p], rv.last(), x);
                }
            }
            rv.lemma_push_to_set_commute(x);
            if take_a {
                assert(av.take(i + 1) == av.take(i as int).push(av[i as int]));
                av.take(i as int).lemma_push_to_set_commute(av[i as int]);
            }
            if take_b {
                assert(bv.take(j + 1) == bv.take(j as int).push(bv[j as int]));
                bv.take(j as int).lemma_push_to_set_commute(bv[j as int]);
            }
            if take_a {
                assert(av.contains(x));
            } else {
                assert(bv.contains(x));
            }
            assert forall|k: int| 0 <= k < i + (if take_a { 1int } else { 0int }) implies !seq_lt(x, #[trigger] av[k]) by {
                if k < i {
                    if rv.len() > 0 {
                        lemma_lt_total(rv.last(), av[k]);
                        if seq_lt(x, av[k]) {
                            if rv.last() == av[k] {
                                lemma_lt_asymmetric(rv.last(), x);
                            } else {
                                lemma_lt_transitive(av[k], rv.last(), x);
                                lemma_lt_asymmetric(av[k], x);
                            }
                        }
                    } else {
                        assert(av.take(i as int)[k] == av[k]);
                        assert(rv.to_set().contains(av[k]));
                    }
                } else {
                    lemma_lt_irreflexive(x);
                }
            }
            assert forall|k: int| 0 <= k < j + (if take_b { 1int } else { 0int }) implies !seq_lt(x, #[trigger] bv[k]) by {
                if k < j {
                    if rv.len() > 0 {
                        lemma_lt_total(rv.last(), bv[k]);
                        if seq_lt(x, bv[k]) {
                            if rv.last() == bv[k] {
                                lemma_lt_asymmetric(rv.last(), x);
                            } else {
                                lemma_lt_transitive(bv[k], rv.last(), x);
                                lemma_lt_asymmetric(bv[k], x);
                            }
                        }
                    } else {
                        assert(bv.take(j as int)[k] == bv[k]);
                        assert(rv.to_set().contains(bv[k]));
                    }
                } else {
                    lemma_lt_irreflexive(x);
                }
            }
        }
        if take_a {
            i = i + 1;
        }
        if take_b {
            j = j + 1;
        }
        proof {
            assert(record_names(r@).to_set() =~= av.take(i as int).to_set() + bv.take(j as int).to_set());
        }
    }
    assert(av.take(a@.len() as int) == av);
    assert(bv.take(b@.len() as int) == bv);
    r
}


pub open spec fn aur_set(aur: Option<Seq<Seq<char>>>) -> Set<Seq<char>> {
    match aur {
        Some(a) => nonempty_names(a),
        None => Set::empty(),
    }
}

pub open spec fn opt_strings(o: Option<Vec<String>>) -> Option<Seq<Seq<char>>> {
    match o {
        Some(v) => Some(strings_view(v@)),
        None => None,
    }
}

/// The searchable index: one record per distinct non-empty name of either
/// list, sorted by name, tagged with where the name comes from; and the set
/// of official names.
pub fn build_index(official_names: Vec<String>, aur_names: Option<Vec<String>>) -> (r: (Vec<PackageRecord>, Vec<String>))
    ensures
        strictly_sorted(record_names(r.0@)),
        record_names(r.0@).to_set() == nonempty_names(strings_view(official_names@)) + aur_set(opt_strings(aur_names)),
        forall|k: int| 0 <= k < r.0@.len() ==> {
            &&& (#[trigger] r.0@[k]).repo == repo_tag(
                nonempty_names(strings_view(official_names@)).contains(r.0@[k].name@),
                aur_set(opt_strings(aur_names)).contains(r.0@[k].name@),
            )
            &&& r.0@[k].lower@ == unicode_lowercase(r.0@[k].name@)
        },
        strings_view(r.1@).to_set() == nonempty_names(strings_view(official_names@)),
        strictly_sorted(strings_view(r.1@)),
{
    let ghost o_set = nonempty_names(strings_view(official_names@));
    let ghost a_set = aur_set(opt_strings(aur_names));
    let official = sort_unique(drop_empty(official_names));
    let aur = match aur_names {
        Some(v) => sort_unique(drop_empty(v)),
        None => Vec::new(),
    };
    assert(strings_view(aur@).to_set() =~= a_set);
    proof {
        assert forall|x: Seq<char>| strings_view(official@).contains(x) == o_set.contains(x) by {
            assert(strings_view(official@).to_set().contains(x) == strings_view(official@).contains(x));
        }
        assert forall|x: Seq<char>| strings_view(aur@).contains(x) == a_set.contains(x) by {
            assert(strings_view(aur@).to_set().contains(x) == strings_view(aur@).contains(x));
        }
    }
    let records = merge_records(&official, &aur);
    (records, official)
}

/// Indexing needs pacman: without it the run stops with this error.
pub fn check_pacman(availability: &ManagerAvailability) -> (r: Result<(), String>)
    ensures
        r is Ok <==> availability.pacman,
        r matches Err(e) ==> e@ == "pacman was not found in PATH"@,
{
    if availability.pacman {
        Ok(())
    } else {
        Err(owned("pacman was not found in PATH"))
    }
}

/// The AUR helper whose package list joins the index: yay, else paru.
pub fn aur_source(availability: &ManagerAvailability) -> (r: Option<Manager>)
    ensures
        r == availability.aur_helper_spec(),
{
    availability.aur_helper()
}

/// `Loading AUR package index via yay...`
pub fn aur_loading_message(m: Manager) -> (r: String)
    ensures
        r@ == "Loading AUR package index via "@ + manager_bin(m) + "..."@,
{
    let mut s = owned("Loading AUR package index via ");
    s.append(m.bin());
    s.append("...");
    s
}

/// `Loaded 1234 searchable packages`
pub fn loaded_message(n: usize) -> (r: String)
    ensures
        r@ == "Loaded "@ + decimal(n as nat) + " searchable packages"@,
{
    let mut s = owned("Loaded ");
    let d = usize_text(n);
    s.append(d.as_str());
    s.append(" searchable packages");
    s
}

} // verus!
