//! Reading the package listings of `expac`, `pacman -Sl`, `pacman -Qq` and
//! `pacman -Qu` into package records, and marking the records with what is
//! installed and what can be upgraded.

use vstd::prelude::*;
use crate::text::{chars_of, string_of, join_with, join_strings, strings_view};
use crate::fields::{
    rows, text_lines, lines_of, split_on, split_chars, trim, trim_chars, words, words_of,
    decimal_i64, parse_decimal_i64,
};
use crate::installer::contains_string;

verus! {

broadcast use vstd::string::group_string_axioms;

/// Where a synced package comes from.
#[derive(Clone, Copy, Debug, PartialEq, Eq, Structural)]
pub enum RepoKind {
    Official,
    Aur,
}

/// A package of the local package cache.
#[derive(Clone, Debug)]
pub struct SyncedPackage {
    pub name: String,
    pub version: String,
    pub description: String,
    pub repo: String,
    pub size_bytes: i64,
    pub installed: bool,
    pub upgradable: bool,
    pub new_version: Option<String>,
    pub updated_at: i64,
    pub repo_kind: RepoKind,
}

/// A synced package as plain values.
pub struct SyncedModel {
    pub name: Seq<char>,
    pub version: Seq<char>,
    pub description: Seq<char>,
    pub repo: Seq<char>,
    pub size_bytes: i64,
    pub installed: bool,
    pub upgradable: bool,
    pub new_version: Option<Seq<char>>,
    pub updated_at: i64,
    pub repo_kind: RepoKind,
}

impl View for SyncedPackage {
    type V = SyncedModel;

    open spec fn view(&self) -> SyncedModel {
        SyncedModel {
            name: self.name@,
            version: self.version@,
            description: self.description@,
            repo: self.repo@,
            size_bytes: self.size_bytes,
            installed: self.installed,
            upgradable: self.upgradable,
            new_version: match self.new_version {
                Some(v) => Some(v@),
                None => None,
            },
            updated_at: self.updated_at,
            repo_kind: self.repo_kind,
        }
    }
}

pub open spec fn records_view(v: Seq<SyncedPackage>) -> Seq<SyncedModel> {
    v.map_values(|p: SyncedPackage| p@)
}

/// A freshly listed package of the official repositories: not marked
/// installed or upgradable yet, with no time stamp.
pub open spec fn listed(name: Seq<char>, version: Seq<char>, description: Seq<char>, repo: Seq<char>, size: i64) -> SyncedModel {
    SyncedModel {
        name,
        version,
        description,
        repo,
        size_bytes: size,
        installed: false,
        upgradable: false,
        new_version: None,
        updated_at: 0,
        repo_kind: RepoKind::Official,
    }
}

/// The record of one line of `expac -S '%n\t%v\t%d\t%s\t%r'`: a blank line,
/// or one with fewer than five tab-separated columns, gives none; a size that
/// does not read as a number counts as 0.
pub open spec fn expac_record(line: Seq<char>) -> Option<SyncedModel> {
    if trim(line).len() == 0 {
        None
    } else {
        let cols = split_on(line, '\t');
        if cols.len() < 5 {
            None
        } else {
            let size = match decimal_i64(trim(cols[3])) {
                Some(v) => v,
                None => 0,
            };
            Some(listed(trim(cols[0]), trim(cols[1]), trim(cols[2]), trim(cols[4]), size))
        }
    }
}

pub open spec fn expac_records(ls: Seq<Seq<char>>) -> Seq<SyncedModel>
    decreases ls.len(),
{
    if ls.len() == 0 {
        seq![]
    } else {
        expac_records(ls.drop_last()) + match expac_record(ls.last()) {
            Some(r) => seq![r],
            None => seq![],
        }
    }
}

/// The record of one line of `pacman -Sl` (`repo name version [installed]`):
/// none where the line has fewer than three words; the words after the third
/// joined by spaces make the description.
pub open spec fn pacman_record(line: Seq<char>) -> Option<SyncedModel> {
    let cols = words(line);
    if cols.len() < 3 {
        None
    } else {
        Some(listed(cols[1], cols[2], join_with(cols.skip(3), " "@), cols[0], 0))
    }
}

pub open spec fn pacman_records(ls: Seq<Seq<char>>) -> Seq<SyncedModel>
    decreases ls.len(),
{
    if ls.len() == 0 {
        seq![]
    } else {
        pacman_records(ls.drop_last()) + match pacman_record(ls.last()) {
            Some(r) => seq![r],
            None => seq![],
        }
    }
}

proof fn lemma_records_push(v: Seq<SyncedPackage>, x: SyncedPackage)
    ensures
        records_view(v.push(x)) == records_view(v).push(x@),
{
    assert(records_view(v.push(x)) =~= records_view(v).push(x@));
}

fn listed_record(name: Vec<char>, version: Vec<char>, description: String, repo: Vec<char>, size: i64) -> (r: SyncedPackage)
    ensures
        r@ == listed(name@, version@, description@, repo@, size),
{
    SyncedPackage {
        name: string_of(&name),
        version: string_of(&version),
        description,
        repo: string_of(&repo),
        size_bytes: size,
        installed: false,
        upgradable: false,
        new_version: None,
        updated_at: 0,
        repo_kind: RepoKind::Official,
    }
}

/// Reads the records of an `expac` listing.
pub fn parse_expac_output(text: &str) -> (r: Vec<SyncedPackage>)
    ensures
        records_view(r@) == expac_records(text_lines(text@)),
{
    let chars = chars_of(text);
    let ls = lines_of(&chars);
    let ghost lv = rows(ls@);
    let mut out: Vec<SyncedPackage> = Vec::new();
    let mut i: usize = 0;
    assert(lv.take(0) == Seq::<Seq<char>>::empty());
    assert(records_view(out@) =~= Seq::<SyncedModel>::empty());
    while i < ls.len()
        invariant
            i <= ls@.len(),
            lv == rows(ls@),
            lv == text_lines(text@),
            records_view(out@) == expac_records(lv.take(i as int)),
        decreases ls.len() - i,
    {
        let line = &ls[i];
        assert(lv[i as int] == line@);
        assert(lv.take(i + 1).drop_last() == lv.take(i as int));
        assert(lv.take(i + 1).last() == line@);
        let t = trim_chars(line);
        if t.len() > 0 {
            let cols = split_chars(line, '\t');
            if cols.len() >= 5 {
                let ghost cv = rows(cols@);
                assert(cv[0] == cols@[0]@ && cv[1] == cols@[1]@ && cv[2] == cols@[2]@);
                assert(cv[3] == cols@[3]@ && cv[4] == cols@[4]@);
                let size = match parse_decimal_i64(&trim_chars(&cols[3])) {
                    Some(v) => v,
                    None => 0,
                };
                let rec = listed_record(
                    trim_chars(&cols[0]),
                    trim_chars(&cols[1]),
                    string_of(&trim_chars(&cols[2])),
                    trim_chars(&cols[4]),
                    size,
                );
                let ghost before = out@;
                out.push(rec);
                proof {
                    lemma_records_push(before, rec);
                }
            }
        }
        i = i + 1;
    }
    assert(lv.take(ls@.len() as int) == lv);
    out
}

/// The words of `cols` from index `from` on, joined by spaces.
fn join_rest(cols: &Vec<Vec<char>>, from: usize) -> (r: String)
    requires
        from <= cols@.len(),
    ensures
        r@ == join_with(rows(cols@).skip(from as int), " "@),
{
    let mut parts: Vec<String> = Vec::new();
    let mut k: usize = from;
    while k < cols.len()
        invariant
            from <= k <= cols@.len(),
            strings_view(parts@) == rows(cols@).subrange(from as int, k as int),
        decreases cols.len() - k,
    {
        let w = string_of(&cols[k]);
        let ghost before = parts@;
        parts.push(w);
        assert(rows(cols@)[k as int] == cols@[k as int]@);
        assert(strings_view(parts@) =~= strings_view(before).push(w@));
        assert(strings_view(parts@) =~= rows(cols@).subrange(from as int, k + 1));
        k = k + 1;
    }
    assert(rows(cols@).subrange(from as int, cols@.len() as int) == rows(cols@).skip(from as int));
    join_strings(&parts, " ")
}

/// Reads the records of a `pacman -Sl` listing.
pub fn parse_pacman_fallback(text: &str) -> (r: Vec<SyncedPackage>)
    ensures
        records_view(r@) == pacman_records(text_lines(text@)),
{
    let chars = chars_of(text);
    let ls = lines_of(&chars);
    let ghost lv = rows(ls@);
    let mut out: Vec<SyncedPackage> = Vec::new();
    let mut i: usize = 0;
    assert(lv.take(0) == Seq::<Seq<char>>::empty());
    assert(records_view(out@) =~= Seq::<SyncedModel>::empty());
    while i < ls.len()
        invariant
            i <= ls@.len(),
            lv == rows(ls@),
            lv == text_lines(text@),
            records_view(out@) == pacman_records(lv.take(i as int)),
        decreases ls.len() - i,
    {
        let line = &ls[i];
        assert(lv[i as int] == line@);
        assert(lv.take(i + 1).drop_last() == lv.take(i as int));
        assert(lv.take(i + 1).last() == line@);
        let cols = words_of(line);
        if cols.len() >= 3 {
            let ghost cv = rows(cols@);
            assert(cv[0] == cols@[0]@ && cv[1] == cols@[1]@ && cv[2] == cols@[2]@);
            let description = if cols.len() > 3 {
                join_rest(&cols, 3)
            } else {
                assert(cv.skip(3) =~= Seq::<Seq<char>>::empty());
                String::new()
            };
            let repo = copy_row(&cols, 0);
            let name = copy_row(&cols, 1);
            let version = copy_row(&cols, 2);
            let rec = listed_record(name, version, description, repo, 0);
            let ghost before = out@;
            out.push(rec);
            proof {
                lemma_records_push(before, rec);
            }
        }
        i = i + 1;
    }
    assert(lv.take(ls@.len() as int) == lv);
    out
}

fn copy_row(cols: &Vec<Vec<char>>, k: usize) -> (r: Vec<char>)
    requires
        k < cols@.len(),
    ensures
        r@ == cols@[k as int]@,
{
    let r = crate::fields::copy_prefix(&cols[k], cols[k].len());
    assert(cols@[k as int]@.take(cols@[k as int]@.len() as int) == cols@[k as int]@);
    r
}

/// The non-blank lines, trimmed.
pub open spec fn name_lines(ls: Seq<Seq<char>>) -> Seq<Seq<char>>
    decreases ls.len(),
{
    if ls.len() == 0 {
        seq![]
    } else {
        name_lines(ls.drop_last()) + if trim(ls.last()).len() > 0 {
            seq![trim(ls.last())]
        } else {
            Seq::<Seq<char>>::empty()
        }
    }
}

/// The non-blank lines of a command's output, trimmed.
pub fn nonblank_lines(text: &str) -> (r: Vec<String>)
    ensures
        strings_view(r@) == name_lines(text_lines(text@)),
{
    let chars = chars_of(text);
    let ls = lines_of(&chars);
    let ghost lv = rows(ls@);
    let mut out: Vec<String> = Vec::new();
    let mut i: usize = 0;
    assert(lv.take(0) == Seq::<Seq<char>>::empty());
    assert(strings_view(out@) =~= Seq::<Seq<char>>::empty());
    while i < ls.len()
        invariant
            i <= ls@.len(),
            lv == rows(ls@),
            lv == text_lines(text@),
            strings_view(out@) == name_lines(lv.take(i as int)),
        decreases ls.len() - i,
    {
        let line = &ls[i];
        assert(lv[i as int] == line@);
        assert(lv.take(i + 1).drop_last() == lv.take(i as int));
        assert(lv.take(i + 1).last() == line@);
        let t = trim_chars(line);
        if t.len() > 0 {
            let s = string_of(&t);
            let ghost before = out@;
            out.push(s);
            assert(strings_view(out@) =~= strings_view(before).push(t@));
        }
        i = i + 1;
    }
    assert(lv.take(ls@.len() as int) == lv);
    out
}

/// The items of `xs` without repeats, each where it first occurs.
pub open spec fn dedup(xs: Seq<Seq<char>>) -> Seq<Seq<char>>
    decreases xs.len(),
{
    if xs.len() == 0 {
        seq![]
    } else {
        let d = dedup(xs.drop_last());
        if d.contains(xs.last()) {
            d
        } else {
            d.push(xs.last())
        }
    }
}

/// The set of names in a `pacman -Qq` listing: its non-blank lines, trimmed,
/// each once, in the order they first occur.
pub fn parse_name_set(text: &str) -> (r: Vec<String>)
    ensures
        strings_view(r@) == dedup(name_lines(text_lines(text@))),
{
    let chars = chars_of(text);
    let ls = lines_of(&chars);
    let ghost lv = rows(ls@);
    let mut out: Vec<String> = Vec::new();
    let mut i: usize = 0;
    assert(lv.take(0) == Seq::<Seq<char>>::empty());
    assert(strings_view(out@) =~= Seq::<Seq<char>>::empty());
    while i < ls.len()
        invariant
            i <= ls@.len(),
            lv == rows(ls@),
            lv == text_lines(text@),
            strings_view(out@) == dedup(name_lines(lv.take(i as int))),
        decreases ls.len() - i,
    {
        let line = &ls[i];
        assert(lv[i as int] == line@);
        assert(lv.take(i + 1).drop_last() == lv.take(i as int));
        assert(lv.take(i + 1).last() == line@);
        let ghost prev = name_lines(lv.take(i as int));
        let t = trim_chars(line);
        if t.len() > 0 {
            let s = string_of(&t);
            assert(name_lines(lv.take(i + 1)) == prev.push(t@));
            assert(prev.push(t@).drop_last() == prev);
            if !contains_string(&out, &s) {
                let ghost before = out@;
                out.push(s);
                assert(strings_view(out@) =~= strings_view(before).push(t@));
            }
        } else {
            assert(name_lines(lv.take(i + 1)) == prev);
        }
        i = i + 1;
    }
    assert(lv.take(ls@.len() as int) == lv);
    out
}

/// The package and new version of one line of `pacman -Qu`
/// (`name old -> new`): the fourth word where there are four, else the second
/// where there are two; none on a shorter line.
pub open spec fn upgrade_entry(line: Seq<char>) -> Option<(Seq<char>, Seq<char>)> {
    let cols = words(line);
    if cols.len() >= 4 {
        Some((cols[0], cols[3]))
    } else if cols.len() >= 2 {
        Some((cols[0], cols[1]))
    } else {
        None
    }
}

/// Whether a line of `pacman -Qu` gives an entry for `k`.
pub open spec fn line_names(line: Seq<char>, k: Seq<char>) -> bool {
    match upgrade_entry(line) {
        Some(e) => e.0 == k,
        None => false,
    }
}

/// The index of the entry for `k`, or -1 where there is none.
pub open spec fn key_index(m: Seq<(Seq<char>, Seq<char>)>, k: Seq<char>) -> int
    decreases m.len(),
{
    if m.len() == 0 {
        -1
    } else if m[0].0 == k {
        0
    } else {
        let r = key_index(m.drop_first(), k);
        if r < 0 {
            -1
        } else {
            r + 1
        }
    }
}

/// `m` with `k` mapped to `v`: its entry replaced where it has one, else a
/// new entry at the end.
pub open spec fn upsert(m: Seq<(Seq<char>, Seq<char>)>, k: Seq<char>, v: Seq<char>) -> Seq<(Seq<char>, Seq<char>)> {
    let i = key_index(m, k);
    if i < 0 {
        m.push((k, v))
    } else {
        m.update(i, (k, v))
    }
}

/// The upgrade table of a `pacman -Qu` listing, a later line for a package
/// overriding an earlier one.
pub open spec fn upgrades_of(ls: Seq<Seq<char>>) -> Seq<(Seq<char>, Seq<char>)>
    decreases ls.len(),
{
    if ls.len() == 0 {
        seq![]
    } else {
        let m = upgrades_of(ls.drop_last());
        match upgrade_entry(ls.last()) {
            Some((k, v)) => upsert(m, k, v),
            None => m,
        }
    }
}

pub open spec fn pairs_view(v: Seq<(String, String)>) -> Seq<(Seq<char>, Seq<char>)> {
    v.map_values(|p: (String, String)| (p.0@, p.1@))
}

/// The index of the entry for `k` in `m`.
pub fn find_key(m: &Vec<(String, String)>, k: &String) -> (r: Option<usize>)
    ensures
        r is None <==> key_index(pairs_view(m@), k@) < 0,
        r matches Some(i) ==> i == key_index(pairs_view(m@), k@) && i < m@.len(),
{
    let ghost pv = pairs_view(m@);
    let mut i: usize = 0;
    assert(pv.skip(0) == pv);
    while i < m.len()
        invariant
            i <= m@.len(),
            pv == pairs_view(m@),
            key_index(pv, k@) == (if key_index(pv.skip(i as int), k@) < 0 {
                -1
            } else {
                key_index(pv.skip(i as int), k@) + i
            }),
        decreases m.len() - i,
    {
        assert(pv.skip(i as int).drop_first() == pv.skip(i + 1));
        assert(pv.skip(i as int)[0] == pv[i as int]);
        if m[i].0 == *k {
            return Some(i);
        }
        i = i + 1;
    }
    None
}

/// Reads the upgrade table of a `pacman -Qu` listing: each package once, with
/// the new version of its last line.
pub fn parse_upgrades(text: &str) -> (r: Vec<(String, String)>)
    ensures
        pairs_view(r@) == upgrades_of(text_lines(text@)),
{
    let chars = chars_of(text);
    let ls = lines_of(&chars);
    let ghost lv = rows(ls@);
    let mut out: Vec<(String, String)> = Vec::new();
    let mut i: usize = 0;
    assert(lv.take(0) == Seq::<Seq<char>>::empty());
    assert(pairs_view(out@) =~= Seq::<(Seq<char>, Seq<char>)>::empty());
    while i < ls.len()
        invariant
            i <= ls@.len(),
            lv == rows(ls@),
            lv == text_lines(text@),
            pairs_view(out@) == upgrades_of(lv.take(i as int)),
        decreases ls.len() - i,
    {
        let line = &ls[i];
        assert(lv[i as int] == line@);
        assert(lv.take(i + 1).drop_last() == lv.take(i as int));
        assert(lv.take(i + 1).last() == line@);
        let cols = words_of(line);
        let ghost cv = rows(cols@);
        if cols.len() >= 2 {
            assert(cv[0] == cols@[0]@ && cv[1] == cols@[1]@);
            let k = string_of(&cols[0]);
            let v = if cols.len() >= 4 {
                assert(cv[3] == cols@[3]@);
                string_of(&cols[3])
            } else {
                string_of(&cols[1])
            };
            let ghost before = pairs_view(out@);
            match find_key(&out, &k) {
                Some(j) => {
                    out.set(j, (k, v));
                    assert(pairs_view(out@) =~= before.update(j as int, (k@, v@)));
                },
                None => {
                    out.push((k, v));
                    assert(pairs_view(out@) =~= before.push((k@, v@)));
                },
            }
        }
        i = i + 1;
    }
    assert(lv.take(ls@.len() as int) == lv);
    out
}

/// `p` marked with local state: installed where its name is in `names`,
/// upgradable with the new version where the table has an entry for it, and
/// stamped with `now`.
pub open spec fn annotate(p: SyncedModel, names: Seq<Seq<char>>, ups: Seq<(Seq<char>, Seq<char>)>, now: i64) -> SyncedModel {
    let i = key_index(ups, p.name);
    SyncedModel {
        installed: names.contains(p.name),
        upgradable: i >= 0,
        new_version: if i >= 0 { Some(ups[i].1) } else { None },
        updated_at: now,
        ..p
    }
}

/// The records of a full sync: the listing read as `expac` output (or as
/// `pacman -Sl` output), each marked from the installed names and the
/// upgrade table.
pub open spec fn synced_records(listing: Seq<char>, from_expac: bool, installed: Seq<char>, upgrades: Seq<char>, now: i64) -> Seq<SyncedModel> {
    let base = if from_expac {
        expac_records(text_lines(listing))
    } else {
        pacman_records(text_lines(listing))
    };
    let names = dedup(name_lines(text_lines(installed)));
    let ups = upgrades_of(text_lines(upgrades));
    base.map_values(|p: SyncedModel| annotate(p, names, ups, now))
}

/// Builds the package cache from the outputs of the listing commands.
pub fn sync_packages(listing: &str, from_expac: bool, installed: &str, upgrades: &str, now: i64) -> (r: Vec<SyncedPackage>)
    ensures
        records_view(r@) == synced_records(listing@, from_expac, installed@, upgrades@, now),
{
    let packages = if from_expac {
        parse_expac_output(listing)
    } else {
        parse_pacman_fallback(listing)
    };
    let names = parse_name_set(installed);
    let ups = parse_upgrades(upgrades);
    let ghost base = records_view(packages@);
    let ghost nv = strings_view(names@);
    let ghost uv = pairs_view(ups@);
    let mut out: Vec<SyncedPackage> = Vec::new();
    let mut i: usize = 0;
    while i < packages.len()
        invariant
            i <= packages@.len(),
            base == records_view(packages@),
            nv == strings_view(names@),
            uv == pairs_view(ups@),
            records_view(out@) == base.take(i as int).map_values(|p: SyncedModel| annotate(p, nv, uv, now)),
        decreases packages.len() - i,
    {
        let p = &packages[i];
        assert(base[i as int] == p@);
        let found = find_key(&ups, &p.name);
        let (upgradable, new_version) = match found {
            Some(j) => {
                assert(uv[j as int] == (ups@[j as int].0@, ups@[j as int].1@));
                (true, Some(ups[j].1.clone()))
            },
            None => (false, None),
        };
        let rec = SyncedPackage {
            name: p.name.clone(),
            version: p.version.clone(),
            description: p.description.clone(),
            repo: p.repo.clone(),
            size_bytes: p.size_bytes,
            installed: contains_string(&names, &p.name),
            upgradable,
            new_version,
            updated_at: now,
            repo_kind: p.repo_kind,
        };
        assert(rec@ == annotate(p@, nv, uv, now));
        let ghost before = out@;
        out.push(rec);
        proof {
            lemma_records_push(before, rec);
            assert(base.take(i + 1) == base.take(i as int).push(base[i as int]));
            assert(records_view(out@) =~= base.take(i + 1).map_values(|p: SyncedModel| annotate(p, nv, uv, now)));
        }
        i = i + 1;
    }
    assert(base.take(packages@.len() as int) == base);
    out
}

/// The AUR search request for `query`; none for a query shorter than three bytes.
pub fn aur_search_url(query: &str) -> (r: Option<String>)
    ensures
        query.len() < 3 ==> r is None,
        query.len() >= 3 ==> (r matches Some(u) && u@ == "https://aur.archlinux.org/rpc/v5/search/"@ + query@ + "?by=name"@),
{
    if query.len() < 3 {
        return None;
    }
    let mut u = String::new();
    u.append("https://aur.archlinux.org/rpc/v5/search/");
    u.append(query);
    u.append("?by=name");
    Some(u)
}

/// The record of one AUR search result, stamped with `now`.
pub open spec fn aur_model(name: Seq<char>, version: Seq<char>, description: Option<Seq<char>>, now: i64) -> SyncedModel {
    SyncedModel {
        name,
        version,
        description: match description {
            Some(d) => d,
            None => seq![],
        },
        repo: "aur"@,
        size_bytes: 0,
        installed: false,
        upgradable: false,
        new_version: None,
        updated_at: now,
        repo_kind: RepoKind::Aur,
    }
}

/// Makes the record of one AUR search result.
pub fn aur_record(name: String, version: String, description: Option<String>, now: i64) -> (r: SyncedPackage)
    ensures
        r@ == aur_model(name@, version@, match description {
            Some(d) => Some(d@),
            None => None,
        }, now),
{
    let description = match description {
        Some(d) => d,
        None => String::new(),
    };
    SyncedPackage {
        name,
        version,
        description,
        repo: "aur".to_owned(),
        size_bytes: 0,
        installed: false,
        upgradable: false,
        new_version: None,
        updated_at: now,
        repo_kind: RepoKind::Aur,
    }
}

/// The installed-name list read from a listing is a set: no name occurs twice,
/// and a name is in it exactly when it is one of the listing's trimmed
/// non-blank lines.
pub proof fn law_name_set_is_a_set(xs: Seq<Seq<char>>)
    ensures
        dedup(xs).no_duplicates(),
        forall|x: Seq<char>| dedup(xs).contains(x) <==> xs.contains(x),
    decreases xs.len(),
{
    if xs.len() > 0 {
        let init = xs.drop_last();
        law_name_set_is_a_set(init);
        let d = dedup(init);
        assert forall|x: Seq<char>| dedup(xs).contains(x) <==> xs.contains(x) by {
            if xs.contains(x) {
                let k = choose|k: int| 0 <= k < xs.len() && xs[k] == x;
                if k < xs.len() - 1 {
                    assert(init[k] == x);
                }
            }
            if init.contains(x) {
                let k = choose|k: int| 0 <= k < init.len() && init[k] == x;
                assert(xs[k] == x);
            }
            if !d.contains(xs.last()) && x == xs.last() {
                assert(d.push(xs.last())[d.len() as int] == x);
            }
            if !d.contains(xs.last()) && d.push(xs.last()).contains(x) && x != xs.last() {
                let k = choose|k: int| 0 <= k < d.push(xs.last()).len() && d.push(xs.last())[k] == x;
                assert(d[k] == x);
            }
            if !d.contains(xs.last()) && d.contains(x) {
                let k = choose|k: int| 0 <= k < d.len() && d[k] == x;
                assert(d.push(xs.last())[k] == x);
            }
        }
        if !d.contains(xs.last()) {
            assert forall|i: int, j: int| 0 <= i < j < d.push(xs.last()).len() implies d.push(xs.last())[i] != d.push(xs.last())[j] by {
                if j == d.len() {
                    assert(d.push(xs.last())[i] == d[i]);
                }
            }
        }
    }
}

proof fn lemma_key_index_bounds(m: Seq<(Seq<char>, Seq<char>)>, k: Seq<char>)
    ensures
        -1 <= key_index(m, k) < m.len(),
        key_index(m, k) >= 0 ==> m[key_index(m, k)].0 == k,
        key_index(m, k) < 0 <==> forall|i: int| 0 <= i < m.len() ==> #[trigger] m[i].0 != k,
    decreases m.len(),
{
    if m.len() > 0 && m[0].0 != k {
        lemma_key_index_bounds(m.drop_first(), k);
        assert forall|i: int| 1 <= i < m.len() implies #[trigger] m[i].0 == m.drop_first()[i - 1].0 by {}
        if key_index(m.drop_first(), k) >= 0 {
            assert(m[key_index(m, k)] == m.drop_first()[key_index(m.drop_first(), k)]);
        } else {
            assert forall|i: int| 0 <= i < m.len() implies #[trigger] m[i].0 != k by {
                if i > 0 {
                    assert(m[i].0 == m.drop_first()[i - 1].0);
                }
            }
        }
    }
}

/// Every package occurs at most once in the upgrade table read from a
/// listing, and it occurs exactly when some line names it.
pub proof fn law_upgrade_table_keys_unique(ls: Seq<Seq<char>>)
    ensures
        forall|i: int, j: int| 0 <= i < j < upgrades_of(ls).len() ==> upgrades_of(ls)[i].0 != upgrades_of(ls)[j].0,
        forall|k: Seq<char>| key_index(upgrades_of(ls), k) >= 0 <==> exists|l: int| 0 <= l < ls.len() && #[trigger] line_names(ls[l], k),
    decreases ls.len(),
{
    if ls.len() > 0 {
        let init = ls.drop_last();
        law_upgrade_table_keys_unique(init);
        let m = upgrades_of(init);
        assert forall|l: int| 0 <= l < init.len() implies #[trigger] init[l] == ls[l] by {}
        match upgrade_entry(ls.last()) {
            Some((k, v)) => {
                lemma_key_index_bounds(m, k);
                let m2 = upsert(m, k, v);
                assert forall|i: int, j: int| 0 <= i < j < m2.len() implies m2[i].0 != m2[j].0 by {
                    if key_index(m, k) < 0 {
                        if j == m.len() {
                            assert(m[i].0 != k);
                        }
                    } else {
                        let x = key_index(m, k);
                        if i == x {
                            assert(m[j].0 != m[x].0);
                        } else if j == x {
                            assert(m[i].0 != m[x].0);
                        }
                    }
                }
                assert forall|q: Seq<char>| key_index(m2, q) >= 0 <==> exists|l: int| 0 <= l < ls.len() && #[trigger] line_names(ls[l], q) by {
                    lemma_key_index_bounds(m2, q);
                    lemma_key_index_bounds(m, q);
                    if q == k {
                        assert(line_names(ls[ls.len() - 1], q));
                        if key_index(m, k) < 0 {
                            assert(m2[m.len() as int].0 == q);
                        } else {
                            assert(m2[key_index(m, k)].0 == q);
                        }
                    } else {
                        if key_index(m, q) >= 0 {
                            assert(m2[key_index(m, q)].0 == q);
                            let l = choose|l: int| 0 <= l < init.len() && #[trigger] line_names(init[l], q);
                            assert(line_names(ls[l], q));
                        } else {
                            assert forall|i: int| 0 <= i < m2.len() implies #[trigger] m2[i].0 != q by {
                                if i < m.len() {
                                    assert(m[i].0 != q);
                                }
                            }
                            if exists|l: int| 0 <= l < ls.len() && #[trigger] line_names(ls[l], q) {
                                let l = choose|l: int| 0 <= l < ls.len() && #[trigger] line_names(ls[l], q);
                                assert(l < init.len());
                                assert(line_names(init[l], q));
                            }
                        }
                    }
                }
            },
            None => {
                assert forall|q: Seq<char>| key_index(m, q) >= 0 <==> exists|l: int| 0 <= l < ls.len() && #[trigger] line_names(ls[l], q) by {
                    if exists|l: int| 0 <= l < ls.len() && #[trigger] line_names(ls[l], q) {
                        let l = choose|l: int| 0 <= l < ls.len() && #[trigger] line_names(ls[l], q);
                        assert(l < init.len());
                        assert(line_names(init[l], q));
                    }
                    if key_index(m, q) >= 0 {
                        let l = choose|l: int| 0 <= l < init.len() && #[trigger] line_names(init[l], q);
                        assert(line_names(ls[l], q));
                    }
                }
            },
        }
    }
}

/// One result of an AUR search as the service reports it.
#[derive(Clone, Debug)]
pub struct AurItem {
    pub name: String,
    pub version: String,
    pub description: Option<String>,
}

/// What came back for an AUR search request.
#[derive(Clone, Debug)]
pub enum AurReply {
    /// The request failed; the error's text.
    RequestFailed(String),
    /// The reply was not the expected JSON; the error's text.
    ParseFailed(String),
    /// The search results.
    Items(Vec<AurItem>),
}

/// What an AUR search reports: the records found for the query, or one
/// warning line for the activity feed.
#[derive(Clone, Debug)]
pub enum AurEvent {
    Results { query: String, packages: Vec<SyncedPackage> },
    Warning(String),
}

pub open spec fn aur_item_model(it: AurItem, now: i64) -> SyncedModel {
    aur_model(it.name@, it.version@, match it.description {
        Some(d) => Some(d@),
        None => None,
    }, now)
}

/// The AUR search's report for `query` given the reply: a failed request
/// warns `aur query failed: <error>`, an unreadable reply warns
/// `aur parse failed: <error>`, and results become AUR records stamped with
/// `now`, in the order received.
pub fn aur_event(query: String, reply: AurReply, now: i64) -> (r: AurEvent)
    ensures
        reply matches AurReply::RequestFailed(e) ==> (r matches AurEvent::Warning(w) && w@ == "aur query failed: "@ + e@),
        reply matches AurReply::ParseFailed(e) ==> (r matches AurEvent::Warning(w) && w@ == "aur parse failed: "@ + e@),
        reply matches AurReply::Items(items) ==> (r matches AurEvent::Results { query: q, packages: p } && q@ == query@
            && records_view(p@) == items@.map_values(|it: AurItem| aur_item_model(it, now))),
{
    match reply {
        AurReply::RequestFailed(e) => {
            let mut w = "aur query failed: ".to_owned();
            w.append(e.as_str());
            AurEvent::Warning(w)
        },
        AurReply::ParseFailed(e) => {
            let mut w = "aur parse failed: ".to_owned();
            w.append(e.as_str());
            AurEvent::Warning(w)
        },
        AurReply::Items(items) => {
            let ghost iv = items@;
            let mut packages: Vec<SyncedPackage> = Vec::new();
            let mut i: usize = 0;
            while i < items.len()
                invariant
                    i <= items@.len(),
                    iv == items@,
                    records_view(packages@) == iv.take(i as int).map_values(|it: AurItem| aur_item_model(it, now)),
                decreases items.len() - i,
            {
                let it = &items[i];
                let d = match &it.description {
                    Some(x) => Some(x.clone()),
                    None => None,
                };
                let rec = aur_record(it.name.clone(), it.version.clone(), d, now);
                assert(rec@ == aur_item_model(*it, now));
                let ghost before = packages@;
                packages.push(rec);
                proof {
                    lemma_records_push(before, rec);
                    assert(iv.take(i + 1) == iv.take(i as int).push(iv[i as int]));
                    assert(records_view(packages@) =~= iv.take(i + 1).map_values(|it: AurItem| aur_item_model(it, now)));
                }
                i = i + 1;
            }
            assert(iv.take(iv.len() as int) == iv);
            AurEvent::Results { query, packages }
        },
    }
}

} // verus!
