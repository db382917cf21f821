//! Queue editing and starting or aborting an install.

use vstd::prelude::*;
use crate::model::{priority_preset, preset_spec, InstallProgress};
use crate::text::{strings_view, decimal, usize_text};
use crate::order::{seq_lt, str_lt, strictly_sorted, lemma_lt_transitive, lemma_lt_irreflexive, lemma_lt_total, lemma_lt_asymmetric};
use crate::search::{package_tokens, parse_packages};
use crate::installer::{InstallRequest, ProgressModel, progress_view, contains_string};
use crate::backend::owned;
use super::{App, AppModel, InstallFocus, Screen, usize_ints};
use super::events::push_log_spec;

verus! {

/// Length of the longest prefix of `q` whose names all order before `x`.
pub open spec fn prefix_below(q: Seq<Seq<char>>, x: Seq<char>) -> int
    decreases q.len(),
{
    if q.len() > 0 && seq_lt(q[0], x) {
        1 + prefix_below(q.drop_first(), x)
    } else {
        0
    }
}

/// `q` with `x` inserted at its place, unless it is already there.
pub open spec fn insert_name(q: Seq<Seq<char>>, x: Seq<char>) -> Seq<Seq<char>> {
    let k = prefix_below(q, x);
    if k < q.len() && q[k] == x {
        q
    } else {
        q.insert(k, x)
    }
}

pub open spec fn insert_all(q: Seq<Seq<char>>, xs: Seq<Seq<char>>) -> Seq<Seq<char>>
    decreases xs.len(),
{
    if xs.len() == 0 {
        q
    } else {
        insert_name(insert_all(q, xs.drop_last()), xs.last())
    }
}

proof fn lemma_prefix_below(q: Seq<Seq<char>>, x: Seq<char>)
    ensures
        0 <= prefix_below(q, x) <= q.len(),
        forall|i: int| 0 <= i < prefix_below(q, x) ==> seq_lt(#[trigger] q[i], x),
        prefix_below(q, x) < q.len() ==> !seq_lt(q[prefix_below(q, x)], x),
    decreases q.len(),
{
    if q.len() > 0 && seq_lt(q[0], x) {
        lemma_prefix_below(q.drop_first(), x);
        assert forall|i: int| 0 <= i < prefix_below(q, x) implies seq_lt(#[trigger] q[i], x) by {
            if i > 0 {
                assert(q[i] == q.drop_first()[i - 1]);
            }
        }
    }
}

/// Inserting a name keeps a queue sorted without duplicates and adds
/// exactly that name.
pub proof fn law_insert_keeps_queue_sorted(q: Seq<Seq<char>>, x: Seq<char>)
    requires
        strictly_sorted(q),
    ensures
        strictly_sorted(insert_name(q, x)),
        q.contains(x) ==> insert_name(q, x) == q,
        insert_name(q, x).to_set() == q.to_set().insert(x),
        insert_name(q, x).len() == q.len() + if q.contains(x) { 0int } else { 1int },
{
    lemma_prefix_below(q, x);
    let k = prefix_below(q, x);
    if k < q.len() && q[k] == x {
        assert(q.to_set().insert(x) =~= q.to_set());
    } else {
        assert(!q.contains(x)) by {
            if q.contains(x) {
                let j = choose|j: int| 0 <= j < q.len() && q[j] == x;
                if j < k {
                    lemma_lt_irreflexive(x);
                } else {
                    lemma_lt_total(q[k], x);
                    if j > k {
                        assert(seq_lt(q[k], q[j]));
                        lemma_lt_asymmetric(q[k], x);
                    }
                }
            }
        }
        let r = q.insert(k, x);
        // every name at or after position k orders after x
        assert forall|i: int| k <= i < q.len() implies seq_lt(x, #[trigger] q[i]) by {
            lemma_lt_total(q[k], x);
            if i == k {
            } else {
                assert(seq_lt(q[k], q[i]));
                lemma_lt_total(q[k], x);
                lemma_lt_transitive(x, q[k], q[i]);
            }
        }
        assert forall|a: int, b: int| 0 <= a < b < r.len() implies seq_lt(#[trigger] r[a], #[trigger] r[b]) by {
            if b < k {
                assert(r[a] == q[a] && r[b] == q[b]);
            } else if b == k {
                assert(r[a] == q[a]);
            } else if a < k {
                assert(r[a] == q[a] && r[b] == q[b - 1]);
                assert(seq_lt(q[a], x));
                lemma_lt_transitive(q[a], x, q[b - 1]);
            } else if a == k {
                assert(r[b] == q[b - 1]);
            } else {
                assert(r[a] == q[a - 1] && r[b] == q[b - 1]);
            }
        }
        assert(!q.contains(x)) by {
            if q.contains(x) {
                let j = choose|j: int| 0 <= j < q.len() && q[j] == x;
                if j < k {
                    lemma_lt_irreflexive(x);
                } else {
                    lemma_lt_irreflexive(x);
                }
            }
        }
        assert forall|y: Seq<char>| r.to_set().contains(y) <==> q.to_set().insert(x).contains(y) by {
            if r.to_set().contains(y) {
                let j = choose|j: int| 0 <= j < r.len() && r[j] == y;
                if j < k {
                    assert(q[j] == y);
                } else if j > k {
                    assert(q[j - 1] == y);
                }
            }
            if q.to_set().contains(y) {
                let j = choose|j: int| 0 <= j < q.len() && q[j] == y;
                if j < k {
                    assert(r[j] == y);
                } else {
                    assert(r[j + 1] == y);
                }
            }
            if y == x {
                assert(r[k] == x);
            }
        }
        assert(r.to_set() =~= q.to_set().insert(x));
    }
}

/// Inserts `item` into a sorted queue; answers whether it was new.
pub fn insert_sorted(queue: &mut Vec<String>, item: String) -> (r: bool)
    requires
        strictly_sorted(strings_view(old(queue)@)),
    ensures
        strings_view(final(queue)@) == insert_name(strings_view(old(queue)@), item@),
        r == !strings_view(old(queue)@).contains(item@),
        strictly_sorted(strings_view(final(queue)@)),
{
    let ghost q = strings_view(queue@);
    proof {
        lemma_prefix_below(q, item@);
        law_insert_keeps_queue_sorted(q, item@);
    }
    let mut k: usize = 0;
    while k < queue.len()
        invariant
            k <= queue@.len(),
            q == strings_view(queue@),
            0 <= prefix_below(q, item@) <= q.len(),
            forall|i: int| 0 <= i < prefix_below(q, item@) ==> seq_lt(#[trigger] q[i], item@),
            prefix_below(q, item@) < q.len() ==> !seq_lt(q[prefix_below(q, item@)], item@),
            k <= prefix_below(q, item@),
            forall|i: int| 0 <= i < k ==> seq_lt(#[trigger] q[i], item@),
        ensures
            k <= q.len(),
            forall|i: int| 0 <= i < k ==> seq_lt(#[trigger] q[i], item@),
            k < q.len() ==> !seq_lt(q[k as int], item@),
        decreases queue@.len() - k,
    {
        if !str_lt(queue[k].as_str(), item.as_str()) {
            break;
        }
        k = k + 1;
    }
    proof {
        if k < prefix_below(q, item@) {
            assert(seq_lt(q[k as int], item@));
        }
        if k > prefix_below(q, item@) {
            assert(seq_lt(q[prefix_below(q, item@)], item@));
        }
    }
    assert(k == prefix_below(q, item@));
    if k < queue.len() && queue[k] == item {
        false
    } else {
        queue.insert(k, item);
        assert(strings_view(queue@) =~= q.insert(k as int, item@));
        true
    }
}

/// Adding a list of names keeps a queue sorted without duplicates, and the
/// queue then holds exactly its old names and the added ones.
pub proof fn law_insert_all_adds_exactly(q: Seq<Seq<char>>, xs: Seq<Seq<char>>)
    requires
        strictly_sorted(q),
    ensures
        strictly_sorted(insert_all(q, xs)),
        insert_all(q, xs).to_set() == q.to_set() + xs.to_set(),
    decreases xs.len(),
{
    if xs.len() == 0 {
        assert(q.to_set() + xs.to_set() =~= q.to_set());
    } else {
        let init = xs.drop_last();
        law_insert_all_adds_exactly(q, init);
        law_insert_keeps_queue_sorted(insert_all(q, init), xs.last());
        assert(xs.to_set() =~= init.to_set().insert(xs.last())) by {
            assert forall|y: Seq<char>| xs.to_set().contains(y) <==> init.to_set().insert(xs.last()).contains(y) by {
                if xs.contains(y) {
                    let j = choose|j: int| 0 <= j < xs.len() && xs[j] == y;
                    if j < init.len() {
                        assert(init[j] == y);
                    }
                }
                if init.contains(y) {
                    let j = choose|j: int| 0 <= j < init.len() && init[j] == y;
                    assert(xs[j] == y);
                }
                assert(xs[xs.len() - 1] == xs.last());
            }
        }
        assert(insert_all(q, xs).to_set() =~= q.to_set() + xs.to_set());
    }
}

/// Removing a name that was just added to a queue which lacked it gives the
/// queue back as it was.
pub proof fn law_remove_undoes_insert(q: Seq<Seq<char>>, x: Seq<char>)
    requires
        strictly_sorted(q),
        !q.contains(x),
    ensures
        ({
            let r = insert_name(q, x);
            r.contains(x) && r.remove(choose|j: int| 0 <= j < r.len() && r[j] == x) == q
        }),
{
    lemma_prefix_below(q, x);
    law_insert_keeps_queue_sorted(q, x);
    let k = prefix_below(q, x);
    let r = insert_name(q, x);
    assert(!(k < q.len() && q[k] == x));
    assert(r == q.insert(k, x));
    assert(r[k] == x);
    let j = choose|j: int| 0 <= j < r.len() && r[j] == x;
    if j != k {
        if j < k {
            assert(seq_lt(r[j], r[k]));
        } else {
            assert(seq_lt(r[k], r[j]));
        }
        lemma_lt_irreflexive(x);
    }
    assert(r.remove(k) =~= q);
}

proof fn lemma_remove_sorted(q: Seq<Seq<char>>, j: int)
    requires
        strictly_sorted(q),
        0 <= j < q.len(),
    ensures
        strictly_sorted(q.remove(j)),
{
    let q2 = q.remove(j);
    assert forall|a: int, b: int| 0 <= a < b < q2.len() implies seq_lt(#[trigger] q2[a], #[trigger] q2[b]) by {
        if b < j {
            assert(q2[a] == q[a] && q2[b] == q[b]);
        } else if a < j {
            assert(q2[a] == q[a] && q2[b] == q[b + 1]);
        } else {
            assert(q2[a] == q[a + 1] && q2[b] == q[b + 1]);
        }
    }
}

pub open spec fn min_cursor(cursor: int, len: int) -> int {
    let last = if len > 0 { len - 1 } else { 0 };
    if cursor < last { cursor } else { last }
}

/// Adding the names typed into the manual input to the queue.
pub open spec fn add_manual_spec(m: AppModel) -> AppModel {
    let toks = package_tokens(m.manual_input);
    if toks.len() == 0 {
        AppModel {
            warning_line: Some("No valid package names found in input"@),
            status_line: "Manual input is empty"@,
            ..m
        }
    } else {
        let q2 = insert_all(m.queue, toks);
        AppModel {
            queue: q2,
            warning_line: None,
            queue_cursor: min_cursor(m.queue_cursor, q2.len() as int),
            status_line: "Added "@ + decimal((q2.len() - m.queue.len()) as nat) + " package(s) to queue"@,
            manual_input: seq![],
            ..m
        }
    }
}

/// Queueing the package under the result cursor.
pub open spec fn add_highlighted_spec(m: AppModel) -> AppModel {
    if 0 <= m.result_cursor < m.matches.len() && 0 <= m.matches[m.result_cursor] < m.packages.len() {
        let name = m.packages[m.matches[m.result_cursor]].name@;
        if !m.queue.contains(name) {
            AppModel { queue: insert_name(m.queue, name), status_line: "Queued "@ + name, warning_line: None, ..m }
        } else {
            AppModel { status_line: name + " is already in queue"@, ..m }
        }
    } else {
        m
    }
}

/// Queueing the highlighted result adds the package the result cursor is
/// on, and only it: the queue afterwards holds that package's name and the
/// names it held before, stays sorted without duplicates, and the status
/// names the package.
pub proof fn law_highlighted_result_is_queued(m: AppModel)
    requires
        m.wf(),
        0 <= m.result_cursor < m.matches.len(),
    ensures
        ({
            let name = m.packages[m.matches[m.result_cursor]].name@;
            let m2 = add_highlighted_spec(m);
            &&& m2.queue.contains(name)
            &&& m2.queue.to_set() == m.queue.to_set().insert(name)
            &&& strictly_sorted(m2.queue)
            &&& m2.status_line == if m.queue.contains(name) { name + " is already in queue"@ } else { "Queued "@ + name }
            &&& m2.packages == m.packages && m2.matches == m.matches && m2.result_cursor == m.result_cursor
        }),
{
    let name = m.packages[m.matches[m.result_cursor]].name@;
    assert(0 <= m.matches[m.result_cursor] < m.packages.len());
    law_insert_keeps_queue_sorted(m.queue, name);
    let m2 = add_highlighted_spec(m);
    if m.queue.contains(name) {
        assert(m.queue.to_set().insert(name) =~= m.queue.to_set());
    } else {
        let q2 = insert_name(m.queue, name);
        assert(q2.to_set().contains(name));
        assert(q2.contains(name));
    }
}

/// Dropping the queue entry under the queue cursor.
pub open spec fn remove_selected_spec(m: AppModel) -> AppModel {
    if m.queue.len() == 0 {
        m
    } else {
        let idx = if m.queue_cursor < m.queue.len() - 1 { m.queue_cursor } else { m.queue.len() - 1 };
        let q2 = m.queue.remove(idx);
        AppModel {
            queue: q2,
            queue_cursor: min_cursor(m.queue_cursor, q2.len() as int),
            status_line: "Removed "@ + m.queue[idx],
            ..m
        }
    }
}

/// Dropping a named package from the queue.
pub open spec fn remove_named_spec(m: AppModel, pkg: Seq<char>) -> AppModel {
    if m.queue.contains(pkg) {
        let q2 = m.queue.remove(choose|j: int| 0 <= j < m.queue.len() && m.queue[j] == pkg);
        AppModel {
            queue: q2,
            queue_cursor: min_cursor(m.queue_cursor, q2.len() as int),
            status_line: "Removed "@ + pkg + " from queue"@,
            ..m
        }
    } else {
        m
    }
}

/// Starting an install: refused while one runs, with an empty queue, while
/// the index loads, or without a cached sudo session outside a dry run.
pub open spec fn start_install_spec(m: AppModel, sudo_cached: bool) -> AppModel {
    if m.install_running {
        m
    } else if m.queue.len() == 0 {
        AppModel {
            warning_line: Some("Queue is empty. Add packages before installing."@),
            status_line: "Queue is empty"@,
            ..m
        }
    } else if !m.index_ready {
        AppModel {
            warning_line: Some("Package index still loading"@),
            status_line: "Package index still loading"@,
            ..m
        }
    } else if !m.dry_run && !sudo_cached {
        push_log_spec(
            AppModel {
                warning_line: Some("Run sudo -v before installing"@),
                status_line: "Sudo session not active. Run sudo -v"@,
                ..m
            },
            "warn: sudo auth required before install; run sudo -v"@,
        )
    } else {
        AppModel {
            warning_line: None,
            logs: seq![],
            summary: None,
            progress: ProgressModel {
                total: m.queue.len(),
                done: 0,
                installed: 0,
                skipped: 0,
                failed: 0,
                stage: "Starting installer"@,
                current: None,
            },
            install_running: true,
            install_focus: InstallFocus::Progress,
            screen: Screen::Installing,
            status_line: "Installer running"@,
            ..m
        }
    }
}

pub open spec fn install_starts(m: AppModel, sudo_cached: bool) -> bool {
    !m.install_running && m.queue.len() > 0 && m.index_ready && (m.dry_run || sudo_cached)
}

impl App {
    #[verifier::rlimit(60)]
    pub fn add_from_manual_input(&mut self)
        requires
            old(self).wf(),
        ensures
            final(self).wf(),
            final(self)@ == add_manual_spec(old(self)@),
    {
        let ghost m0 = self@;
        let parsed = parse_packages(self.manual_input.as_str());
        let ghost toks = package_tokens(m0.manual_input);
        assert(strings_view(parsed@) =~= toks);
        if parsed.len() == 0 {
            self.warning_line = Some(owned("No valid package names found in input"));
            self.status_line = owned("Manual input is empty");
            assert(self@ =~= add_manual_spec(m0));
            return;
        }
        let mut added: usize = 0;
        let mut i: usize = 0;
        while i < parsed.len()
            invariant
                self.wf(),
                i <= parsed@.len(),
                strings_view(parsed@) == toks,
                self@ == (AppModel { queue: self@.queue, ..m0 }),
                self@.queue == insert_all(m0.queue, toks.take(i as int)),
                added == self@.queue.len() - m0.queue.len(),
                self@.queue.len() <= m0.queue.len() + i,
            decreases parsed@.len() - i,
        {
            let ghost before = self@;
            proof {
                law_insert_keeps_queue_sorted(before.queue, toks[i as int]);
                assert(toks.take(i + 1).drop_last() =~= toks.take(i as int));
            }
            let item = parsed[i].clone();
            if insert_sorted(&mut self.queue, item) {
                added = added + 1;
            }
            assert(self@ =~= (AppModel { queue: self@.queue, ..m0 }));
            i = i + 1;
        }
        assert(toks.take(parsed@.len() as int) =~= toks);
        self.warning_line = None;
        let n = self.queue.len();
        let last = if n > 0 { n - 1 } else { 0 };
        self.queue_cursor = if self.queue_cursor < last { self.queue_cursor } else { last };
        let mut st = owned("Added ");
        st.append(usize_text(added).as_str());
        st.append(" package(s) to queue");
        self.status_line = st;
        self.manual_input = String::new();
        assert(self@ =~= add_manual_spec(m0));
    }

    #[verifier::rlimit(60)]
    pub fn add_highlighted_result_to_queue(&mut self)
        requires
            old(self).wf(),
        ensures
            final(self).wf(),
            final(self)@ == add_highlighted_spec(old(self)@),
    {
        let ghost m0 = self@;
        if self.matches.len() == 0 {
            return;
        }
        if self.result_cursor < self.matches.len() {
            let index = self.matches[self.result_cursor];
            assert(m0.matches[self.result_cursor as int] == index as int);
            if index < self.packages.len() {
                let name = self.packages[index].name.clone();
                if insert_sorted(&mut self.queue, name.clone()) {
                    let mut st = owned("Queued ");
                    st.append(name.as_str());
                    self.status_line = st;
                    self.warning_line = None;
                } else {
                    let mut st = name.clone();
                    st.append(" is already in queue");
                    self.status_line = st;
                    proof { law_insert_keeps_queue_sorted(m0.queue, name@); }
                }
                assert(self@ =~= add_highlighted_spec(m0));
            }
        }
    }

    #[verifier::rlimit(60)]
    pub fn remove_selected_queue_item(&mut self)
        requires
            old(self).wf(),
        ensures
            final(self).wf(),
            final(self)@ == remove_selected_spec(old(self)@),
    {
        let ghost m0 = self@;
        if self.queue.len() == 0 {
            return;
        }
        let last = self.queue.len() - 1;
        let idx = if self.queue_cursor < last { self.queue_cursor } else { last };
        let removed = self.take_queue_entry(idx);
        let n = self.queue.len();
        let last2 = if n > 0 { n - 1 } else { 0 };
        self.queue_cursor = if self.queue_cursor < last2 { self.queue_cursor } else { last2 };
        let mut st = owned("Removed ");
        st.append(removed.as_str());
        self.status_line = st;
        assert(self@ =~= remove_selected_spec(m0));
    }

    fn take_queue_entry(&mut self, idx: usize) -> (r: String)
        requires
            old(self).wf(),
            idx < old(self)@.queue.len(),
        ensures
            final(self).wf(),
            r@ == old(self)@.queue[idx as int],
            final(self)@ == (AppModel { queue: old(self)@.queue.remove(idx as int), ..old(self)@ }),
    {
        let ghost m0 = self@;
        let removed = self.queue.remove(idx);
        proof { lemma_remove_sorted(m0.queue, idx as int); }
        assert(strings_view(self.queue@) =~= m0.queue.remove(idx as int));
        assert(self@ =~= (AppModel { queue: m0.queue.remove(idx as int), ..m0 }));
        removed
    }

    #[verifier::rlimit(60)]
    pub fn remove_from_queue(&mut self, pkg: &str)
        requires
            old(self).wf(),
        ensures
            final(self).wf(),
            final(self)@ == remove_named_spec(old(self)@, pkg@),
    {
        let ghost m0 = self@;
        let p = owned(pkg);
        if !contains_string(&self.queue, &p) {
            return;
        }
        let mut j: usize = 0;
        while j < self.queue.len()
            invariant
                j <= self.queue@.len(),
                self@ == m0,
                m0.queue == strings_view(self.queue@),
                m0.queue.len() == self.queue@.len(),
                p@ == pkg@,
                forall|i: int| 0 <= i < j ==> m0.queue[i] != pkg@,
            ensures
                j <= self.queue@.len(),
                forall|i: int| 0 <= i < j ==> m0.queue[i] != pkg@,
                j < self.queue@.len() ==> m0.queue[j as int] == pkg@,
            decreases self.queue@.len() - j,
        {
            if self.queue[j] == p {
                assert(m0.queue[j as int] == self.queue@[j as int]@);
                break;
            }
            assert(m0.queue[j as int] == self.queue@[j as int]@);
            j = j + 1;
        }
        assert(j < self.queue@.len() && m0.queue[j as int] == pkg@) by {
            if j >= self.queue@.len() {
                assert(m0.queue.contains(pkg@));
                let w = choose|w: int| 0 <= w < m0.queue.len() && m0.queue[w] == pkg@;
                assert(m0.queue[w] != pkg@);
            }
        }
        proof {
            let c = choose|w: int| 0 <= w < m0.queue.len() && m0.queue[w] == pkg@;
            if c != j {
                if c < j {
                    assert(seq_lt(m0.queue[c], m0.queue[j as int]));
                } else {
                    assert(seq_lt(m0.queue[j as int], m0.queue[c]));
                }
                lemma_lt_irreflexive(pkg@);
            }
        }
        let _removed = self.queue.remove(j);
        let ghost q2 = m0.queue.remove(j as int);
        assert(strings_view(self.queue@) =~= q2);
        let n = self.queue.len();
        let last = if n > 0 { n - 1 } else { 0 };
        self.queue_cursor = if self.queue_cursor < last { self.queue_cursor } else { last };
        let mut st = owned("Removed ");
        st.append(pkg);
        st.append(" from queue");
        self.status_line = st;
        proof { lemma_remove_sorted(m0.queue, j as int); }
        assert(self@ =~= remove_named_spec(m0, pkg@));
    }

    /// Whether starting an install would need to know if a sudo session is cached.
    pub fn needs_sudo_probe(&self) -> (r: bool)
        ensures
            r == (!self@.install_running && self@.queue.len() > 0 && self@.index_ready && !self@.dry_run),
    {
        !self.install_running && self.queue.len() > 0 && self.index_ready && !self.dry_run
    }

    /// Starts an install of the queue, see `start_install_spec`; the request
    /// for the installer comes back when the run starts.
    #[verifier::rlimit(60)]
    pub fn start_install(&mut self, sudo_cached: bool) -> (r: Option<InstallRequest>)
        requires
            old(self).wf(),
        ensures
            final(self).wf(),
            final(self)@ == start_install_spec(old(self)@, sudo_cached),
            r is Some == install_starts(old(self)@, sudo_cached),
            r matches Some(req) ==> {
                &&& strings_view(req.packages@) == old(self)@.queue
                &&& req.priority@ == preset_spec(old(self)@.priority_idx)
                &&& req.availability == old(self)@.availability
                &&& strings_view(req.official_set@) == old(self)@.official
                &&& req.dry_run == old(self)@.dry_run
            },
    {
        let ghost m0 = self@;
        if self.install_running {
            return None;
        }
        if self.queue.len() == 0 {
            self.warning_line = Some(owned("Queue is empty. Add packages before installing."));
            self.status_line = owned("Queue is empty");
            assert(self@ =~= start_install_spec(m0, sudo_cached));
            return None;
        }
        if !self.index_ready {
            self.warning_line = Some(owned("Package index still loading"));
            self.status_line = owned("Package index still loading");
            assert(self@ =~= start_install_spec(m0, sudo_cached));
            return None;
        }
        if !self.dry_run && !sudo_cached {
            self.warning_line = Some(owned("Run sudo -v before installing"));
            self.status_line = owned("Sudo session not active. Run sudo -v");
            self.push_log(owned("warn: sudo auth required before install; run sudo -v"));
            return None;
        }
        let request = InstallRequest {
            packages: self.queue.clone(),
            priority: priority_preset(self.priority_idx),
            availability: self.availability.clone(),
            official_set: self.official_set.clone(),
            dry_run: self.dry_run,
        };
        proof {
            assert(strings_view(request.packages@) =~= m0.queue);
            assert(strings_view(request.official_set@) =~= m0.official);
        }
        self.warning_line = None;
        self.logs.clear();
        self.summary = None;
        let mut p = InstallProgress::default();
        p.total = self.queue.len();
        p.stage = owned("Starting installer");
        self.progress = p;
        self.install_running = true;
        self.install_focus = InstallFocus::Progress;
        self.screen = Screen::Installing;
        self.status_line = owned("Installer running");
        assert(self@.logs =~= Seq::<(crate::model::LogLevel, Seq<char>)>::empty());
        assert(self@ =~= start_install_spec(m0, sudo_cached));
        Some(request)
    }

    /// Whether an abort flag should be raised: only while a run is active.
    pub fn request_abort(&self) -> (r: bool)
        ensures
            r == self@.install_running,
    {
        self.install_running
    }
}

} // verus!
