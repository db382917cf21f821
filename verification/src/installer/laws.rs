//! Properties of install runs that hold across steps.

use vstd::prelude::*;
use crate::model::Manager;
use crate::installer::{PackageState, count_state, lemma_counts_partition, progress_of, CHUNK_SIZE};
use crate::installer::run::{
    RunModel, RunPhase, RequestModel, step_spec, begin_spec, finish_spec, candidates_upto,
    candidates_for, qualifies, dry_mark, current, chunk_end, settle, after_precheck, batch_request,
};

verus! {

pub open spec fn increasing(s: Seq<int>) -> bool {
    forall|i: int, j: int| 0 <= i < j < s.len() ==> s[i] < s[j]
}

/// First candidate position whose package has not been dealt with yet.
pub open spec fn open_from(m: RunModel) -> int {
    if m.phase == RunPhase::Verify { m.pos } else { m.chunk_start }
}

/// What holds of every state a run reaches.
pub open spec fn run_invariant(m: RunModel) -> bool {
    &&& m.wf()
    &&& (m.phase == RunPhase::Precheck ==> forall|k: int| m.pos <= k < m.queue.len() ==> m.states[k] == PackageState::Pending)
    &&& (m.phase == RunPhase::Chunk || m.phase == RunPhase::Batch || m.phase == RunPhase::Verify ==> {
        &&& increasing(m.candidates)
        &&& forall|j: int| open_from(m) <= j < m.candidates.len() ==> m.states[#[trigger] m.candidates[j]] == PackageState::Pending
        &&& forall|j: int| 0 <= j < m.candidates.len() ==> (current(m) == Manager::Pacman ==> m.official.contains(m.queue[#[trigger] m.candidates[j]]))
    })
}

proof fn lemma_candidates(m: RunModel, mg: Manager, n: int)
    requires
        0 <= n <= m.queue.len(),
        m.states.len() == m.queue.len(),
    ensures
        increasing(candidates_upto(m, mg, n)),
        candidates_upto(m, mg, n).len() <= n,
        forall|j: int| 0 <= j < candidates_upto(m, mg, n).len() ==> 0 <= #[trigger] candidates_upto(m, mg, n)[j] < n
            && qualifies(m, mg, candidates_upto(m, mg, n)[j]),
    decreases n,
{
    if n > 0 {
        lemma_candidates(m, mg, n - 1);
        let prev = candidates_upto(m, mg, n - 1);
        let extra = if qualifies(m, mg, n - 1) { seq![n - 1] } else { Seq::<int>::empty() };
        let c = candidates_upto(m, mg, n);
        assert(c == prev + extra);
        assert forall|j: int| 0 <= j < c.len() implies 0 <= #[trigger] c[j] < n && qualifies(m, mg, c[j]) by {
            if j < prev.len() {
                assert(c[j] == prev[j]);
            } else {
                assert(c[j] == extra[j - prev.len()]);
            }
        }
        assert forall|i: int, j: int| 0 <= i < j < c.len() implies c[i] < c[j] by {
            if j < prev.len() {
                assert(c[i] == prev[i] && c[j] == prev[j]);
            } else {
                assert(c[i] == prev[i]);
                assert(c[j] == n - 1);
            }
        }
    }
}

/// A dry run of candidate positions `lo..hi` marks exactly the pending ones
/// installed and touches nothing else.
proof fn lemma_dry_mark(m: RunModel, lo: int, hi: int)
    requires
        m.wf(),
        0 <= lo <= hi <= m.candidates.len(),
        increasing(m.candidates),
    ensures
        dry_mark(m, lo, hi).0.len() == m.states.len(),
        forall|q: int| 0 <= q < m.states.len() ==> {
            let st = #[trigger] dry_mark(m, lo, hi).0[q];
            if (exists|j: int| lo <= j < hi && m.candidates[j] == q) && m.states[q] == PackageState::Pending {
                st == PackageState::Installed
            } else {
                st == m.states[q]
            }
        },
    decreases hi - lo,
{
    if hi > lo {
        lemma_dry_mark(m, lo, hi - 1);
        let q0 = m.candidates[hi - 1];
        assert forall|q: int| 0 <= q < m.states.len() implies {
            let st = #[trigger] dry_mark(m, lo, hi).0[q];
            if (exists|j: int| lo <= j < hi && m.candidates[j] == q) && m.states[q] == PackageState::Pending {
                st == PackageState::Installed
            } else {
                st == m.states[q]
            }
        } by {
            if q == q0 {
                assert(m.candidates[hi - 1] == q);
                assert(!(exists|j: int| lo <= j < hi - 1 && m.candidates[j] == q)) by {
                    if exists|j: int| lo <= j < hi - 1 && m.candidates[j] == q {
                        let j = choose|j: int| lo <= j < hi - 1 && m.candidates[j] == q;
                        assert(m.candidates[j] < m.candidates[hi - 1]);
                    }
                }
            } else {
                if exists|j: int| lo <= j < hi && m.candidates[j] == q {
                    let j = choose|j: int| lo <= j < hi && m.candidates[j] == q;
                    assert(j != hi - 1);
                    assert(exists|j: int| lo <= j < hi - 1 && m.candidates[j] == q);
                }
            }
        }
    }
}

/// Every run starts in a state that satisfies `run_invariant`.
pub proof fn law_begin_invariant(packages: Seq<Seq<char>>, priority: Seq<Manager>, avail: crate::model::ManagerAvailability, official: Seq<Seq<char>>, dry_run: bool)
    requires
        priority.len() == 3,
    ensures
        run_invariant(begin_spec(packages, priority, avail, official, dry_run).0),
{
    crate::installer::run::lemma_normalized_len(packages);
}

/// Every step keeps `run_invariant`.
pub proof fn law_step_invariant(m: RunModel, cancelled: bool, answer: bool)
    requires
        run_invariant(m),
    ensures
        run_invariant(step_spec(m, cancelled, answer).0),
{
    let r = step_spec(m, cancelled, answer);
    let n = r.0;
    match m.phase {
        RunPhase::Managers => {
            if m.mgr < 3 && !cancelled && m.avail.has(current(m)) {
                lemma_candidates(m, current(m), m.queue.len() as int);
                let c = candidates_for(m, current(m));
                if c.len() > 0 {
                    assert forall|j: int| open_from(n) <= j < n.candidates.len() implies n.states[#[trigger] n.candidates[j]] == PackageState::Pending by {
                        assert(qualifies(m, current(m), c[j]));
                    }
                    assert forall|j: int| 0 <= j < n.candidates.len() && current(n) == Manager::Pacman implies n.official.contains(n.queue[#[trigger] n.candidates[j]]) by {
                        assert(qualifies(m, current(m), c[j]));
                    }
                    assert(n.wf());
                }
            }
        },
        RunPhase::Chunk => {
            if !(m.chunk_start >= m.candidates.len() || cancelled) && m.dry_run {
                let end = chunk_end(m);
                lemma_dry_mark(m, m.chunk_start, end);
                assert forall|j: int| open_from(n) <= j < n.candidates.len() implies n.states[#[trigger] n.candidates[j]] == PackageState::Pending by {
                    let q = n.candidates[j];
                    if exists|i: int| m.chunk_start <= i < end && m.candidates[i] == q {
                        let i = choose|i: int| m.chunk_start <= i < end && m.candidates[i] == q;
                        assert(m.candidates[i] < m.candidates[j]);
                    }
                }
            }
        },
        RunPhase::Verify => {
            let q = m.candidates[m.pos];
            assert forall|j: int| open_from(n) <= j < n.candidates.len() implies n.states[#[trigger] n.candidates[j]] == PackageState::Pending by {
                assert(m.candidates[m.pos] < m.candidates[j]);
            }
        },
        _ => {},
    }
}

/// A package whose state is settled (installed, skipped or failed) keeps it
/// through every step.
pub proof fn law_settled_states_are_final(m: RunModel, cancelled: bool, answer: bool, q: int)
    requires
        run_invariant(m),
        0 <= q < m.states.len(),
        m.states[q] != PackageState::Pending,
    ensures
        step_spec(m, cancelled, answer).0.states[q] == m.states[q],
{
    match m.phase {
        RunPhase::Precheck => {
            assert(q != m.pos);
        },
        RunPhase::Chunk => {
            if !(m.chunk_start >= m.candidates.len() || cancelled) && m.dry_run {
                lemma_dry_mark(m, m.chunk_start, chunk_end(m));
            }
        },
        RunPhase::Verify => {
            assert(m.states[m.candidates[m.pos]] == PackageState::Pending);
        },
        _ => {},
    }
}

/// Pacman is only ever handed packages of the official repositories.
pub proof fn law_pacman_gets_official_packages(m: RunModel, cancelled: bool, answer: bool)
    requires
        run_invariant(m),
    ensures
        ({
            let n = step_spec(m, cancelled, answer).0;
            (n.phase == RunPhase::Batch && current(n) == Manager::Pacman) ==> forall|j: int|
                0 <= j < n.candidates.len() ==> n.official.contains(n.queue[#[trigger] n.candidates[j]])
        }),
{
    law_step_invariant(m, cancelled, answer);
}

/// When a run finishes, nothing is left pending and the installed, skipped
/// and failed packages add up to the queue.
pub proof fn law_finish_accounts_for_every_package(m: RunModel, cancelled: bool)
    requires
        m.wf(),
    ensures
        ({
            let r = finish_spec(m, cancelled);
            &&& count_state(r.0.states, PackageState::Pending) == 0
            &&& count_state(r.0.states, PackageState::Installed) + count_state(r.0.states, PackageState::Skipped)
                + count_state(r.0.states, PackageState::Failed) == m.queue.len()
            &&& r.2 matches RequestModel::Finished(o) && o.installed + o.skipped + o.failed == m.queue.len()
        }),
{
    let s = settle(m.states);
    lemma_settle_no_pending(m.states);
    lemma_counts_partition(s);
}

proof fn lemma_settle_no_pending(s: Seq<PackageState>)
    ensures
        count_state(settle(s), PackageState::Pending) == 0,
    decreases s.len(),
{
    if s.len() > 0 {
        lemma_settle_no_pending(s.drop_last());
        assert(settle(s).drop_last() =~= settle(s.drop_last()));
    }
}

proof fn lemma_candidates_complete(m: RunModel, mg: Manager, n: int, q: int)
    requires
        0 <= q < n <= m.queue.len(),
        m.states.len() == m.queue.len(),
        qualifies(m, mg, q),
    ensures
        candidates_upto(m, mg, n).contains(q),
    decreases n,
{
    let prev = candidates_upto(m, mg, n - 1);
    let c = candidates_upto(m, mg, n);
    assert(c == prev + if qualifies(m, mg, n - 1) { seq![n - 1] } else { Seq::<int>::empty() });
    if q == n - 1 {
        assert(c[prev.len() as int] == q);
    } else {
        lemma_candidates_complete(m, mg, n - 1, q);
        let k = choose|k: int| 0 <= k < prev.len() && prev[k] == q;
        assert(c[k] == q);
    }
}

/// When an available manager's turn comes and no abort was requested, it is
/// handed exactly the packages still pending (for pacman, the official ones
/// among them), in queue order; with none, the turn passes to the next one.
pub proof fn law_stage_takes_every_pending_package(m: RunModel, cancelled: bool, answer: bool)
    requires
        run_invariant(m),
        m.phase == RunPhase::Managers,
        m.mgr < 3,
        !cancelled,
        m.avail.has(current(m)),
    ensures
        ({
            let n = step_spec(m, cancelled, answer).0;
            let has_work = exists|q: int| 0 <= q < m.queue.len() && qualifies(m, current(m), q);
            &&& has_work ==> {
                &&& n.phase == RunPhase::Chunk
                &&& current(n) == current(m)
                &&& increasing(n.candidates)
                &&& forall|q: int| 0 <= q < m.queue.len() ==> (n.candidates.contains(q) <==> #[trigger] qualifies(m, current(m), q))
            }
            &&& !has_work ==> n.phase == RunPhase::Managers && n.mgr == m.mgr + 1 && n.states == m.states
        }),
{
    let mg = current(m);
    let len = m.queue.len() as int;
    lemma_candidates(m, mg, len);
    let c = candidates_for(m, mg);
    let has_work = exists|q: int| 0 <= q < m.queue.len() && qualifies(m, mg, q);
    if has_work {
        let q0 = choose|q: int| 0 <= q < m.queue.len() && qualifies(m, mg, q);
        lemma_candidates_complete(m, mg, len, q0);
        assert(c.len() > 0);
        assert forall|q: int| 0 <= q < m.queue.len() implies (c.contains(q) <==> #[trigger] qualifies(m, mg, q)) by {
            if qualifies(m, mg, q) {
                lemma_candidates_complete(m, mg, len, q);
            }
            if c.contains(q) {
                let k = choose|k: int| 0 <= k < c.len() && c[k] == q;
                assert(qualifies(m, mg, c[k]));
            }
        }
    } else {
        if c.len() > 0 {
            assert(qualifies(m, mg, c[0]));
            assert(0 <= c[0] < len);
        }
    }
}

/// A batch that fails is split in two, the lower half tried first and the
/// upper half after it, so that a broken package is isolated instead of
/// failing the whole queue; only a batch of one package is recorded as
/// failing, and a batch that succeeds records nothing.
pub proof fn law_failed_batch_is_split(m: RunModel, cancelled: bool)
    requires
        run_invariant(m),
        m.phase == RunPhase::Batch,
    ensures
        ({
            let lo = m.stack.last().0;
            let hi = m.stack.last().1;
            let mid = lo + (hi - lo) / 2;
            let failed = step_spec(m, cancelled, false);
            let passed = step_spec(m, cancelled, true);
            &&& hi - lo >= 2 ==> {
                &&& failed.0.phase == RunPhase::Batch
                &&& failed.0.stack == m.stack.drop_last().push((mid, hi)).push((lo, mid))
                &&& failed.0.failures == m.failures
                &&& failed.2 == batch_request(m, lo, mid)
            }
            &&& hi - lo == 1 ==> failed.0.failures == m.failures.push(m.candidates[lo])
            &&& passed.0.failures == m.failures
            &&& passed.0.stack == m.stack.drop_last()
        }),
{
}

/// A dry run never asks for an install command: no step of it enters the
/// batch phase or requests a batch, and it starts outside that phase.
pub proof fn law_dry_run_runs_no_command(m: RunModel, cancelled: bool, answer: bool)
    requires
        run_invariant(m),
        m.dry_run,
        m.phase != RunPhase::Batch,
    ensures
        ({
            let r = step_spec(m, cancelled, answer);
            &&& r.0.phase != RunPhase::Batch
            &&& r.0.dry_run
            &&& !(r.2 is RunBatch)
        }),
{
}

/// The first state of a run is outside the batch phase and its first
/// request is not a batch.
pub proof fn law_begin_runs_no_command(packages: Seq<Seq<char>>, priority: Seq<Manager>, avail: crate::model::ManagerAvailability, official: Seq<Seq<char>>, dry_run: bool)
    ensures
        ({
            let r = begin_spec(packages, priority, avail, official, dry_run);
            &&& r.0.phase != RunPhase::Batch
            &&& r.0.dry_run == dry_run
            &&& !(r.2 is RunBatch)
        }),
{
}

/// Cost of the ranges still to be tried in a batch: a range of `n` packages
/// can take up to `2n - 1` more batch steps.
pub open spec fn stack_cost(stack: Seq<(int, int)>) -> int
    decreases stack.len(),
{
    if stack.len() == 0 {
        0
    } else {
        stack_cost(stack.drop_last()) + 2 * (stack.last().1 - stack.last().0) - 1
    }
}

/// Room left for the steps of one manager's stage.
pub open spec fn stage_span(m: RunModel) -> int {
    m.queue.len() * (CHUNK_SIZE + 3) + CHUNK_SIZE + 4
}

/// The measure of the stages after manager `k`.
pub open spec fn stages_after(m: RunModel, k: int) -> int {
    if k <= 0 {
        3 * stage_span(m)
    } else if k == 1 {
        2 * stage_span(m)
    } else if k == 2 {
        stage_span(m)
    } else {
        0
    }
}

/// What is left of a run, as a pair ordered lexicographically: the steps
/// that remain outside the batch in progress, and the cost of that batch.
pub open spec fn run_measure(m: RunModel) -> (int, int) {
    let left = (m.candidates.len() - m.chunk_start) * (CHUNK_SIZE + 3);
    let inner = stages_after(m, m.mgr + 1) + 2 + left;
    match m.phase {
        RunPhase::Precheck => (3 * stage_span(m) + 2 + (m.queue.len() - m.pos), 0),
        RunPhase::Managers => (stages_after(m, m.mgr) + 1, 0),
        RunPhase::Chunk => (inner + CHUNK_SIZE + 2, 0),
        RunPhase::Batch => (inner + CHUNK_SIZE + 1, stack_cost(m.stack)),
        RunPhase::Verify => (inner + (chunk_end(m) - m.pos), 0),
        RunPhase::Done => (0, 0),
    }
}

pub open spec fn measure_below(a: (int, int), b: (int, int)) -> bool {
    a.0 < b.0 || (a.0 == b.0 && a.1 < b.1)
}

proof fn lemma_stack_cost_nonneg(stack: Seq<(int, int)>)
    requires
        forall|i: int| 0 <= i < stack.len() ==> (#[trigger] stack[i]).0 < stack[i].1,
    ensures
        stack_cost(stack) >= 0,
    decreases stack.len(),
{
    if stack.len() > 0 {
        assert forall|i: int| 0 <= i < stack.drop_last().len() implies (#[trigger] stack.drop_last()[i]).0 < stack.drop_last()[i].1 by {
            assert(stack.drop_last()[i] == stack[i]);
        }
        lemma_stack_cost_nonneg(stack.drop_last());
        assert(stack[stack.len() - 1].0 < stack[stack.len() - 1].1);
    }
}

/// Every run ends: each step that is not the last lowers `run_measure`,
/// whose parts never go below zero, so a run reaches `Done` after finitely
/// many steps; and a finished run stays finished.
#[verifier::rlimit(80)]
pub proof fn law_run_terminates(m: RunModel, cancelled: bool, answer: bool)
    requires
        run_invariant(m),
    ensures
        run_measure(m).0 >= 0 && run_measure(m).1 >= 0,
        m.phase != RunPhase::Done ==> measure_below(run_measure(step_spec(m, cancelled, answer).0), run_measure(m)),
        m.phase == RunPhase::Done ==> step_spec(m, cancelled, answer).0 == m,
{
    let n = step_spec(m, cancelled, answer).0;
    let q = m.queue.len() as int;
    let span = stage_span(m);
    assert(m.candidates.len() <= q);
    if m.phase == RunPhase::Batch {
        lemma_stack_cost_nonneg(m.stack);
        let lo = m.stack.last().0;
        let hi = m.stack.last().1;
        let s1 = m.stack.drop_last();
        assert(m.stack[m.stack.len() - 1].0 < m.stack[m.stack.len() - 1].1);
        assert(stack_cost(m.stack) == stack_cost(s1) + 2 * (hi - lo) - 1);
        assert forall|i: int| 0 <= i < s1.len() implies (#[trigger] s1[i]).0 < s1[i].1 by {
            assert(s1[i] == m.stack[i]);
        }
        lemma_stack_cost_nonneg(s1);
        if !answer && hi - lo != 1 {
            let mid = lo + (hi - lo) / 2;
            let s2 = s1.push((mid, hi)).push((lo, mid));
            let s3 = s1.push((mid, hi));
            assert(s2.drop_last() == s3);
            assert(s2.last() == (lo, mid));
            assert(s3.drop_last() == s1);
            assert(s3.last() == (mid, hi));
            assert(stack_cost(s3) == stack_cost(s1) + 2 * (hi - mid) - 1);
            assert(stack_cost(s2) == stack_cost(s3) + 2 * (mid - lo) - 1);
            assert(stack_cost(s2) == stack_cost(s1) + 2 * (hi - mid) - 1 + 2 * (mid - lo) - 1);
        }
    }
    if m.phase == RunPhase::Managers && m.mgr < 3 && !cancelled && m.avail.has(current(m)) {
        lemma_candidates(m, current(m), q);
    }
    if m.phase == RunPhase::Chunk && !(m.chunk_start >= m.candidates.len() || cancelled) && m.dry_run {
        lemma_dry_mark(m, m.chunk_start, chunk_end(m));
    }
}

/// Only the end of a run fails a package: a step that does not finish the
/// run never turns a package into a failed one, so a package whose batch
/// failed under one manager is still pending for the managers after it.
pub proof fn law_only_the_end_fails_packages(m: RunModel, cancelled: bool, answer: bool, q: int)
    requires
        run_invariant(m),
        0 <= q < m.states.len(),
        m.states[q] != PackageState::Failed,
    ensures
        ({
            let n = step_spec(m, cancelled, answer).0;
            n.phase != RunPhase::Done ==> n.states[q] != PackageState::Failed
        }),
{
    match m.phase {
        RunPhase::Chunk => {
            if !(m.chunk_start >= m.candidates.len() || cancelled) && m.dry_run {
                lemma_dry_mark(m, m.chunk_start, chunk_end(m));
            }
        },
        _ => {},
    }
}

/// When the check after a batch finds a package not installed, its state is
/// left as it was: a package that was pending stays pending, whether or not
/// its batch failed, and nothing else changes; when the check finds it
/// installed, it is installed and nothing else changes.
pub proof fn law_verify_keeps_uninstalled_packages_pending(m: RunModel, cancelled: bool, answer: bool)
    requires
        run_invariant(m),
        m.phase == RunPhase::Verify,
    ensures
        ({
            let n = step_spec(m, cancelled, answer).0;
            let q = m.candidates[m.pos];
            &&& m.states[q] == PackageState::Pending
            &&& n.states.len() == m.states.len()
            &&& forall|i: int| 0 <= i < m.states.len() && i != q ==> n.states[i] == m.states[i]
            &&& !answer ==> n.states[q] == PackageState::Pending
            &&& answer ==> n.states[q] == PackageState::Installed
            &&& n.phase != RunPhase::Done
        }),
{
    assert(m.states[m.candidates[m.pos]] == PackageState::Pending);
}

} // verus!
