//! The install run as a state machine. The caller performs what each step
//! asks for (checking whether a package is installed, running a batch
//! command) and feeds the answer, together with the state of the abort flag,
//! into the next step.

use vstd::prelude::*;
use crate::model::{InstallProgress, Manager, ManagerAvailability, manager_bin};
use crate::text::{decimal, usize_text, strings_view};
use crate::backend::{CommandSpec, spec_is, owned};
use crate::installer::{
    PackageState, count_state, progress_of, progress_view, ProgressModel, InstallRequest,
    normalize_package_list, normalized, build_progress, contains_string, batch_command,
    install_batch_command, CHUNK_SIZE, lemma_counts_partition, lemma_count_bound,
};

verus! {

/// Where a run stands.
#[derive(Clone, Copy, Debug, PartialEq, Eq, Structural)]
pub enum RunPhase {
    /// Asking whether queued package `pos` is already installed.
    Precheck,
    /// About to try manager `mgr` of the priority list.
    Managers,
    /// About to start the batch of candidates from `chunk_start`.
    Chunk,
    /// Waiting for the result of the batch on the range at the top of `stack`.
    Batch,
    /// Asking whether candidate `pos` of the current batch is now installed.
    Verify,
    /// Finished.
    Done,
}

/// A run as plain values. `candidates` and `failures` hold queue positions,
/// `stack` ranges of candidate positions.
#[verifier::ext_equal]
pub struct RunModel {
    pub queue: Seq<Seq<char>>,
    pub states: Seq<PackageState>,
    pub official: Seq<Seq<char>>,
    pub priority: Seq<Manager>,
    pub avail: ManagerAvailability,
    pub dry_run: bool,
    pub phase: RunPhase,
    pub pos: int,
    pub mgr: int,
    pub candidates: Seq<int>,
    pub chunk_start: int,
    pub stack: Seq<(int, int)>,
    pub failures: Seq<int>,
    pub aborted: bool,
}

/// One piece of output of a step.
#[derive(Debug)]
pub enum RunOutput {
    Message(String),
    Progress(InstallProgress),
}

pub enum OutputModel {
    Message(Seq<char>),
    Progress(ProgressModel),
}

/// The counts of a finished run.
#[derive(Clone, Debug)]
pub struct InstallOutcome {
    pub installed: usize,
    pub skipped: usize,
    pub failed: usize,
    pub unresolved: Vec<String>,
    pub aborted: bool,
}

#[verifier::ext_equal]
pub struct OutcomeModel {
    pub installed: nat,
    pub skipped: nat,
    pub failed: nat,
    pub unresolved: Seq<Seq<char>>,
    pub aborted: bool,
}

/// What a step asks the caller to do before the next step.
#[derive(Debug)]
pub enum RunRequest {
    /// Nothing: call the next step right away.
    Proceed,
    /// Answer whether this package is installed.
    CheckInstalled(String),
    /// Run this command; answer whether it succeeded.
    RunBatch(CommandSpec),
    /// The run is over.
    Finished(InstallOutcome),
}

pub enum RequestModel {
    Proceed,
    CheckInstalled(Seq<char>),
    RunBatch(Seq<char>, Seq<Seq<char>>),
    Finished(OutcomeModel),
}

/// The outputs of a step and what it asks for.
#[derive(Debug)]
pub struct RunStep {
    pub outputs: Vec<RunOutput>,
    pub request: RunRequest,
}

pub open spec fn output_view(o: RunOutput) -> OutputModel {
    match o {
        RunOutput::Message(s) => OutputModel::Message(s@),
        RunOutput::Progress(p) => OutputModel::Progress(progress_view(p)),
    }
}

pub open spec fn outputs_view(v: Seq<RunOutput>) -> Seq<OutputModel> {
    v.map_values(|o: RunOutput| output_view(o))
}

pub open spec fn outcome_view(o: InstallOutcome) -> OutcomeModel {
    OutcomeModel {
        installed: o.installed as nat,
        skipped: o.skipped as nat,
        failed: o.failed as nat,
        unresolved: strings_view(o.unresolved@),
        aborted: o.aborted,
    }
}

pub open spec fn request_view(r: RunRequest) -> RequestModel {
    match r {
        RunRequest::Proceed => RequestModel::Proceed,
        RunRequest::CheckInstalled(s) => RequestModel::CheckInstalled(s@),
        RunRequest::RunBatch(c) => RequestModel::RunBatch(c.program@, strings_view(c.args@)),
        RunRequest::Finished(o) => RequestModel::Finished(outcome_view(o)),
    }
}

// ---------------------------------------------------------------- messages

pub open spec fn msg_skip(pkg: Seq<char>) -> Seq<char> {
    "warn: skip "@ + pkg + " (already installed)"@
}

pub open spec fn msg_abort() -> Seq<char> {
    "warn: abort requested; stopping further managers"@
}

pub open spec fn msg_unavailable(m: Manager) -> Seq<char> {
    "warn: manager "@ + manager_bin(m) + " unavailable, skipping"@
}

pub open spec fn msg_no_candidates(m: Manager) -> Seq<char> {
    "info: manager "@ + manager_bin(m) + " has no candidates"@
}

pub open spec fn msg_stage(m: Manager, n: nat) -> Seq<char> {
    "info: stage "@ + manager_bin(m) + " candidates="@ + decimal(n) + " (batched)"@
}

pub open spec fn msg_dry(m: Manager, pkg: Seq<char>) -> Seq<char> {
    "ok: dry-run "@ + manager_bin(m) + " "@ + pkg
}

pub open spec fn msg_batch_ok(m: Manager, n: nat) -> Seq<char> {
    "ok: batch ok "@ + manager_bin(m) + " count="@ + decimal(n)
}

pub open spec fn msg_batch_failed(m: Manager, pkg: Seq<char>) -> Seq<char> {
    "error: batch failed "@ + manager_bin(m) + " package="@ + pkg
}

pub open spec fn msg_unresolved(m: Manager, pkg: Seq<char>) -> Seq<char> {
    "error: unresolved after "@ + manager_bin(m) + ": "@ + pkg
}

pub open spec fn msg_mode(dry_run: bool) -> Seq<char> {
    if dry_run {
        "warn: dry-run mode enabled"@
    } else {
        "info: using existing sudo session (validated by UI pre-check)"@
    }
}

fn text2(a: &str, b: &str) -> (r: String)
    ensures
        r@ == a@ + b@,
{
    let mut s = owned(a);
    s.append(b);
    s
}

fn text3(a: &str, b: &str, c: &str) -> (r: String)
    ensures
        r@ == a@ + b@ + c@,
{
    let mut s = owned(a);
    s.append(b);
    s.append(c);
    s
}

fn text4(a: &str, b: &str, c: &str, d: &str) -> (r: String)
    ensures
        r@ == a@ + b@ + c@ + d@,
{
    let mut s = owned(a);
    s.append(b);
    s.append(c);
    s.append(d);
    s
}

fn text5(a: &str, b: &str, c: &str, d: &str, e: &str) -> (r: String)
    ensures
        r@ == a@ + b@ + c@ + d@ + e@,
{
    let mut s = owned(a);
    s.append(b);
    s.append(c);
    s.append(d);
    s.append(e);
    s
}

// ------------------------------------------------------------------ model

impl RunModel {
    pub open spec fn wf(self) -> bool {
        &&& self.states.len() == self.queue.len()
        &&& self.priority.len() == 3
        &&& 0 <= self.mgr <= 3
        &&& (forall|i: int| 0 <= i < self.candidates.len() ==> 0 <= #[trigger] self.candidates[i] < self.queue.len())
        &&& (forall|i: int| 0 <= i < self.failures.len() ==> 0 <= #[trigger] self.failures[i] < self.queue.len())
        &&& self.candidates.len() <= self.queue.len()
        &&& (self.phase == RunPhase::Precheck ==> 0 <= self.pos < self.queue.len())
        &&& (self.phase == RunPhase::Chunk || self.phase == RunPhase::Batch || self.phase == RunPhase::Verify ==> {
            &&& self.mgr < 3
            &&& 0 <= self.chunk_start <= self.candidates.len()
        })
        &&& (self.phase == RunPhase::Batch ==> {
            &&& self.chunk_start < self.candidates.len()
            &&& self.stack.len() > 0
            &&& forall|i: int| 0 <= i < self.stack.len() ==> self.chunk_start <= (#[trigger] self.stack[i]).0 < self.stack[i].1 <= chunk_end(self)
        })
        &&& (self.phase == RunPhase::Verify ==> self.chunk_start <= self.pos < chunk_end(self))
    }
}

/// End of the batch that starts at `chunk_start`.
pub open spec fn chunk_end(m: RunModel) -> int {
    if m.candidates.len() - m.chunk_start > CHUNK_SIZE {
        m.chunk_start + CHUNK_SIZE
    } else {
        m.candidates.len() as int
    }
}

pub open spec fn current(m: RunModel) -> Manager {
    m.priority[m.mgr]
}

/// Name of the package at candidate position `k`.
pub open spec fn cand_name(m: RunModel, k: int) -> Seq<char> {
    m.queue[m.candidates[k]]
}

/// Names at candidate positions `lo..hi`.
pub open spec fn cand_names(m: RunModel, lo: int, hi: int) -> Seq<Seq<char>> {
    Seq::new((hi - lo) as nat, |j: int| m.queue[m.candidates[lo + j]])
}

/// A package is a candidate for `mg` when it is pending; pacman only takes
/// packages of the official repositories.
pub open spec fn qualifies(m: RunModel, mg: Manager, i: int) -> bool {
    m.states[i] == PackageState::Pending && (mg == Manager::Pacman ==> m.official.contains(m.queue[i]))
}

pub open spec fn candidates_upto(m: RunModel, mg: Manager, n: int) -> Seq<int>
    decreases n,
{
    if n <= 0 {
        seq![]
    } else {
        candidates_upto(m, mg, n - 1) + if qualifies(m, mg, n - 1) {
            seq![n - 1]
        } else {
            Seq::<int>::empty()
        }
    }
}

/// Queue positions of the candidates for `mg`, in queue order.
pub open spec fn candidates_for(m: RunModel, mg: Manager) -> Seq<int> {
    candidates_upto(m, mg, m.queue.len() as int)
}

/// Pending packages become failed when no manager is left.
pub open spec fn settle(s: Seq<PackageState>) -> Seq<PackageState> {
    s.map_values(|x: PackageState| if x == PackageState::Pending { PackageState::Failed } else { x })
}

/// Names of the failed packages, in queue order.
pub open spec fn failed_names(queue: Seq<Seq<char>>, states: Seq<PackageState>) -> Seq<Seq<char>>
    decreases queue.len(),
{
    if queue.len() == 0 || states.len() != queue.len() {
        seq![]
    } else {
        failed_names(queue.drop_last(), states.drop_last()) + if states.last()
            == PackageState::Failed {
            seq![queue.last()]
        } else {
            Seq::<Seq<char>>::empty()
        }
    }
}

pub open spec fn outcome_of(m: RunModel) -> OutcomeModel {
    OutcomeModel {
        installed: count_state(m.states, PackageState::Installed),
        skipped: count_state(m.states, PackageState::Skipped),
        failed: count_state(m.states, PackageState::Failed),
        unresolved: failed_names(m.queue, m.states),
        aborted: m.aborted,
    }
}

/// The end of a run: what is still pending failed, the final counters are
/// reported and the outcome handed back.
pub open spec fn finish_spec(m: RunModel, cancelled: bool) -> (RunModel, Seq<OutputModel>, RequestModel) {
    let m2 = RunModel { states: settle(m.states), phase: RunPhase::Done, aborted: cancelled, ..m };
    (
        m2,
        seq![OutputModel::Progress(progress_of(m2.states, "Completed"@, None))],
        RequestModel::Finished(outcome_of(m2)),
    )
}

/// After the pre-check: report the counters and go to the first manager.
pub open spec fn after_precheck(m: RunModel) -> (RunModel, Seq<OutputModel>, RequestModel) {
    (
        RunModel { phase: RunPhase::Managers, mgr: 0, ..m },
        seq![OutputModel::Progress(progress_of(m.states, "Pre-check completed"@, None))],
        RequestModel::Proceed,
    )
}

/// Marks the pending packages at candidate positions `lo..hi` installed, as
/// a dry run does, with one message each.
pub open spec fn dry_mark(m: RunModel, lo: int, hi: int) -> (Seq<PackageState>, Seq<OutputModel>)
    decreases hi - lo,
{
    if hi <= lo {
        (m.states, seq![])
    } else {
        let (st, o) = dry_mark(m, lo, hi - 1);
        let q = m.candidates[hi - 1];
        if st[q] == PackageState::Pending {
            (st.update(q, PackageState::Installed), o.push(OutputModel::Message(msg_dry(current(m), m.queue[q]))))
        } else {
            (st, o)
        }
    }
}

pub open spec fn batch_request(m: RunModel, lo: int, hi: int) -> RequestModel {
    let c = batch_command(current(m), cand_names(m, lo, hi));
    RequestModel::RunBatch(c.0, c.1)
}

/// The transition of a run on the abort flag `cancelled` and the answer to
/// the previous request.
pub open spec fn step_spec(m: RunModel, cancelled: bool, answer: bool) -> (RunModel, Seq<OutputModel>, RequestModel) {
    match m.phase {
        RunPhase::Precheck => {
            let i = m.pos;
            let st = m.states.update(i, if answer { PackageState::Skipped } else { PackageState::Pending });
            let msgs = if answer { seq![OutputModel::Message(msg_skip(m.queue[i]))] } else { Seq::<OutputModel>::empty() };
            let m1 = RunModel { states: st, ..m };
            if i + 1 < m.queue.len() {
                (RunModel { pos: i + 1, ..m1 }, msgs, RequestModel::CheckInstalled(m.queue[i + 1]))
            } else {
                let r = after_precheck(m1);
                (r.0, msgs + r.1, r.2)
            }
        },
        RunPhase::Managers => {
            if m.mgr >= 3 {
                finish_spec(m, cancelled)
            } else if cancelled {
                let r = finish_spec(m, cancelled);
                (r.0, seq![OutputModel::Message(msg_abort())] + r.1, r.2)
            } else if !m.avail.has(current(m)) {
                (RunModel { mgr: m.mgr + 1, ..m }, seq![OutputModel::Message(msg_unavailable(current(m)))], RequestModel::Proceed)
            } else {
                let c = candidates_for(m, current(m));
                if c.len() == 0 {
                    (RunModel { mgr: m.mgr + 1, ..m }, seq![OutputModel::Message(msg_no_candidates(current(m)))], RequestModel::Proceed)
                } else {
                    (
                        RunModel { phase: RunPhase::Chunk, candidates: c, chunk_start: 0, ..m },
                        seq![OutputModel::Message(msg_stage(current(m), c.len()))],
                        RequestModel::Proceed,
                    )
                }
            }
        },
        RunPhase::Chunk => {
            if m.chunk_start >= m.candidates.len() || cancelled {
                (RunModel { phase: RunPhase::Managers, mgr: m.mgr + 1, ..m }, seq![], RequestModel::Proceed)
            } else {
                let end = chunk_end(m);
                let p1 = OutputModel::Progress(progress_of(m.states, "Installing via "@ + manager_bin(current(m)), Some(cand_name(m, m.chunk_start))));
                if m.dry_run {
                    let (st, msgs) = dry_mark(m, m.chunk_start, end);
                    (
                        RunModel { states: st, chunk_start: end, ..m },
                        seq![p1] + msgs + seq![OutputModel::Progress(progress_of(st, "Dry-run via "@ + manager_bin(current(m)), Some(cand_name(m, end - 1))))],
                        RequestModel::Proceed,
                    )
                } else {
                    (
                        RunModel { phase: RunPhase::Batch, stack: seq![(m.chunk_start, end)], failures: seq![], ..m },
                        seq![p1],
                        batch_request(m, m.chunk_start, end),
                    )
                }
            }
        },
        RunPhase::Batch => {
            let (lo, hi) = m.stack.last();
            let s1 = m.stack.drop_last();
            let (s2, f2, msgs) = if answer {
                (s1, m.failures, seq![OutputModel::Message(msg_batch_ok(current(m), (hi - lo) as nat))])
            } else if hi - lo == 1 {
                (s1, m.failures.push(m.candidates[lo]), seq![OutputModel::Message(msg_batch_failed(current(m), cand_name(m, lo)))])
            } else {
                let mid = lo + (hi - lo) / 2;
                (s1.push((mid, hi)).push((lo, mid)), m.failures, Seq::<OutputModel>::empty())
            };
            if s2.len() == 0 {
                (
                    RunModel { phase: RunPhase::Verify, pos: m.chunk_start, stack: s2, failures: f2, ..m },
                    msgs,
                    RequestModel::CheckInstalled(cand_name(m, m.chunk_start)),
                )
            } else {
                (
                    RunModel { stack: s2, failures: f2, ..m },
                    msgs,
                    batch_request(m, s2.last().0, s2.last().1),
                )
            }
        },
        RunPhase::Verify => {
            let k = m.pos;
            let q = m.candidates[k];
            let end = chunk_end(m);
            let st = if answer { m.states.update(q, PackageState::Installed) } else { m.states };
            let msgs = if !answer && m.failures.contains(q) && m.states[q] == PackageState::Pending {
                seq![OutputModel::Message(msg_unresolved(current(m), m.queue[q]))]
            } else {
                Seq::<OutputModel>::empty()
            };
            if k + 1 < end {
                (RunModel { states: st, pos: k + 1, ..m }, msgs, RequestModel::CheckInstalled(cand_name(m, k + 1)))
            } else {
                (
                    RunModel { states: st, phase: RunPhase::Chunk, chunk_start: end, ..m },
                    msgs + seq![OutputModel::Progress(progress_of(st, "Installed via "@ + manager_bin(current(m)), Some(cand_name(m, end - 1))))],
                    RequestModel::Proceed,
                )
            }
        },
        RunPhase::Done => (m, seq![], RequestModel::Finished(outcome_of(m))),
    }
}

/// The start of a run: the mode message, then the pre-check of the first
/// package of the normalized queue.
pub open spec fn begin_spec(packages: Seq<Seq<char>>, priority: Seq<Manager>, avail: ManagerAvailability, official: Seq<Seq<char>>, dry_run: bool) -> (RunModel, Seq<OutputModel>, RequestModel) {
    let q = normalized(packages);
    let m = RunModel {
        queue: q,
        states: Seq::new(q.len(), |i: int| PackageState::Pending),
        official,
        priority,
        avail,
        dry_run,
        phase: RunPhase::Precheck,
        pos: 0,
        mgr: 0,
        candidates: seq![],
        chunk_start: 0,
        stack: seq![],
        failures: seq![],
        aborted: false,
    };
    let msgs = seq![OutputModel::Message(msg_mode(dry_run))];
    if q.len() > 0 {
        (m, msgs, RequestModel::CheckInstalled(q[0]))
    } else {
        let r = after_precheck(m);
        (r.0, msgs + r.1, r.2)
    }
}


// ------------------------------------------------------------------- exec

/// An install run in progress.
pub struct InstallRun {
    queue: Vec<String>,
    states: Vec<PackageState>,
    official: Vec<String>,
    priority: [Manager; 3],
    availability: ManagerAvailability,
    dry_run: bool,
    phase: RunPhase,
    pos: usize,
    mgr: usize,
    candidates: Vec<usize>,
    chunk_start: usize,
    stack: Vec<(usize, usize)>,
    failures: Vec<usize>,
    aborted: bool,
}

pub open spec fn ints(v: Seq<usize>) -> Seq<int> {
    v.map_values(|x: usize| x as int)
}

pub open spec fn ranges(v: Seq<(usize, usize)>) -> Seq<(int, int)> {
    v.map_values(|x: (usize, usize)| (x.0 as int, x.1 as int))
}

impl View for InstallRun {
    type V = RunModel;

    closed spec fn view(&self) -> RunModel {
        RunModel {
            queue: strings_view(self.queue@),
            states: self.states@,
            official: strings_view(self.official@),
            priority: self.priority@,
            avail: self.availability,
            dry_run: self.dry_run,
            phase: self.phase,
            pos: self.pos as int,
            mgr: self.mgr as int,
            candidates: ints(self.candidates@),
            chunk_start: self.chunk_start as int,
            stack: ranges(self.stack@),
            failures: ints(self.failures@),
            aborted: self.aborted,
        }
    }
}

proof fn lemma_push_output(v: Seq<RunOutput>, x: RunOutput)
    ensures
        outputs_view(v.push(x)) == outputs_view(v).push(output_view(x)),
{
    assert(outputs_view(v.push(x)) =~= outputs_view(v).push(output_view(x)));
}

fn message(v: &mut Vec<RunOutput>, s: String)
    ensures
        outputs_view(final(v)@) == outputs_view(old(v)@).push(OutputModel::Message(s@)),
{
    proof { lemma_push_output(v@, RunOutput::Message(s)); }
    v.push(RunOutput::Message(s));
}

fn progress(v: &mut Vec<RunOutput>, p: InstallProgress)
    ensures
        outputs_view(final(v)@) == outputs_view(old(v)@).push(OutputModel::Progress(progress_view(p))),
{
    proof { lemma_push_output(v@, RunOutput::Progress(p)); }
    v.push(RunOutput::Progress(p));
}

fn failed_names_of(queue: &Vec<String>, states: &Vec<PackageState>) -> (r: Vec<String>)
    requires
        queue@.len() == states@.len(),
    ensures
        strings_view(r@) == failed_names(strings_view(queue@), states@),
{
    let mut r: Vec<String> = Vec::new();
    let ghost qv = strings_view(queue@);
    let mut i: usize = 0;
    while i < queue.len()
        invariant
            i <= queue@.len(),
            queue@.len() == states@.len(),
            qv == strings_view(queue@),
            strings_view(r@) == failed_names(qv.take(i as int), states@.take(i as int)),
        decreases queue@.len() - i,
    {
        proof {
            assert(qv.take(i + 1).drop_last() == qv.take(i as int));
            assert(states@.take(i + 1).drop_last() == states@.take(i as int));
        }
        if states[i] == PackageState::Failed {
            r.push(queue[i].clone());
        }
        assert(strings_view(r@) =~= failed_names(qv.take(i + 1), states@.take(i + 1)));
        i = i + 1;
    }
    assert(qv.take(queue@.len() as int) == qv);
    assert(states@.take(queue@.len() as int) == states@);
    r
}

impl InstallRun {
    pub closed spec fn wf(&self) -> bool {
        &&& self@.wf()
    }

    /// Starts a run on `request`, see `begin_spec`.
    pub fn begin(request: InstallRequest) -> (r: (InstallRun, RunStep))
        ensures
            r.0.wf(),
            r.0@ == begin_spec(strings_view(request.packages@), request.priority@, request.availability, strings_view(request.official_set@), request.dry_run).0,
            outputs_view(r.1.outputs@) == begin_spec(strings_view(request.packages@), request.priority@, request.availability, strings_view(request.official_set@), request.dry_run).1,
            request_view(r.1.request) == begin_spec(strings_view(request.packages@), request.priority@, request.availability, strings_view(request.official_set@), request.dry_run).2,
    {
        let ghost spec_r = begin_spec(strings_view(request.packages@), request.priority@, request.availability, strings_view(request.official_set@), request.dry_run);
        let mut outputs: Vec<RunOutput> = Vec::new();
        if request.dry_run {
            message(&mut outputs, owned("warn: dry-run mode enabled"));
        } else {
            message(&mut outputs, owned("info: using existing sudo session (validated by UI pre-check)"));
        }
        let queue = normalize_package_list(request.packages);
        let mut states: Vec<PackageState> = Vec::new();
        let mut i: usize = 0;
        while i < queue.len()
            invariant
                i <= queue@.len(),
                states@.len() == i,
                forall|k: int| 0 <= k < i ==> states@[k] == PackageState::Pending,
            decreases queue@.len() - i,
        {
            states.push(PackageState::Pending);
            i = i + 1;
        }
        assert(states@ =~= Seq::new(queue@.len(), |i: int| PackageState::Pending));
        let mut run = InstallRun {
            queue,
            states,
            official: request.official_set,
            priority: request.priority,
            availability: request.availability,
            dry_run: request.dry_run,
            phase: RunPhase::Precheck,
            pos: 0,
            mgr: 0,
            candidates: Vec::new(),
            chunk_start: 0,
            stack: Vec::new(),
            failures: Vec::new(),
            aborted: false,
        };
        assert(ints(run.candidates@) =~= Seq::<int>::empty());
        assert(ints(run.failures@) =~= Seq::<int>::empty());
        assert(ranges(run.stack@) =~= Seq::<(int, int)>::empty());
        proof {
            lemma_normalized_len(strings_view(request.packages@));
        }
        if run.queue.len() > 0 {
            let first = run.queue[0].clone();
            assert(run@ =~= spec_r.0);
            (run, RunStep { outputs, request: RunRequest::CheckInstalled(first) })
        } else {
            run.phase = RunPhase::Managers;
            let p = build_progress(run.states.as_slice(), "Pre-check completed", None);
            progress(&mut outputs, p);
            assert(run@ =~= spec_r.0);
            assert(outputs_view(outputs@) =~= spec_r.1);
            (run, RunStep { outputs, request: RunRequest::Proceed })
        }
    }
}

proof fn lemma_candidates_range(m: RunModel, mg: Manager, n: int)
    ensures
        forall|i: int| 0 <= i < candidates_upto(m, mg, n).len() ==> 0 <= #[trigger] candidates_upto(m, mg, n)[i] < n,
    decreases n,
{
    if n > 0 {
        lemma_candidates_range(m, mg, n - 1);
        let prev = candidates_upto(m, mg, n - 1);
        let extra = if qualifies(m, mg, n - 1) { seq![n - 1] } else { Seq::<int>::empty() };
        assert(candidates_upto(m, mg, n) == prev + extra);
        assert forall|i: int| 0 <= i < candidates_upto(m, mg, n).len() implies 0 <= #[trigger] candidates_upto(m, mg, n)[i] < n by {
            if i < prev.len() {
                assert(candidates_upto(m, mg, n)[i] == prev[i]);
            } else {
                assert(candidates_upto(m, mg, n)[i] == extra[i - prev.len()]);
            }
        }
    }
}

/// Normalizing never lengthens a package list.
pub proof fn lemma_normalized_len(input: Seq<Seq<char>>)
    ensures
        normalized(input).len() <= input.len(),
    decreases input.len(),
{
    if input.len() > 0 {
        lemma_normalized_len(input.drop_last());
    }
}


impl InstallRun {
    /// The run's view is well formed in every reachable state.
    proof fn lemma_view(&self)
        ensures
            self@.queue.len() == self.queue@.len(),
            self@.states.len() == self.states@.len(),
            self@.candidates.len() == self.candidates@.len(),
            self@.failures.len() == self.failures@.len(),
            self@.stack.len() == self.stack@.len(),
    {
    }

    fn finish(&mut self, cancelled: bool) -> (r: RunStep)
        requires
            old(self).wf(),
        ensures
            final(self).wf(),
            final(self)@ == finish_spec(old(self)@, cancelled).0,
            outputs_view(r.outputs@) == finish_spec(old(self)@, cancelled).1,
            request_view(r.request) == finish_spec(old(self)@, cancelled).2,
    {
        let ghost old_m = self@;
        let mut i: usize = 0;
        while i < self.states.len()
            invariant
                old_m.wf(),
                i <= self.states@.len(),
                self@ == (RunModel { states: self@.states, ..old_m }),
                self@.states.len() == old_m.states.len(),
                forall|k: int| 0 <= k < i ==> self@.states[k] == settle(old_m.states)[k],
                forall|k: int| i <= k < self@.states.len() ==> self@.states[k] == old_m.states[k],
            decreases self.states@.len() - i,
        {
            if self.states[i] == PackageState::Pending {
                self.states.set(i, PackageState::Failed);
            }
            assert(self@ =~= (RunModel { states: self@.states, ..old_m }));
            i = i + 1;
        }
        assert(self@.states =~= settle(old_m.states));
        assert(self@.wf());
        self.phase = RunPhase::Done;
        self.aborted = cancelled;
        let installed = crate::installer::count_of(self.states.as_slice(), PackageState::Installed);
        let skipped = crate::installer::count_of(self.states.as_slice(), PackageState::Skipped);
        let failed = crate::installer::count_of(self.states.as_slice(), PackageState::Failed);
        let unresolved = failed_names_of(&self.queue, &self.states);
        let mut outputs: Vec<RunOutput> = Vec::new();
        let p = build_progress(self.states.as_slice(), "Completed", None);
        progress(&mut outputs, p);
        let outcome = InstallOutcome { installed, skipped, failed, unresolved, aborted: cancelled };
        assert(self@ =~= finish_spec(old_m, cancelled).0);
        assert(outputs_view(outputs@) =~= finish_spec(old_m, cancelled).1);
        assert(outcome_view(outcome) =~= outcome_of(self@));
        RunStep { outputs, request: RunRequest::Finished(outcome) }
    }

    fn precheck_step(&mut self, cancelled: bool, answer: bool) -> (r: RunStep)
        requires
            old(self).wf(),
            old(self)@.phase == RunPhase::Precheck,
        ensures
            final(self).wf(),
            final(self)@ == step_spec(old(self)@, cancelled, answer).0,
            outputs_view(r.outputs@) == step_spec(old(self)@, cancelled, answer).1,
            request_view(r.request) == step_spec(old(self)@, cancelled, answer).2,
    {
        let ghost old_m = self@;
        let ghost sp = step_spec(old_m, cancelled, answer);
        let i = self.pos;
        proof { self.lemma_view(); }
        assert(old_m.wf());
        assert(i < self.queue@.len());
        let mut outputs: Vec<RunOutput> = Vec::new();
        if answer {
            self.states.set(i, PackageState::Skipped);
            let m = text3("warn: skip ", self.queue[i].as_str(), " (already installed)");
            message(&mut outputs, m);
        } else {
            self.states.set(i, PackageState::Pending);
        }
        if i < self.queue.len() - 1 {
            self.pos = i + 1;
            let next = self.queue[i + 1].clone();
            assert(self@ =~= sp.0);
            assert(outputs_view(outputs@) =~= sp.1);
            RunStep { outputs, request: RunRequest::CheckInstalled(next) }
        } else {
            self.phase = RunPhase::Managers;
            self.mgr = 0;
            let p = build_progress(self.states.as_slice(), "Pre-check completed", None);
            progress(&mut outputs, p);
            assert(self@ =~= sp.0);
            assert(outputs_view(outputs@) =~= sp.1);
            RunStep { outputs, request: RunRequest::Proceed }
        }
    }

    fn collect_candidates(&self, mg: Manager) -> (r: Vec<usize>)
        requires
            self.wf(),
        ensures
            ints(r@) == candidates_for(self@, mg),
            r@.len() <= self.queue@.len(),
    {
        let mut r: Vec<usize> = Vec::new();
        let mut i: usize = 0;
        while i < self.queue.len()
            invariant
                self.wf(),
                i <= self.queue@.len(),
                ints(r@) == candidates_upto(self@, mg, i as int),
                r@.len() <= i,
            decreases self.queue@.len() - i,
        {
            let pending = self.states[i] == PackageState::Pending;
            let ok = if pending {
                match mg {
                    Manager::Pacman => contains_string(&self.official, &self.queue[i]),
                    _ => true,
                }
            } else {
                false
            };
            if ok {
                r.push(i);
            }
            assert(ints(r@) =~= candidates_upto(self@, mg, i + 1));
            i = i + 1;
        }
        r
    }

    fn managers_step(&mut self, cancelled: bool, answer: bool) -> (r: RunStep)
        requires
            old(self).wf(),
            old(self)@.phase == RunPhase::Managers,
        ensures
            final(self).wf(),
            final(self)@ == step_spec(old(self)@, cancelled, answer).0,
            outputs_view(r.outputs@) == step_spec(old(self)@, cancelled, answer).1,
            request_view(r.request) == step_spec(old(self)@, cancelled, answer).2,
    {
        let ghost old_m = self@;
        let ghost sp = step_spec(old_m, cancelled, answer);
        if self.mgr >= 3 {
            return self.finish(cancelled);
        }
        if cancelled {
            let r = self.finish(cancelled);
            let mut outputs: Vec<RunOutput> = Vec::new();
            message(&mut outputs, owned("warn: abort requested; stopping further managers"));
            let RunStep { outputs: mut rest, request } = r;
            let ghost o1 = outputs@;
            let ghost o2 = rest@;
            outputs.append(&mut rest);
            assert(outputs_view(outputs@) =~= outputs_view(o1) + outputs_view(o2));
            return RunStep { outputs, request };
        }
        let mg = self.priority[self.mgr];
        let mut outputs: Vec<RunOutput> = Vec::new();
        if !self.availability.available(mg) {
            message(&mut outputs, text3("warn: manager ", mg.bin(), " unavailable, skipping"));
            self.mgr = self.mgr + 1;
            assert(self@ =~= sp.0);
            assert(outputs_view(outputs@) =~= sp.1);
            return RunStep { outputs, request: RunRequest::Proceed };
        }
        let c = self.collect_candidates(mg);
        proof {
            lemma_candidates_range(self@, mg, self@.queue.len() as int);
            self.lemma_view();
        }
        if c.len() == 0 {
            message(&mut outputs, text3("info: manager ", mg.bin(), " has no candidates"));
            self.mgr = self.mgr + 1;
            assert(self@ =~= sp.0);
            assert(outputs_view(outputs@) =~= sp.1);
            return RunStep { outputs, request: RunRequest::Proceed };
        }
        let n = usize_text(c.len());
        message(&mut outputs, text5("info: stage ", mg.bin(), " candidates=", n.as_str(), " (batched)"));
        self.candidates = c;
        self.chunk_start = 0;
        self.phase = RunPhase::Chunk;
        assert(self@ =~= sp.0);
        assert(outputs_view(outputs@) =~= sp.1);
        RunStep { outputs, request: RunRequest::Proceed }
    }
}


impl InstallRun {
    fn cand_names_of(&self, lo: usize, hi: usize) -> (r: Vec<String>)
        requires
            self.wf(),
            lo <= hi <= self.candidates@.len(),
        ensures
            strings_view(r@) == cand_names(self@, lo as int, hi as int),
    {
        let mut r: Vec<String> = Vec::new();
        let mut k: usize = lo;
        while k < hi
            invariant
                self.wf(),
                lo <= k <= hi <= self.candidates@.len(),
                strings_view(r@) == cand_names(self@, lo as int, k as int),
            decreases hi - k,
        {
            proof { self.lemma_view(); }
            let q = self.candidates[k];
            assert(self@.candidates[k as int] == q as int);
            r.push(self.queue[q].clone());
            assert(self@.queue[q as int] == self.queue@[q as int]@);
            assert(cand_names(self@, lo as int, k + 1) =~= cand_names(self@, lo as int, k as int).push(self@.queue[q as int]));
            assert(strings_view(r@) =~= cand_names(self@, lo as int, k + 1));
            k = k + 1;
        }
        r
    }

    fn chunk_step(&mut self, cancelled: bool, answer: bool) -> (r: RunStep)
        requires
            old(self).wf(),
            old(self)@.phase == RunPhase::Chunk,
        ensures
            final(self).wf(),
            final(self)@ == step_spec(old(self)@, cancelled, answer).0,
            outputs_view(r.outputs@) == step_spec(old(self)@, cancelled, answer).1,
            request_view(r.request) == step_spec(old(self)@, cancelled, answer).2,
    {
        let ghost old_m = self@;
        let ghost sp = step_spec(old_m, cancelled, answer);
        proof { self.lemma_view(); }
        let mut outputs: Vec<RunOutput> = Vec::new();
        if self.chunk_start >= self.candidates.len() || cancelled {
            self.phase = RunPhase::Managers;
            self.mgr = self.mgr + 1;
            assert(self@ =~= sp.0);
            assert(outputs_view(outputs@) =~= sp.1);
            return RunStep { outputs, request: RunRequest::Proceed };
        }
        let start = self.chunk_start;
        let end = if self.candidates.len() - start > CHUNK_SIZE { start + CHUNK_SIZE } else { self.candidates.len() };
        assert(end as int == chunk_end(old_m));
        let mg = self.priority[self.mgr];
        let first = self.queue[self.candidates[start]].clone();
        let p1 = build_progress(self.states.as_slice(), text2("Installing via ", mg.bin()).as_str(), Some(first));
        progress(&mut outputs, p1);
        let ghost o1 = outputs_view(outputs@);
        if self.dry_run {
            let mut k: usize = start;
            while k < end
                invariant
                    old_m.wf(),
                    start <= k <= end,
                    end as int == chunk_end(old_m),
                    start as int == old_m.chunk_start,
                    old_m.chunk_start < old_m.candidates.len(),
                    mg == current(old_m),
                    self@ == (RunModel { states: self@.states, ..old_m }),
                    self@.states == dry_mark(old_m, start as int, k as int).0,
                    outputs_view(outputs@) == o1 + dry_mark(old_m, start as int, k as int).1,
                    self@.states.len() == old_m.states.len(),
                decreases end - k,
            {
                proof { self.lemma_view(); }
                let q = self.candidates[k];
                assert(old_m.candidates[k as int] == q as int);
                if self.states[q] == PackageState::Pending {
                    self.states.set(q, PackageState::Installed);
                    let msg = text4("ok: dry-run ", mg.bin(), " ", self.queue[q].as_str());
                    message(&mut outputs, msg);
                }
                assert(self@ =~= (RunModel { states: self@.states, ..old_m }));
                assert(outputs_view(outputs@) =~= o1 + dry_mark(old_m, start as int, k + 1).1);
                k = k + 1;
            }
            let last = self.queue[self.candidates[end - 1]].clone();
            let p2 = build_progress(self.states.as_slice(), text2("Dry-run via ", mg.bin()).as_str(), Some(last));
            progress(&mut outputs, p2);
            self.chunk_start = end;
            assert(self@ =~= sp.0);
            assert(outputs_view(outputs@) =~= sp.1);
            RunStep { outputs, request: RunRequest::Proceed }
        } else {
            let names = self.cand_names_of(start, end);
            let cmd = install_batch_command(mg, names.as_slice());
            let mut stack: Vec<(usize, usize)> = Vec::new();
            stack.push((start, end));
            self.stack = stack;
            self.failures = Vec::new();
            self.phase = RunPhase::Batch;
            assert(ranges(self.stack@) =~= seq![(start as int, end as int)]);
            assert(ints(self.failures@) =~= Seq::<int>::empty());
            assert(self@ =~= sp.0);
            assert(outputs_view(outputs@) =~= sp.1);
            RunStep { outputs, request: RunRequest::RunBatch(cmd) }
        }
    }
}


fn contains_index(v: &Vec<usize>, x: usize) -> (r: bool)
    ensures
        r == ints(v@).contains(x as int),
{
    let mut i: usize = 0;
    while i < v.len()
        invariant
            i <= v@.len(),
            forall|k: int| 0 <= k < i ==> v@[k] != x,
        decreases v@.len() - i,
    {
        if v[i] == x {
            assert(ints(v@)[i as int] == x as int);
            return true;
        }
        i = i + 1;
    }
    proof {
        if ints(v@).contains(x as int) {
            let k = choose|k: int| 0 <= k < ints(v@).len() && ints(v@)[k] == x as int;
            assert(v@[k] == x);
        }
    }
    false
}

impl InstallRun {
    #[verifier::spinoff_prover]
    #[verifier::rlimit(40)]
    fn batch_step(&mut self, cancelled: bool, answer: bool) -> (r: RunStep)
        requires
            old(self).wf(),
            old(self)@.phase == RunPhase::Batch,
        ensures
            final(self).wf(),
            final(self)@ == step_spec(old(self)@, cancelled, answer).0,
            outputs_view(r.outputs@) == step_spec(old(self)@, cancelled, answer).1,
            request_view(r.request) == step_spec(old(self)@, cancelled, answer).2,
    {
        let ghost old_m = self@;
        let ghost sp = step_spec(old_m, cancelled, answer);
        proof { self.lemma_view(); }
        let mg = self.priority[self.mgr];
        let top = self.stack.pop();
        let (lo, hi) = match top {
            Some(t) => t,
            None => (0, 0),
        };
        assert(ranges(self.stack@) =~= old_m.stack.drop_last());
        assert(old_m.stack.last() == (lo as int, hi as int));
        let mut outputs: Vec<RunOutput> = Vec::new();
        if answer {
            let n = usize_text(hi - lo);
            message(&mut outputs, text4("ok: batch ok ", mg.bin(), " count=", n.as_str()));
        } else if hi - lo == 1 {
            let q = self.candidates[lo];
            self.failures.push(q);
            assert(ints(self.failures@) =~= old_m.failures.push(old_m.candidates[lo as int]));
            message(&mut outputs, text4("error: batch failed ", mg.bin(), " package=", self.queue[q].as_str()));
        } else {
            let mid = lo + (hi - lo) / 2;
            self.stack.push((mid, hi));
            self.stack.push((lo, mid));
            assert(ranges(self.stack@) =~= old_m.stack.drop_last().push((mid as int, hi as int)).push((lo as int, mid as int)));
        }
        if self.stack.len() == 0 {
            self.phase = RunPhase::Verify;
            self.pos = self.chunk_start;
            let name = self.queue[self.candidates[self.chunk_start]].clone();
            assert(self@ =~= sp.0);
            assert(outputs_view(outputs@) =~= sp.1);
            RunStep { outputs, request: RunRequest::CheckInstalled(name) }
        } else {
            let (l2, h2) = self.stack[self.stack.len() - 1];
            assert(self@.stack.last() == (l2 as int, h2 as int));
            let names = self.cand_names_of(l2, h2);
            let cmd = install_batch_command(mg, names.as_slice());
            assert(self@ =~= sp.0);
            assert(outputs_view(outputs@) =~= sp.1);
            RunStep { outputs, request: RunRequest::RunBatch(cmd) }
        }
    }

    fn verify_step(&mut self, cancelled: bool, answer: bool) -> (r: RunStep)
        requires
            old(self).wf(),
            old(self)@.phase == RunPhase::Verify,
        ensures
            final(self).wf(),
            final(self)@ == step_spec(old(self)@, cancelled, answer).0,
            outputs_view(r.outputs@) == step_spec(old(self)@, cancelled, answer).1,
            request_view(r.request) == step_spec(old(self)@, cancelled, answer).2,
    {
        let ghost old_m = self@;
        let ghost sp = step_spec(old_m, cancelled, answer);
        proof { self.lemma_view(); }
        let mg = self.priority[self.mgr];
        let k = self.pos;
        let q = self.candidates[k];
        assert(old_m.candidates[k as int] == q as int);
        let start = self.chunk_start;
        let end = if self.candidates.len() - start > CHUNK_SIZE { start + CHUNK_SIZE } else { self.candidates.len() };
        assert(end as int == chunk_end(old_m));
        let was_pending = self.states[q] == PackageState::Pending;
        let mut outputs: Vec<RunOutput> = Vec::new();
        if answer {
            self.states.set(q, PackageState::Installed);
        } else if was_pending && contains_index(&self.failures, q) {
            message(&mut outputs, text4("error: unresolved after ", mg.bin(), ": ", self.queue[q].as_str()));
        }
        if k + 1 < end {
            self.pos = k + 1;
            let name = self.queue[self.candidates[k + 1]].clone();
            assert(self@ =~= sp.0);
            assert(outputs_view(outputs@) =~= sp.1);
            RunStep { outputs, request: RunRequest::CheckInstalled(name) }
        } else {
            let last = self.queue[self.candidates[end - 1]].clone();
            let p = build_progress(self.states.as_slice(), text2("Installed via ", mg.bin()).as_str(), Some(last));
            progress(&mut outputs, p);
            self.phase = RunPhase::Chunk;
            self.chunk_start = end;
            assert(self@ =~= sp.0);
            assert(outputs_view(outputs@) =~= sp.1);
            RunStep { outputs, request: RunRequest::Proceed }
        }
    }

    /// One step of the run, see `step_spec`: `cancelled` is the abort flag
    /// as it stands now, `answer` the answer to the previous request.
    pub fn step(&mut self, cancelled: bool, answer: bool) -> (r: RunStep)
        requires
            old(self).wf(),
        ensures
            final(self).wf(),
            final(self)@ == step_spec(old(self)@, cancelled, answer).0,
            outputs_view(r.outputs@) == step_spec(old(self)@, cancelled, answer).1,
            request_view(r.request) == step_spec(old(self)@, cancelled, answer).2,
    {
        match self.phase {
            RunPhase::Precheck => self.precheck_step(cancelled, answer),
            RunPhase::Managers => self.managers_step(cancelled, answer),
            RunPhase::Chunk => self.chunk_step(cancelled, answer),
            RunPhase::Batch => self.batch_step(cancelled, answer),
            RunPhase::Verify => self.verify_step(cancelled, answer),
            RunPhase::Done => {
                let installed = crate::installer::count_of(self.states.as_slice(), PackageState::Installed);
                let skipped = crate::installer::count_of(self.states.as_slice(), PackageState::Skipped);
                let failed = crate::installer::count_of(self.states.as_slice(), PackageState::Failed);
                let unresolved = failed_names_of(&self.queue, &self.states);
                let outcome = InstallOutcome { installed, skipped, failed, unresolved, aborted: self.aborted };
                let outputs: Vec<RunOutput> = Vec::new();
                assert(outputs_view(outputs@) =~= Seq::<OutputModel>::empty());
                assert(outcome_view(outcome) =~= outcome_of(self@));
                RunStep { outputs, request: RunRequest::Finished(outcome) }
            },
        }
    }

    /// Whether the run is over.
    pub fn is_done(&self) -> (r: bool)
        ensures
            r == (self@.phase == RunPhase::Done),
    {
        self.phase == RunPhase::Done
    }
}

} // verus!
