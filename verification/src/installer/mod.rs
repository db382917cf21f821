//! The installer: request, package states, progress counters and the
//! fallback state machine that walks the manager priority list.

pub mod run;
pub mod laws;

use vstd::prelude::*;
use std::path::PathBuf;
use std::time::Duration;
use crate::model::{
    InstallProgress, InstallSummary, Manager, ManagerAvailability, manager_bin,
};
use crate::text::{decimal, usize_text, strings_view, pkg_chars_of, keep_pkg_chars};
use crate::backend::{BackendId, CommandSpec, install_args, wrapped, spec_is, owned};

verus! {

/// Packages per batch handed to one manager invocation.
pub const CHUNK_SIZE: usize = 120;

/// What the UI hands to the installer.
#[derive(Clone, Debug)]
pub struct InstallRequest {
    pub packages: Vec<String>,
    pub priority: [Manager; 3],
    pub availability: ManagerAvailability,
    pub official_set: Vec<String>,
    pub dry_run: bool,
}

/// What the installer reports back to the UI.
#[derive(Debug)]
pub enum InstallEvent {
    Log(String),
    Progress(InstallProgress),
    Finished(InstallSummary),
}

/// Where a queued package stands in a run.
#[derive(Clone, Copy, Debug, PartialEq, Eq, Structural)]
pub enum PackageState {
    Pending,
    Installed,
    Skipped,
    Failed,
}

/// Number of entries of `s` equal to `st`.
pub open spec fn count_state(s: Seq<PackageState>, st: PackageState) -> nat
    decreases s.len(),
{
    if s.len() == 0 {
        0
    } else {
        count_state(s.drop_last(), st) + if s.last() == st { 1nat } else { 0nat }
    }
}

pub proof fn lemma_count_bound(s: Seq<PackageState>, st: PackageState)
    ensures
        count_state(s, st) <= s.len(),
    decreases s.len(),
{
    if s.len() > 0 {
        lemma_count_bound(s.drop_last(), st);
    }
}

/// The four counts add up to the number of packages.
pub proof fn lemma_counts_partition(s: Seq<PackageState>)
    ensures
        count_state(s, PackageState::Pending) + count_state(s, PackageState::Installed)
            + count_state(s, PackageState::Skipped) + count_state(s, PackageState::Failed)
            == s.len(),
    decreases s.len(),
{
    if s.len() > 0 {
        lemma_count_bound(s.drop_last(), PackageState::Pending);
        lemma_counts_partition(s.drop_last());
    }
}

/// Progress counters as plain values.
#[verifier::ext_equal]
pub struct ProgressModel {
    pub total: nat,
    pub done: nat,
    pub installed: nat,
    pub skipped: nat,
    pub failed: nat,
    pub stage: Seq<char>,
    pub current: Option<Seq<char>>,
}

pub open spec fn opt_view(o: Option<String>) -> Option<Seq<char>> {
    match o {
        Some(s) => Some(s@),
        None => None,
    }
}

pub open spec fn progress_view(p: InstallProgress) -> ProgressModel {
    ProgressModel {
        total: p.total as nat,
        done: p.done as nat,
        installed: p.installed as nat,
        skipped: p.skipped as nat,
        failed: p.failed as nat,
        stage: p.stage@,
        current: opt_view(p.current_package),
    }
}

/// The counters for a set of package states.
pub open spec fn progress_of(s: Seq<PackageState>, stage: Seq<char>, current: Option<Seq<char>>) -> ProgressModel {
    ProgressModel {
        total: s.len(),
        done: (s.len() - count_state(s, PackageState::Pending)) as nat,
        installed: count_state(s, PackageState::Installed),
        skipped: count_state(s, PackageState::Skipped),
        failed: count_state(s, PackageState::Failed),
        stage,
        current,
    }
}

fn count_of(states: &[PackageState], st: PackageState) -> (r: usize)
    ensures
        r == count_state(states@, st),
{
    let mut n: usize = 0;
    let mut i: usize = 0;
    while i < states.len()
        invariant
            i <= states@.len(),
            n == count_state(states@.take(i as int), st),
            n <= i,
        decreases states@.len() - i,
    {
        proof {
            assert(states@.take(i + 1).drop_last() == states@.take(i as int));
        }
        if states[i] == st {
            n = n + 1;
        }
        i = i + 1;
    }
    assert(states@.take(states@.len() as int) == states@);
    n
}

/// Counters of a run: total, settled packages and each final state.
pub fn build_progress(states: &[PackageState], stage: &str, current_package: Option<String>) -> (r: InstallProgress)
    ensures
        progress_view(r) == progress_of(states@, stage@, opt_view(current_package)),
{
    let pending = count_of(states, PackageState::Pending);
    proof {
        lemma_count_bound(states@, PackageState::Pending);
    }
    InstallProgress {
        total: states.len(),
        done: states.len() - pending,
        installed: count_of(states, PackageState::Installed),
        skipped: count_of(states, PackageState::Skipped),
        failed: count_of(states, PackageState::Failed),
        stage: owned(stage),
        current_package,
    }
}

/// The queue an install run works on: every entry reduced to its
/// package-name characters, empty entries dropped, and only the first
/// occurrence of each name kept.
pub open spec fn normalized(input: Seq<Seq<char>>) -> Seq<Seq<char>>
    decreases input.len(),
{
    if input.len() == 0 {
        seq![]
    } else {
        let prev = normalized(input.drop_last());
        let c = pkg_chars_of(input.last());
        if c.len() == 0 || prev.contains(c) {
            prev
        } else {
            prev.push(c)
        }
    }
}

pub proof fn lemma_normalized_unique(input: Seq<Seq<char>>)
    ensures
        normalized(input).no_duplicates(),
        forall|i: int| 0 <= i < normalized(input).len() ==> #[trigger] normalized(input)[i].len() > 0,
    decreases input.len(),
{
    if input.len() > 0 {
        lemma_normalized_unique(input.drop_last());
    }
}

/// Whether `v` holds a string equal to `s`.
pub fn contains_string(v: &Vec<String>, s: &String) -> (r: bool)
    ensures
        r == strings_view(v@).contains(s@),
{
    let mut i: usize = 0;
    while i < v.len()
        invariant
            i <= v@.len(),
            forall|k: int| 0 <= k < i ==> v@[k]@ != s@,
        decreases v@.len() - i,
    {
        if v[i] == *s {
            assert(strings_view(v@)[i as int] == s@);
            return true;
        }
        i = i + 1;
    }
    proof {
        if strings_view(v@).contains(s@) {
            let k = choose|k: int| 0 <= k < strings_view(v@).len() && strings_view(v@)[k] == s@;
            assert(v@[k]@ == s@);
        }
    }
    false
}

/// Cleans and deduplicates the requested packages, see `normalized`.
pub fn normalize_package_list(input: Vec<String>) -> (out: Vec<String>)
    ensures
        strings_view(out@) == normalized(strings_view(input@)),
{
    let mut out: Vec<String> = Vec::new();
    let ghost iv = strings_view(input@);
    let mut i: usize = 0;
    while i < input.len()
        invariant
            i <= input@.len(),
            iv == strings_view(input@),
            strings_view(out@) == normalized(iv.take(i as int)),
        decreases input@.len() - i,
    {
        proof {
            assert(iv.take(i + 1).drop_last() == iv.take(i as int));
            assert(iv.take(i + 1).last() == input@[i as int]@);
        }
        let cleaned = keep_pkg_chars(input[i].as_str());
        if !cleaned.as_str().is_empty() {
            if !contains_string(&out, &cleaned) {
                out.push(cleaned);
                assert(strings_view(out@) =~= normalized(iv.take(i as int)).push(pkg_chars_of(input@[i as int]@)));
            }
        } else {
            proof {
                if pkg_chars_of(input@[i as int]@).len() > 0 {
                    assert(cleaned@.len() > 0);
                }
            }
        }
        i = i + 1;
    }
    assert(iv.take(input@.len() as int) == iv);
    out
}

/// The names of the packages still pending, in queue order.
pub open spec fn pending_names(queue: Seq<Seq<char>>, states: Seq<PackageState>) -> Seq<Seq<char>>
    decreases queue.len(),
{
    if queue.len() == 0 || states.len() != queue.len() {
        seq![]
    } else {
        pending_names(queue.drop_last(), states.drop_last()) + if states.last()
            == PackageState::Pending {
            seq![queue.last()]
        } else {
            Seq::<Seq<char>>::empty()
        }
    }
}

/// The queued packages that are still pending.
pub fn collect_pending(queue: &Vec<String>, states: &Vec<PackageState>) -> (r: Vec<String>)
    requires
        queue@.len() == states@.len(),
    ensures
        strings_view(r@) == pending_names(strings_view(queue@), states@),
{
    let mut r: Vec<String> = Vec::new();
    let ghost qv = strings_view(queue@);
    let mut i: usize = 0;
    while i < queue.len()
        invariant
            i <= queue@.len(),
            queue@.len() == states@.len(),
            qv == strings_view(queue@),
            strings_view(r@) == pending_names(qv.take(i as int), states@.take(i as int)),
        decreases queue@.len() - i,
    {
        proof {
            assert(qv.take(i + 1).drop_last() == qv.take(i as int));
            assert(states@.take(i + 1).drop_last() == states@.take(i as int));
        }
        if states[i] == PackageState::Pending {
            r.push(queue[i].clone());
        }
        assert(strings_view(r@) =~= pending_names(qv.take(i + 1), states@.take(i + 1)));
        i = i + 1;
    }
    assert(qv.take(queue@.len() as int) == qv);
    assert(states@.take(queue@.len() as int) == states@);
    r
}

pub open spec fn manager_backend(m: Manager) -> BackendId {
    match m {
        Manager::Pacman => BackendId::Pacman,
        Manager::Yay => BackendId::Yay,
        Manager::Paru => BackendId::Paru,
    }
}

/// The command that installs `pkgs` through `manager` in one batch: pacman
/// runs under sudo; yay and paru are told not to ask about reviews.
pub open spec fn batch_command(m: Manager, pkgs: Seq<Seq<char>>) -> (Seq<char>, Seq<Seq<char>>) {
    wrapped(manager_backend(m), install_args(manager_backend(m), pkgs))
}

/// The command line `run_install_batch` executes for one batch.
pub fn install_batch_command(manager: Manager, pkgs: &[String]) -> (r: CommandSpec)
    ensures
        spec_is(r, batch_command(manager, strings_view(pkgs@))),
{
    let b = crate::backend::GenericBackend::new(
        match manager {
            Manager::Pacman => BackendId::Pacman,
            Manager::Yay => BackendId::Yay,
            Manager::Paru => BackendId::Paru,
        },
        true,
    );
    crate::backend::PackageBackend::install_spec(&b, pkgs)
}

pub open spec fn debug_name(m: Manager) -> Seq<char> {
    match m {
        Manager::Pacman => "Pacman"@,
        Manager::Yay => "Yay"@,
        Manager::Paru => "Paru"@,
    }
}

fn debug_name_of(m: Manager) -> (r: &'static str)
    ensures
        r@ == debug_name(m),
{
    match m {
        Manager::Pacman => "Pacman",
        Manager::Yay => "Yay",
        Manager::Paru => "Paru",
    }
}

pub open spec fn bool_text(b: bool) -> Seq<char> {
    if b { "true"@ } else { "false"@ }
}

/// The first line of a run's log.
pub open spec fn start_message_spec(n: nat, p: Seq<Manager>, dry_run: bool) -> Seq<char> {
    "info: start install packages="@ + decimal(n) + " priority=["@ + debug_name(p[0]) + ", "@
        + debug_name(p[1]) + ", "@ + debug_name(p[2]) + "] dry_run="@ + bool_text(dry_run)
}

/// `info: start install packages=3 priority=[Pacman, Yay, Paru] dry_run=false`
pub fn start_message(request: &InstallRequest) -> (r: String)
    ensures
        r@ == start_message_spec(
            request.packages@.len(),
            request.priority@,
            request.dry_run,
        ),
{
    let mut s = owned("info: start install packages=");
    let n = usize_text(request.packages.len());
    s.append(n.as_str());
    s.append(" priority=[");
    s.append(debug_name_of(request.priority[0]));
    s.append(", ");
    s.append(debug_name_of(request.priority[1]));
    s.append(", ");
    s.append(debug_name_of(request.priority[2]));
    s.append("] dry_run=");
    s.append(if request.dry_run { "true" } else { "false" });
    s
}

/// The summary of a run that stopped before installing anything: one
/// failure, whose text is the error.
pub fn fatal_summary(error: String, log_path: PathBuf) -> (r: InstallSummary)
    ensures
        r.installed == 0,
        r.skipped == 0,
        r.failed == 1,
        r.unresolved@.len() == 1,
        r.unresolved@[0]@ == error@,
        r.log_path == log_path,
        !r.aborted,
{
    let mut unresolved = Vec::new();
    unresolved.push(error);
    InstallSummary {
        installed: 0,
        skipped: 0,
        failed: 1,
        unresolved,
        elapsed: Duration::from_secs(0),
        log_path,
        aborted: false,
    }
}

/// The log line for a run that stopped before installing anything.
pub fn fatal_message(error: &str) -> (r: String)
    ensures
        r@ == "error: fatal installer failure: "@ + error@,
{
    let mut s = owned("error: fatal installer failure: ");
    s.append(error);
    s
}

/// Whether the system is Arch Linux: `/etc/arch-release` exists.
pub fn check_arch_release(exists: bool) -> (r: Result<(), String>)
    ensures
        exists ==> r is Ok,
        !exists ==> (r matches Err(e) && e@ == "this installer is for Arch Linux only"@),
{
    if exists {
        Ok(())
    } else {
        Err("this installer is for Arch Linux only".to_owned())
    }
}

/// Whether the installer runs as an ordinary user: the output of `id -u`,
/// trimmed, is not `0`.
pub fn check_uid(id_output: &str) -> (r: Result<(), String>)
    ensures
        crate::fields::trim(id_output@) != "0"@ ==> r is Ok,
        crate::fields::trim(id_output@) == "0"@ ==> (r matches Err(e) && e@ == "run as non-root user"@),
{
    let chars = crate::text::chars_of(id_output);
    let t = crate::fields::trim_chars(&chars);
    let zero = crate::text::chars_of("0");
    if crate::detail::same_chars(&t, &zero) {
        Err("run as non-root user".to_owned())
    } else {
        Ok(())
    }
}

/// Whether the mirrors can be reached: a ping of archlinux.org succeeded.
pub fn check_network(ping_ok: bool) -> (r: Result<(), String>)
    ensures
        ping_ok ==> r is Ok,
        !ping_ok ==> (r matches Err(e) && e@ == "internet check failed (cannot ping archlinux.org)"@),
{
    if ping_ok {
        Ok(())
    } else {
        Err("internet check failed (cannot ping archlinux.org)".to_owned())
    }
}

/// The installer's preflight: the system is Arch Linux, the user is not
/// root and the mirrors can be reached, checked in that order; the error is
/// that of the first check that fails.
pub fn preflight_result(arch_release: bool, id_output: &str, ping_ok: bool) -> (r: Result<(), String>)
    ensures
        r is Ok <==> (arch_release && crate::fields::trim(id_output@) != "0"@ && ping_ok),
        !arch_release ==> (r matches Err(e) && e@ == "this installer is for Arch Linux only"@),
        arch_release && crate::fields::trim(id_output@) == "0"@ ==> (r matches Err(e) && e@ == "run as non-root user"@),
        arch_release && crate::fields::trim(id_output@) != "0"@ && !ping_ok
            ==> (r matches Err(e) && e@ == "internet check failed (cannot ping archlinux.org)"@),
{
    check_arch_release(arch_release)?;
    check_uid(id_output)?;
    check_network(ping_ok)
}

/// A log line: the time in brackets, a space, the message.
pub fn log_line(time: &str, message: &str) -> (r: String)
    ensures
        r@ == "["@ + time@ + "] "@ + message@,
{
    let mut s = owned("[");
    s.append(time);
    s.append("] ");
    s.append(message);
    s
}

/// The log file of a run started at `stamp` (seconds since the epoch):
/// `install-<stamp>.log` in the cache directory under `home`, or under `/tmp`
/// where `$HOME` is unset.
pub open spec fn log_path_spec(home: Option<Seq<char>>, stamp: nat) -> Seq<char> {
    let base = match home {
        Some(h) => h,
        None => "/tmp"@,
    };
    crate::config::path_join(
        crate::config::path_join(crate::config::path_join(base, ".cache"@), "arch-package-tui"@),
        "install-"@ + decimal(stamp) + ".log"@,
    )
}

/// The log file of a run started at `stamp`.
pub fn log_path_in(home: Option<String>, stamp: u64) -> (r: String)
    ensures
        r@ == log_path_spec(crate::config::text_opt(home), stamp as nat),
{
    let base = match home {
        Some(h) => h,
        None => owned("/tmp"),
    };
    let a = crate::config::join_path(base.as_str(), ".cache");
    let b = crate::config::join_path(a.as_str(), "arch-package-tui");
    let mut name = owned("install-");
    let digits = crate::text::u64_text(stamp);
    name.append(digits.as_str());
    name.append(".log");
    crate::config::join_path(b.as_str(), name.as_str())
}

/// The install manager a backend stands for, where it is one.
pub open spec fn manager_of(id: BackendId) -> Option<Manager> {
    match id {
        BackendId::Pacman => Some(Manager::Pacman),
        BackendId::Yay => Some(Manager::Yay),
        BackendId::Paru => Some(Manager::Paru),
        _ => None,
    }
}

pub open spec fn managers_of(ids: Seq<BackendId>) -> Seq<Manager>
    decreases ids.len(),
{
    if ids.len() == 0 {
        seq![]
    } else {
        managers_of(ids.drop_last()) + match manager_of(ids.last()) {
            Some(m) => seq![m],
            None => Seq::<Manager>::empty(),
        }
    }
}

/// The install managers of a backend priority, in its order.
pub fn managers_by_priority(priority: &[BackendId]) -> (r: Vec<Manager>)
    ensures
        r@ == managers_of(priority@),
{
    let mut out: Vec<Manager> = Vec::new();
    let mut i: usize = 0;
    assert(priority@.take(0) == Seq::<BackendId>::empty());
    while i < priority.len()
        invariant
            i <= priority@.len(),
            out@ == managers_of(priority@.take(i as int)),
        decreases priority.len() - i,
    {
        assert(priority@.take(i + 1).drop_last() == priority@.take(i as int));
        assert(priority@.take(i + 1).last() == priority@[i as int]);
        match priority[i] {
            BackendId::Pacman => out.push(Manager::Pacman),
            BackendId::Yay => out.push(Manager::Yay),
            BackendId::Paru => out.push(Manager::Paru),
            _ => {},
        }
        i = i + 1;
    }
    assert(priority@.take(priority@.len() as int) == priority@);
    out
}

} // verus!
