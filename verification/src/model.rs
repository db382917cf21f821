//! Package managers, package records and install progress.

use vstd::prelude::*;
use std::path::PathBuf;
use std::time::Duration;

verus! {

/// `std::path::PathBuf`, carried through opaquely (the log file of a run).
#[verifier::external_type_specification]
#[verifier::external_body]
pub struct ExPathBuf(PathBuf);

/// `Duration::from_secs`; a `Duration` is opaque here, so nothing is claimed of it.
pub assume_specification[ Duration::from_secs ](secs: u64) -> Duration;

/// The three package managers an install run can go through.
#[derive(Clone, Copy, Debug, PartialEq, Eq, Structural, Hash)]
pub enum Manager {
    Pacman,
    Yay,
    Paru,
}

pub open spec fn manager_bin(m: Manager) -> Seq<char> {
    match m {
        Manager::Pacman => "pacman"@,
        Manager::Yay => "yay"@,
        Manager::Paru => "paru"@,
    }
}

pub open spec fn manager_badge(m: Manager) -> Seq<char> {
    match m {
        Manager::Pacman => "PACMAN"@,
        Manager::Yay => "YAY"@,
        Manager::Paru => "PARU"@,
    }
}

impl Manager {
    /// The executable of the manager.
    pub fn bin(self) -> (r: &'static str)
        ensures
            r@ == manager_bin(self),
    {
        match self {
            Manager::Pacman => "pacman",
            Manager::Yay => "yay",
            Manager::Paru => "paru",
        }
    }

    /// The upper-case badge shown next to a queued package.
    pub fn badge(self) -> (r: &'static str)
        ensures
            r@ == manager_badge(self),
    {
        match self {
            Manager::Pacman => "PACMAN",
            Manager::Yay => "YAY",
            Manager::Paru => "PARU",
        }
    }
}

/// Which managers were found on the system.
#[derive(Clone, Copy, Debug)]
pub struct ManagerAvailability {
    pub pacman: bool,
    pub yay: bool,
    pub paru: bool,
}

impl Default for ManagerAvailability {
    fn default() -> (r: Self)
        ensures
            !r.pacman && !r.yay && !r.paru,
    {
        ManagerAvailability { pacman: false, yay: false, paru: false }
    }
}

pub open spec fn yes_no_spec(b: bool) -> Seq<char> {
    if b { "yes"@ } else { "no"@ }
}

pub fn yes_no(value: bool) -> (r: &'static str)
    ensures
        r@ == yes_no_spec(value),
{
    if value { "yes" } else { "no" }
}

impl ManagerAvailability {
    pub open spec fn has(&self, m: Manager) -> bool {
        match m {
            Manager::Pacman => self.pacman,
            Manager::Yay => self.yay,
            Manager::Paru => self.paru,
        }
    }

    /// The AUR helper used for AUR packages: yay first, then paru.
    pub open spec fn aur_helper_spec(&self) -> Option<Manager> {
        if self.yay {
            Some(Manager::Yay)
        } else if self.paru {
            Some(Manager::Paru)
        } else {
            None
        }
    }

    pub open spec fn line_spec(&self) -> Seq<char> {
        "pacman="@ + yes_no_spec(self.pacman) + " yay="@ + yes_no_spec(self.yay) + " paru="@
            + yes_no_spec(self.paru)
    }

    pub fn available(&self, manager: Manager) -> (r: bool)
        ensures
            r == self.has(manager),
    {
        match manager {
            Manager::Pacman => self.pacman,
            Manager::Yay => self.yay,
            Manager::Paru => self.paru,
        }
    }

    /// `pacman=yes yay=no paru=no`
    pub fn line(&self) -> (r: String)
        ensures
            r@ == self.line_spec(),
    {
        let mut s = String::new();
        s.append("pacman=");
        s.append(yes_no(self.pacman));
        s.append(" yay=");
        s.append(yes_no(self.yay));
        s.append(" paru=");
        s.append(yes_no(self.paru));
        s
    }

    pub fn aur_helper(&self) -> (r: Option<Manager>)
        ensures
            r == self.aur_helper_spec(),
    {
        if self.yay {
            Some(Manager::Yay)
        } else if self.paru {
            Some(Manager::Paru)
        } else {
            None
        }
    }
}

/// Number of manager orders the user can cycle through.
pub const PRIORITY_PRESET_COUNT: usize = 4;

pub open spec fn preset_spec(idx: int) -> Seq<Manager> {
    if idx == 0 {
        seq![Manager::Pacman, Manager::Yay, Manager::Paru]
    } else if idx == 1 {
        seq![Manager::Pacman, Manager::Paru, Manager::Yay]
    } else if idx == 2 {
        seq![Manager::Yay, Manager::Paru, Manager::Pacman]
    } else {
        seq![Manager::Paru, Manager::Yay, Manager::Pacman]
    }
}

/// The manager order of preset `idx`.
pub fn priority_preset(idx: usize) -> (r: [Manager; 3])
    requires
        idx < PRIORITY_PRESET_COUNT,
    ensures
        r@ == preset_spec(idx as int),
{
    let r = if idx == 0 {
        [Manager::Pacman, Manager::Yay, Manager::Paru]
    } else if idx == 1 {
        [Manager::Pacman, Manager::Paru, Manager::Yay]
    } else if idx == 2 {
        [Manager::Yay, Manager::Paru, Manager::Pacman]
    } else {
        [Manager::Paru, Manager::Yay, Manager::Pacman]
    };
    assert(r@ =~= preset_spec(idx as int));
    r
}

pub open spec fn priority_text_spec(p: Seq<Manager>) -> Seq<char> {
    manager_bin(p[0]) + " -> "@ + manager_bin(p[1]) + " -> "@ + manager_bin(p[2])
}

/// `pacman -> yay -> paru`
pub fn priority_to_text(priority: &[Manager; 3]) -> (r: String)
    ensures
        r@ == priority_text_spec(priority@),
{
    let mut s = String::new();
    s.append(priority[0].bin());
    s.append(" -> ");
    s.append(priority[1].bin());
    s.append(" -> ");
    s.append(priority[2].bin());
    s
}

/// Where a package can be installed from.
#[derive(Clone, Copy, Debug, PartialEq, Eq, Structural)]
pub enum RepoHint {
    Official,
    Aur,
    Both,
}

pub open spec fn repo_label(r: RepoHint) -> Seq<char> {
    match r {
        RepoHint::Official => "official"@,
        RepoHint::Aur => "aur"@,
        RepoHint::Both => "official+aur"@,
    }
}

impl RepoHint {
    pub fn label(self) -> (r: &'static str)
        ensures
            r@ == repo_label(self),
    {
        match self {
            RepoHint::Official => "official",
            RepoHint::Aur => "aur",
            RepoHint::Both => "official+aur",
        }
    }
}

/// A searchable package: its name, the lower-cased name used for matching,
/// and where it comes from.
#[derive(Clone, Debug)]
pub struct PackageRecord {
    pub lower: String,
    pub name: String,
    pub repo: RepoHint,
}

/// Counters of an install run as shown while it runs.
#[derive(Clone, Debug)]
pub struct InstallProgress {
    pub total: usize,
    pub done: usize,
    pub installed: usize,
    pub skipped: usize,
    pub failed: usize,
    pub stage: String,
    pub current_package: Option<String>,
}

impl Default for InstallProgress {
    fn default() -> (r: Self)
        ensures
            r.total == 0 && r.done == 0 && r.installed == 0 && r.skipped == 0 && r.failed == 0,
            r.stage@ == Seq::<char>::empty(),
            r.current_package is None,
    {
        InstallProgress {
            total: 0,
            done: 0,
            installed: 0,
            skipped: 0,
            failed: 0,
            stage: String::new(),
            current_package: None,
        }
    }
}

/// The result of a finished install run.
#[derive(Debug)]
pub struct InstallSummary {
    pub installed: usize,
    pub skipped: usize,
    pub failed: usize,
    pub unresolved: Vec<String>,
    pub elapsed: Duration,
    pub log_path: PathBuf,
    pub aborted: bool,
}

/// Severity of a log line.
#[derive(Clone, Copy, Debug, PartialEq, Eq, Structural)]
pub enum LogLevel {
    Info,
    Success,
    Warn,
    Error,
}

} // verus!
