//! Package backends and the command lines they run.

use vstd::prelude::*;
use crate::text::{join_with, strings_view, join_strings};

verus! {

/// The package tools the backend layer knows.
#[derive(Clone, Copy, Debug, PartialEq, Eq, Structural, Hash)]
pub enum BackendId {
    Pacman,
    Yay,
    Paru,
    Aura,
    Trizen,
}

pub open spec fn backend_name(id: BackendId) -> Seq<char> {
    match id {
        BackendId::Pacman => "pacman"@,
        BackendId::Yay => "yay"@,
        BackendId::Paru => "paru"@,
        BackendId::Aura => "aura"@,
        BackendId::Trizen => "trizen"@,
    }
}

/// Every backend, in the default priority order.
pub open spec fn all_backends() -> Seq<BackendId> {
    seq![BackendId::Pacman, BackendId::Yay, BackendId::Paru, BackendId::Aura, BackendId::Trizen]
}

pub open spec fn backend_from_name(s: Seq<char>) -> Option<BackendId> {
    if s == "pacman"@ {
        Some(BackendId::Pacman)
    } else if s == "yay"@ {
        Some(BackendId::Yay)
    } else if s == "paru"@ {
        Some(BackendId::Paru)
    } else if s == "aura"@ {
        Some(BackendId::Aura)
    } else if s == "trizen"@ {
        Some(BackendId::Trizen)
    } else {
        None
    }
}

fn str_eq(a: &str, b: &str) -> (r: bool)
    ensures
        r == (a@ == b@),
{
    let x = crate::text::chars_of(a);
    let y = crate::text::chars_of(b);
    if x.len() != y.len() {
        return false;
    }
    let mut i: usize = 0;
    while i < x.len()
        invariant
            x@ == a@,
            y@ == b@,
            x.len() == y.len(),
            i <= x.len(),
            forall|k: int| 0 <= k < i ==> x@[k] == y@[k],
        decreases x.len() - i,
    {
        if x[i] != y[i] {
            return false;
        }
        i = i + 1;
    }
    assert(x@ =~= y@);
    true
}

impl BackendId {
    pub fn as_str(self) -> (r: &'static str)
        ensures
            r@ == backend_name(self),
    {
        match self {
            BackendId::Pacman => "pacman",
            BackendId::Yay => "yay",
            BackendId::Paru => "paru",
            BackendId::Aura => "aura",
            BackendId::Trizen => "trizen",
        }
    }

    pub fn is_pacman(self) -> (r: bool)
        ensures
            r == (self == BackendId::Pacman),
    {
        match self {
            BackendId::Pacman => true,
            _ => false,
        }
    }

    pub fn all() -> (r: [BackendId; 5])
        ensures
            r@ == all_backends(),
    {
        let r = [BackendId::Pacman, BackendId::Yay, BackendId::Paru, BackendId::Aura, BackendId::Trizen];
        assert(r@ =~= all_backends());
        r
    }

    /// The backend with exactly this name.
    pub fn from_name(s: &str) -> (r: Option<BackendId>)
        ensures
            r == backend_from_name(s@),
    {
        if str_eq(s, "pacman") {
            Some(BackendId::Pacman)
        } else if str_eq(s, "yay") {
            Some(BackendId::Yay)
        } else if str_eq(s, "paru") {
            Some(BackendId::Paru)
        } else if str_eq(s, "aura") {
            Some(BackendId::Aura)
        } else if str_eq(s, "trizen") {
            Some(BackendId::Trizen)
        } else {
            None
        }
    }
}

/// Whether a backend was found on the system.
#[derive(Clone, Copy, Debug)]
pub struct BackendState {
    pub id: BackendId,
    pub available: bool,
}

/// A program and its arguments.
#[derive(Clone, Debug)]
pub struct CommandSpec {
    pub program: String,
    pub args: Vec<String>,
}

impl CommandSpec {
    pub open spec fn args_view(&self) -> Seq<Seq<char>> {
        strings_view(self.args@)
    }

    /// The command as one line: the program, then the arguments, separated by spaces.
    pub fn commandline(&self) -> (r: String)
        ensures
            self.args@.len() == 0 ==> r@ == self.program@,
            self.args@.len() > 0 ==> r@ == self.program@ + " "@ + join_with(self.args_view(), " "@),
    {
        if self.args.len() == 0 {
            self.program.clone()
        } else {
            let mut r = self.program.clone();
            r.append(" ");
            let joined = join_strings(&self.args, " ");
            r.append(joined.as_str());
            r
        }
    }
}

pub fn owned(s: &str) -> (r: String)
    ensures
        r@ == s@,
{
    let mut r = String::new();
    r.append(s);
    r
}

/// Operations every package backend offers.
pub trait PackageBackend {
    fn id(&self) -> BackendId;

    fn available(&self) -> bool;

    fn install_spec(&self, packages: &[String]) -> CommandSpec;

    fn remove_spec(&self, packages: &[String]) -> CommandSpec;

    fn sync_spec(&self) -> CommandSpec;

    fn full_upgrade_spec(&self) -> CommandSpec;

    fn info_spec(&self, package: &str) -> CommandSpec;
}

/// A backend driven through the command line of its tool.
#[derive(Clone, Debug)]
pub struct GenericBackend {
    pub id: BackendId,
    pub available: bool,
}

/// Arguments of an install through `id`.
pub open spec fn install_args(id: BackendId, packages: Seq<Seq<char>>) -> Seq<Seq<char>> {
    let base = seq!["-S"@, "--noconfirm"@, "--needed"@];
    let paru = if id == BackendId::Paru { seq!["--skipreview"@] } else { Seq::<Seq<char>>::empty() };
    let helper = if id == BackendId::Yay || id == BackendId::Aura || id == BackendId::Trizen {
        seq!["--answerclean"@, "None"@, "--answerdiff"@, "None"@]
    } else {
        Seq::<Seq<char>>::empty()
    };
    base + paru + helper + packages
}

/// The program and arguments that run `args` through `id`: pacman goes through sudo.
pub open spec fn wrapped(id: BackendId, args: Seq<Seq<char>>) -> (Seq<char>, Seq<Seq<char>>) {
    if id == BackendId::Pacman {
        ("sudo"@, seq![backend_name(id)] + args)
    } else {
        (backend_name(id), args)
    }
}

pub open spec fn spec_is(c: CommandSpec, w: (Seq<char>, Seq<Seq<char>>)) -> bool {
    c.program@ == w.0 && strings_view(c.args@) == w.1
}

fn append_all(out: &mut Vec<String>, items: &[String])
    ensures
        strings_view(final(out)@) == strings_view(old(out)@) + strings_view(items@),
{
    let ghost start = out@;
    let mut i: usize = 0;
    while i < items.len()
        invariant
            i <= items@.len(),
            out@ == start + items@.take(i as int),
        decreases items@.len() - i,
    {
        out.push(items[i].clone());
        proof {
            assert(items@.take(i + 1) == items@.take(i as int).push(items@[i as int]));
        }
        i = i + 1;
    }
    assert(items@.take(items@.len() as int) == items@);
    assert(strings_view(out@) =~= strings_view(start) + strings_view(items@));
}

impl GenericBackend {
    pub fn new(id: BackendId, available: bool) -> (r: Self)
        ensures
            r.id == id,
            r.available == available,
    {
        GenericBackend { id, available }
    }

    pub fn base_bin(&self) -> (r: &'static str)
        ensures
            r@ == backend_name(self.id),
    {
        self.id.as_str()
    }

    pub fn use_sudo(&self) -> (r: bool)
        ensures
            r == (self.id == BackendId::Pacman),
    {
        self.id.is_pacman()
    }

    pub fn wrap_sudo(&self, args: Vec<String>) -> (r: CommandSpec)
        ensures
            spec_is(r, wrapped(self.id, strings_view(args@))),
    {
        if self.use_sudo() {
            let mut wrapped_args: Vec<String> = Vec::new();
            wrapped_args.push(owned(self.base_bin()));
            assert(strings_view(wrapped_args@) =~= seq![backend_name(self.id)]);
            append_all(&mut wrapped_args, args.as_slice());
            CommandSpec { program: owned("sudo"), args: wrapped_args }
        } else {
            CommandSpec { program: owned(self.base_bin()), args }
        }
    }
}

impl PackageBackend for GenericBackend {
    fn id(&self) -> (r: BackendId)
        ensures
            r == self.id,
    {
        self.id
    }

    fn available(&self) -> (r: bool)
        ensures
            r == self.available,
    {
        self.available
    }

    fn install_spec(&self, packages: &[String]) -> (r: CommandSpec)
        ensures
            spec_is(r, wrapped(self.id, install_args(self.id, strings_view(packages@)))),
    {
        let mut args: Vec<String> = Vec::new();
        args.push(owned("-S"));
        args.push(owned("--noconfirm"));
        args.push(owned("--needed"));
        if self.id == BackendId::Paru {
            args.push(owned("--skipreview"));
        }
        if self.id == BackendId::Yay || self.id == BackendId::Aura || self.id == BackendId::Trizen {
            args.push(owned("--answerclean"));
            args.push(owned("None"));
            args.push(owned("--answerdiff"));
            args.push(owned("None"));
        }
        append_all(&mut args, packages);
        proof {
            assert(strings_view(args@) =~= install_args(self.id, strings_view(packages@)));
        }
        self.wrap_sudo(args)
    }

    fn remove_spec(&self, packages: &[String]) -> (r: CommandSpec)
        ensures
            spec_is(
                r,
                wrapped(self.id, seq!["-Rns"@, "--noconfirm"@, "--needed"@] + strings_view(packages@)),
            ),
    {
        let mut args: Vec<String> = Vec::new();
        args.push(owned("-Rns"));
        args.push(owned("--noconfirm"));
        args.push(owned("--needed"));
        append_all(&mut args, packages);
        proof {
            assert(strings_view(args@) =~= seq!["-Rns"@, "--noconfirm"@, "--needed"@] + strings_view(packages@));
        }
        self.wrap_sudo(args)
    }

    fn sync_spec(&self) -> (r: CommandSpec)
        ensures
            spec_is(r, wrapped(self.id, seq!["-Sy"@])),
    {
        let mut args: Vec<String> = Vec::new();
        args.push(owned("-Sy"));
        assert(strings_view(args@) =~= seq!["-Sy"@]);
        self.wrap_sudo(args)
    }

    fn full_upgrade_spec(&self) -> (r: CommandSpec)
        ensures
            spec_is(r, wrapped(self.id, seq!["-Syu"@, "--noconfirm"@])),
    {
        let mut args: Vec<String> = Vec::new();
        args.push(owned("-Syu"));
        args.push(owned("--noconfirm"));
        assert(strings_view(args@) =~= seq!["-Syu"@, "--noconfirm"@]);
        self.wrap_sudo(args)
    }

    fn info_spec(&self, package: &str) -> (r: CommandSpec)
        ensures
            spec_is(r, (backend_name(self.id), seq!["-Si"@, package@])),
    {
        let mut args: Vec<String> = Vec::new();
        args.push(owned("-Si"));
        args.push(owned(package));
        assert(strings_view(args@) =~= seq!["-Si"@, package@]);
        CommandSpec { program: owned(self.base_bin()), args }
    }
}

/// One backend per tool, in `all_backends()` order, with the availability
/// that was probed for it.
pub fn create_backends(available: [bool; 5]) -> (r: (Vec<GenericBackend>, Vec<BackendState>))
    ensures
        r.0@.len() == 5,
        r.1@.len() == 5,
        forall|i: int|
            0 <= i < 5 ==> #[trigger] r.0@[i].id == all_backends()[i] && r.0@[i].available
                == available@[i] && r.1@[i].id == all_backends()[i] && r.1@[i].available
                == available@[i],
{
    let ids = BackendId::all();
    let mut map: Vec<GenericBackend> = Vec::new();
    let mut states: Vec<BackendState> = Vec::new();
    let mut i: usize = 0;
    while i < 5
        invariant
            i <= 5,
            ids@ == all_backends(),
            map@.len() == i,
            states@.len() == i,
            forall|k: int|
                0 <= k < i ==> #[trigger] map@[k].id == all_backends()[k] && map@[k].available
                    == available@[k] && states@[k].id == all_backends()[k]
                    && states@[k].available == available@[k],
        decreases 5 - i,
    {
        let backend = GenericBackend::new(ids[i], available[i]);
        states.push(BackendState { id: ids[i], available: backend.available() });
        map.push(backend);
        i = i + 1;
    }
    (map, states)
}

} // verus!
