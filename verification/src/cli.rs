//! The command line: its flags, and the queue a run without the terminal
//! interface works through.

use vstd::prelude::*;
use crate::text::{strings_view, text_eq};
use crate::backend::BackendId;

verus! {

/// What the command line asks for.
#[derive(Clone, Debug)]
pub struct Cli {
    pub no_tui: bool,
    pub install: Vec<String>,
    pub remove: Vec<String>,
    pub load_set: Option<String>,
}

/// What the next argument means.
#[derive(Clone, Copy, Debug, PartialEq, Eq, Structural)]
pub enum ArgMode {
    /// A flag, or an argument to skip.
    Scan,
    /// A package to install, unless it starts with `-`.
    Install,
    /// A package to remove, unless it starts with `-`.
    Remove,
    /// The name of a saved set, whatever it looks like.
    LoadName,
}

/// The command line read so far.
pub struct CliModel {
    pub no_tui: bool,
    pub install: Seq<Seq<char>>,
    pub remove: Seq<Seq<char>>,
    pub load_set: Option<Seq<char>>,
    pub mode: ArgMode,
}

pub open spec fn starts_dash(a: Seq<char>) -> bool {
    a.len() > 0 && a[0] == '-'
}

/// An argument read as a flag: `--no-tui` sets the switch; `--install`,
/// `--remove` and `--load` announce what follows; anything else is skipped.
pub open spec fn read_flag(m: CliModel, a: Seq<char>) -> CliModel {
    if a == "--no-tui"@ {
        CliModel { no_tui: true, mode: ArgMode::Scan, ..m }
    } else if a == "--install"@ {
        CliModel { mode: ArgMode::Install, ..m }
    } else if a == "--remove"@ {
        CliModel { mode: ArgMode::Remove, ..m }
    } else if a == "--load"@ {
        CliModel { mode: ArgMode::LoadName, ..m }
    } else {
        CliModel { mode: ArgMode::Scan, ..m }
    }
}

/// One argument read: after `--install` or `--remove` the arguments up to the
/// next one starting with `-` are packages; after `--load` the next argument
/// names the set.
pub open spec fn read_arg(m: CliModel, a: Seq<char>) -> CliModel {
    match m.mode {
        ArgMode::LoadName => CliModel { load_set: Some(a), mode: ArgMode::Scan, ..m },
        ArgMode::Install => if starts_dash(a) {
            read_flag(m, a)
        } else {
            CliModel { install: m.install.push(a), ..m }
        },
        ArgMode::Remove => if starts_dash(a) {
            read_flag(m, a)
        } else {
            CliModel { remove: m.remove.push(a), ..m }
        },
        ArgMode::Scan => read_flag(m, a),
    }
}

pub open spec fn read_args(args: Seq<Seq<char>>) -> CliModel
    decreases args.len(),
{
    if args.len() == 0 {
        CliModel { no_tui: false, install: seq![], remove: seq![], load_set: None, mode: ArgMode::Scan }
    } else {
        read_arg(read_args(args.drop_last()), args.last())
    }
}

impl Cli {
    pub open spec fn matches_model(&self, m: CliModel) -> bool {
        &&& self.no_tui == m.no_tui
        &&& strings_view(self.install@) == m.install
        &&& strings_view(self.remove@) == m.remove
        &&& match self.load_set {
            Some(s) => m.load_set == Some(s@),
            None => m.load_set is None,
        }
    }

    /// Reads the arguments that follow the program's name.
    pub fn parse(args: &[String]) -> (r: Cli)
        ensures
            r.matches_model(read_args(strings_view(args@))),
    {
        let ghost av = strings_view(args@);
        let mut cli = Cli { no_tui: false, install: Vec::new(), remove: Vec::new(), load_set: None };
        let mut mode = ArgMode::Scan;
        let mut i: usize = 0;
        assert(av.take(0) == Seq::<Seq<char>>::empty());
        assert(strings_view(cli.install@) =~= Seq::<Seq<char>>::empty());
        assert(strings_view(cli.remove@) =~= Seq::<Seq<char>>::empty());
        while i < args.len()
            invariant
                i <= args@.len(),
                av == strings_view(args@),
                cli.matches_model(read_args(av.take(i as int))),
                mode == read_args(av.take(i as int)).mode,
            decreases args.len() - i,
        {
            let a = &args[i];
            assert(av.take(i + 1).drop_last() == av.take(i as int));
            assert(av.take(i + 1).last() == a@);
            let c = crate::text::chars_of(a.as_str());
            let dash = c.len() > 0 && c[0] == '-';
            assert(dash == starts_dash(a@));
            match mode {
                ArgMode::LoadName => {
                    cli.load_set = Some(a.clone());
                    mode = ArgMode::Scan;
                },
                ArgMode::Install if !dash => {
                    let ghost before = cli.install@;
                    cli.install.push(a.clone());
                    assert(strings_view(cli.install@) =~= strings_view(before).push(a@));
                },
                ArgMode::Remove if !dash => {
                    let ghost before = cli.remove@;
                    cli.remove.push(a.clone());
                    assert(strings_view(cli.remove@) =~= strings_view(before).push(a@));
                },
                _ => {
                    if text_eq(a.as_str(), "--no-tui") {
                        cli.no_tui = true;
                        mode = ArgMode::Scan;
                    } else if text_eq(a.as_str(), "--install") {
                        mode = ArgMode::Install;
                    } else if text_eq(a.as_str(), "--remove") {
                        mode = ArgMode::Remove;
                    } else if text_eq(a.as_str(), "--load") {
                        mode = ArgMode::LoadName;
                    } else {
                        mode = ArgMode::Scan;
                    }
                },
            }
            i = i + 1;
        }
        assert(av.take(args@.len() as int) == av);
        cli
    }
}

proof fn lemma_flag_then_packages(base: Seq<Seq<char>>, xs: Seq<Seq<char>>, mode: ArgMode)
    requires
        mode == ArgMode::Install || mode == ArgMode::Remove,
        read_args(base).mode == mode,
        forall|i: int| 0 <= i < xs.len() ==> !starts_dash(#[trigger] xs[i]),
    ensures
        read_args(base + xs).mode == mode,
        read_args(base + xs).no_tui == read_args(base).no_tui,
        read_args(base + xs).load_set == read_args(base).load_set,
        mode == ArgMode::Remove ==> read_args(base + xs).remove == read_args(base).remove + xs,
        mode == ArgMode::Remove ==> read_args(base + xs).install == read_args(base).install,
        mode == ArgMode::Install ==> read_args(base + xs).install == read_args(base).install + xs,
        mode == ArgMode::Install ==> read_args(base + xs).remove == read_args(base).remove,
    decreases xs.len(),
{
    if xs.len() == 0 {
        assert(base + xs =~= base);
        assert(read_args(base).remove + xs =~= read_args(base).remove);
        assert(read_args(base).install + xs =~= read_args(base).install);
    } else {
        let init = xs.drop_last();
        assert forall|i: int| 0 <= i < init.len() implies !starts_dash(#[trigger] init[i]) by {
            assert(init[i] == xs[i]);
        }
        lemma_flag_then_packages(base, init, mode);
        assert((base + xs).drop_last() =~= base + init);
        assert((base + xs).last() == xs.last());
        assert(!starts_dash(xs[xs.len() - 1]));
        assert(read_args(base).remove + init.push(xs.last()) =~= read_args(base).remove + xs);
        assert(read_args(base).install + init.push(xs.last()) =~= read_args(base).install + xs);
        assert(init.push(xs.last()) =~= xs);
        assert((read_args(base).remove + init).push(xs.last()) =~= read_args(base).remove + xs);
        assert((read_args(base).install + init).push(xs.last()) =~= read_args(base).install + xs);
    }
}

/// `--install` and `--remove` take every argument after them up to the next
/// one that starts with `-`: whatever came before (short of a `--load`
/// waiting for its set's name), reading the flag and then such arguments
/// adds all of them, in order, to that list and leaves the other list, the
/// switch and the set's name alone.
pub proof fn law_flag_takes_every_following_package(pre: Seq<Seq<char>>, xs: Seq<Seq<char>>)
    requires
        read_args(pre).mode != ArgMode::LoadName,
        forall|i: int| 0 <= i < xs.len() ==> !starts_dash(#[trigger] xs[i]),
    ensures
        read_args(pre + seq!["--remove"@] + xs).remove == read_args(pre).remove + xs,
        read_args(pre + seq!["--remove"@] + xs).install == read_args(pre).install,
        read_args(pre + seq!["--remove"@] + xs).no_tui == read_args(pre).no_tui,
        read_args(pre + seq!["--install"@] + xs).install == read_args(pre).install + xs,
        read_args(pre + seq!["--install"@] + xs).remove == read_args(pre).remove,
        read_args(pre + seq!["--install"@] + xs).no_tui == read_args(pre).no_tui,
        read_args(seq!["--remove"@] + xs).remove == xs,
        read_args(seq!["--install"@] + xs).install == xs,
{
    reveal_strlit("--remove");
    reveal_strlit("--install");
    reveal_strlit("--no-tui");
    reveal_strlit("--load");
    let r = seq!["--remove"@];
    let i = seq!["--install"@];
    assert((pre + r).drop_last() =~= pre);
    assert((pre + i).drop_last() =~= pre);
    assert("--remove"@[2] != "--no-tui"@[2]);
    assert("--remove"@ != "--no-tui"@);
    assert("--remove"@ != "--install"@);
    assert("--install"@[2] != "--no-tui"@[2]);
    assert("--install"@ != "--no-tui"@);
    assert(starts_dash("--remove"@) && starts_dash("--install"@));
    assert(read_args(pre + r) == read_flag(read_args(pre), "--remove"@));
    assert(read_args(pre + i) == read_flag(read_args(pre), "--install"@));
    lemma_flag_then_packages(pre + r, xs, ArgMode::Remove);
    lemma_flag_then_packages(pre + i, xs, ArgMode::Install);
    let e = Seq::<Seq<char>>::empty();
    assert(read_args(e).mode == ArgMode::Scan);
    assert(e + r =~= r);
    assert(e + i =~= i);
    assert(r.drop_last() =~= e);
    assert(i.drop_last() =~= e);
    lemma_flag_then_packages(r, xs, ArgMode::Remove);
    lemma_flag_then_packages(i, xs, ArgMode::Install);
    assert(read_args(e).remove + xs =~= xs);
    assert(read_args(e).install + xs =~= xs);
}

/// `--load` takes the argument after it as the name of the set, whatever it
/// looks like, and `--no-tui` switches the interface off; neither touches
/// the package lists.
pub proof fn law_load_and_no_tui(pre: Seq<Seq<char>>, name: Seq<char>)
    requires
        read_args(pre).mode != ArgMode::LoadName,
    ensures
        read_args(pre + seq!["--load"@, name]).load_set == Some(name),
        read_args(pre + seq!["--load"@, name]).install == read_args(pre).install,
        read_args(pre + seq!["--load"@, name]).remove == read_args(pre).remove,
        read_args(pre + seq!["--no-tui"@]).no_tui,
        read_args(pre + seq!["--no-tui"@]).install == read_args(pre).install,
        read_args(pre + seq!["--no-tui"@]).remove == read_args(pre).remove,
{
    reveal_strlit("--remove");
    reveal_strlit("--install");
    reveal_strlit("--no-tui");
    reveal_strlit("--load");
    let l = pre + seq!["--load"@, name];
    let n = pre + seq!["--no-tui"@];
    assert(l.drop_last() =~= pre + seq!["--load"@]);
    assert((pre + seq!["--load"@]).drop_last() =~= pre);
    assert(n.drop_last() =~= pre);
    assert("--load"@.len() == 6 && "--no-tui"@.len() == 8 && "--install"@.len() == 9);
    assert("--load"@ != "--no-tui"@);
    assert("--load"@ != "--install"@);
    assert("--load"@[2] != "--remove"@[2]);
    assert("--load"@ != "--remove"@);
    assert(starts_dash("--load"@) && starts_dash("--no-tui"@));
    assert(read_args(pre + seq!["--load"@]).mode == ArgMode::LoadName);
}

/// What a queued package is to undergo.
#[derive(Clone, Copy, Debug, PartialEq, Eq, Structural)]
pub enum QueueAction {
    Install,
    Remove,
}

/// A package and what is to be done with it.
#[derive(Clone, Debug)]
pub struct QueueItem {
    pub name: String,
    pub action: QueueAction,
}

/// The work of a run without the terminal interface, and what to print first.
#[derive(Clone, Debug)]
pub struct HeadlessPlan {
    pub queue: Vec<QueueItem>,
    pub notes: Vec<String>,
}

pub open spec fn queue_view(q: Seq<QueueItem>) -> Seq<(Seq<char>, QueueAction)> {
    q.map_values(|it: QueueItem| (it.name@, it.action))
}

pub open spec fn tagged(names: Seq<Seq<char>>, a: QueueAction) -> Seq<(Seq<char>, QueueAction)> {
    names.map_values(|n: Seq<char>| (n, a))
}

/// The queue of a headless run: the packages to install, then those to
/// remove, then the packages of the saved set it loads (installed), where
/// that set was found.
pub open spec fn headless_queue(cli: CliModel, set_packages: Option<Seq<Seq<char>>>) -> Seq<(Seq<char>, QueueAction)> {
    let from_set = match (cli.load_set, set_packages) {
        (Some(_), Some(p)) => tagged(p, QueueAction::Install),
        _ => seq![],
    };
    tagged(cli.install, QueueAction::Install) + tagged(cli.remove, QueueAction::Remove) + from_set
}

/// The lines printed before a headless run: that the set to load was not
/// found, and that there is nothing to do where the queue is empty.
pub open spec fn headless_notes(cli: CliModel, set_packages: Option<Seq<Seq<char>>>) -> Seq<Seq<char>> {
    let missing = match (cli.load_set, set_packages) {
        (Some(name), None) => seq!["set not found: "@ + name],
        _ => seq![],
    };
    let idle = if headless_queue(cli, set_packages).len() == 0 {
        seq!["nothing to do: pass --install/--remove/--load with --no-tui"@]
    } else {
        seq![]
    };
    missing + idle
}

fn push_tagged(queue: &mut Vec<QueueItem>, names: &Vec<String>, action: QueueAction)
    ensures
        queue_view(final(queue)@) == queue_view(old(queue)@) + tagged(strings_view(names@), action),
{
    let ghost start = queue_view(queue@);
    let mut i: usize = 0;
    while i < names.len()
        invariant
            i <= names@.len(),
            queue_view(queue@) == start + tagged(strings_view(names@).take(i as int), action),
        decreases names.len() - i,
    {
        let ghost before = queue_view(queue@);
        queue.push(QueueItem { name: names[i].clone(), action });
        assert(strings_view(names@).take(i + 1) == strings_view(names@).take(i as int).push(names@[i as int]@));
        assert(queue_view(queue@) =~= before.push((names@[i as int]@, action)));
        assert(tagged(strings_view(names@).take(i + 1), action) =~= tagged(strings_view(names@).take(i as int), action).push((names@[i as int]@, action)));
        i = i + 1;
    }
    assert(strings_view(names@).take(names@.len() as int) == strings_view(names@));
}

pub open spec fn opt_strings(o: Option<Vec<String>>) -> Option<Seq<Seq<char>>> {
    match o {
        Some(v) => Some(strings_view(v@)),
        None => None,
    }
}

pub open spec fn opt_text(o: Option<String>) -> Option<Seq<char>> {
    match o {
        Some(s) => Some(s@),
        None => None,
    }
}

/// Plans a headless run of `cli`, given the packages of the saved set it
/// names (`None` where the saved sets hold no such set).
pub fn plan_headless(cli: &Cli, set_packages: Option<Vec<String>>) -> (r: HeadlessPlan)
    ensures
        forall|m: CliModel| #[trigger] cli.matches_model(m) ==> {
            &&& queue_view(r.queue@) == headless_queue(m, opt_strings(set_packages))
            &&& strings_view(r.notes@) == headless_notes(m, opt_strings(set_packages))
        },
{
    let mut queue: Vec<QueueItem> = Vec::new();
    assert(queue_view(queue@) =~= Seq::<(Seq<char>, QueueAction)>::empty());
    push_tagged(&mut queue, &cli.install, QueueAction::Install);
    push_tagged(&mut queue, &cli.remove, QueueAction::Remove);
    let mut notes: Vec<String> = Vec::new();
    let ghost sp = opt_strings(set_packages);
    let ghost qbase = queue_view(queue@);
    match &cli.load_set {
        Some(name) => match &set_packages {
            Some(pkgs) => {
                push_tagged(&mut queue, pkgs, QueueAction::Install);
            },
            None => {
                let mut line = "set not found: ".to_owned();
                line.append(name.as_str());
                notes.push(line);
                assert(queue_view(queue@) =~= qbase + Seq::<(Seq<char>, QueueAction)>::empty());
            },
        },
        None => {
            assert(queue_view(queue@) =~= qbase + Seq::<(Seq<char>, QueueAction)>::empty());
        },
    }
    let ghost nbase = strings_view(notes@);
    if queue.len() == 0 {
        notes.push("nothing to do: pass --install/--remove/--load with --no-tui".to_owned());
        assert(strings_view(notes@) =~= nbase + seq!["nothing to do: pass --install/--remove/--load with --no-tui"@]);
    } else {
        assert(strings_view(notes@) =~= nbase + Seq::<Seq<char>>::empty());
    }
    proof {
        assert forall|m: CliModel| #[trigger] cli.matches_model(m) implies {
            &&& queue_view(queue@) == headless_queue(m, sp)
            &&& strings_view(notes@) == headless_notes(m, sp)
        } by {
            if cli.load_set is None {
                assert(strings_view(notes@) =~= headless_notes(m, sp));
            }
        }
    }
    HeadlessPlan { queue, notes }
}

/// Where a backend stands in `BackendId::all()`.
pub open spec fn backend_index(id: BackendId) -> int {
    match id {
        BackendId::Pacman => 0,
        BackendId::Yay => 1,
        BackendId::Paru => 2,
        BackendId::Aura => 3,
        BackendId::Trizen => 4,
    }
}

/// The first backend of `priority` that `available` (indexed as
/// `BackendId::all()`) marks present.
pub open spec fn first_available(priority: Seq<BackendId>, available: Seq<bool>) -> Option<BackendId>
    decreases priority.len(),
{
    if priority.len() == 0 {
        None
    } else if available[backend_index(priority[0])] {
        Some(priority[0])
    } else {
        first_available(priority.drop_first(), available)
    }
}

fn index_of_backend(id: BackendId) -> (r: usize)
    ensures
        r as int == backend_index(id),
{
    match id {
        BackendId::Pacman => 0,
        BackendId::Yay => 1,
        BackendId::Paru => 2,
        BackendId::Aura => 3,
        BackendId::Trizen => 4,
    }
}

/// The backend that removes packages in a headless run: the first one of the
/// priority that is present on the system.
pub fn removal_backend(priority: &[BackendId], available: [bool; 5]) -> (r: Option<BackendId>)
    ensures
        r == first_available(priority@, available@),
{
    let mut i: usize = 0;
    assert(priority@.skip(0) == priority@);
    while i < priority.len()
        invariant
            i <= priority@.len(),
            first_available(priority@, available@) == first_available(priority@.skip(i as int), available@),
        decreases priority.len() - i,
    {
        assert(priority@.skip(i as int).drop_first() == priority@.skip(i + 1));
        assert(priority@.skip(i as int)[0] == priority@[i as int]);
        let id = priority[i];
        if available[index_of_backend(id)] {
            return Some(id);
        }
        i = i + 1;
    }
    None
}

} // verus!
