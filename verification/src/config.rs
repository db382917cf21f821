//! Settings: the configuration and saved-set models with their defaults, the
//! backend priority a configuration names, and where the files live.

use vstd::prelude::*;
use std::collections::BTreeMap;
use vstd::string::StringSliceAdditionalSpecFns;
use crate::backend::{BackendId, all_backends, backend_from_name};
use crate::text::{unicode_lowercase, to_lowercase, strings_view, is_ascii_text, ascii_lower, ascii_upper, lemma_ascii_case};

verus! {

/// The whole configuration file.
#[derive(Clone, Debug)]
pub struct AppConfig {
    pub backend: BackendConfig,
    pub ui: UiConfig,
    pub behavior: BehaviorConfig,
    pub keybinds: BTreeMap<String, String>,
}

/// The `[backend]` table: backend names in the order they are tried.
#[derive(Clone, Debug)]
pub struct BackendConfig {
    pub priority: Vec<String>,
}

/// The `[ui]` table.
#[derive(Clone, Debug)]
pub struct UiConfig {
    pub theme: String,
    pub show_sizes: bool,
    pub date_format: String,
}

/// The `[behavior]` table.
#[derive(Clone, Debug)]
pub struct BehaviorConfig {
    pub confirm_on_quit: bool,
    pub auto_sync_on_start: bool,
    pub cache_ttl_hours: u64,
}

/// Named package sets saved by the user.
#[derive(Clone, Debug)]
pub struct SavedSets {
    pub sets: BTreeMap<String, Vec<String>>,
}

pub open spec fn default_priority_names() -> Seq<Seq<char>> {
    seq!["pacman"@, "yay"@, "paru"@]
}

/// The backend order used where the file names none.
pub fn default_backend_priority() -> (r: Vec<String>)
    ensures
        strings_view(r@) == default_priority_names(),
{
    let r = vec!["pacman".to_owned(), "yay".to_owned(), "paru".to_owned()];
    assert(strings_view(r@) =~= default_priority_names());
    r
}

/// The theme used where the file names none.
pub fn default_theme() -> (r: String)
    ensures
        r@ == "arch-dark"@,
{
    "arch-dark".to_owned()
}

/// The value of the switches that are on unless the file says otherwise.
pub fn default_true() -> (r: bool)
    ensures
        r,
{
    true
}

/// Hours a synced package cache stays fresh unless the file says otherwise.
pub fn default_cache_ttl() -> (r: u64)
    ensures
        r == 4,
{
    4
}

/// The time format used where the file names none.
pub fn default_date_format() -> (r: String)
    ensures
        r@ == "%H:%M:%S"@,
{
    "%H:%M:%S".to_owned()
}

impl Default for BackendConfig {
    /// An empty table: no backend named.
    fn default() -> (r: Self)
        ensures
            r.priority@.len() == 0,
    {
        BackendConfig { priority: Vec::new() }
    }
}

impl Default for UiConfig {
    /// An empty table: every field at its type's zero value.
    fn default() -> (r: Self)
        ensures
            r.theme@.len() == 0,
            !r.show_sizes,
            r.date_format@.len() == 0,
    {
        UiConfig { theme: String::new(), show_sizes: false, date_format: String::new() }
    }
}

impl Default for BehaviorConfig {
    /// An empty table: every field at its type's zero value.
    fn default() -> (r: Self)
        ensures
            !r.confirm_on_quit,
            !r.auto_sync_on_start,
            r.cache_ttl_hours == 0,
    {
        BehaviorConfig { confirm_on_quit: false, auto_sync_on_start: false, cache_ttl_hours: 0 }
    }
}

impl Default for SavedSets {
    /// No saved set.
    fn default() -> (r: Self)
        ensures
            r.sets@ == Map::<String, Vec<String>>::empty(),
    {
        SavedSets { sets: BTreeMap::new() }
    }
}

impl Default for AppConfig {
    /// The configuration written on first start: every field at its
    /// documented default, and no key rebound.
    fn default() -> (r: Self)
        ensures
            strings_view(r.backend.priority@) == default_priority_names(),
            r.ui.theme@ == "arch-dark"@,
            r.ui.show_sizes,
            r.ui.date_format@ == "%H:%M:%S"@,
            r.behavior.confirm_on_quit,
            r.behavior.auto_sync_on_start,
            r.behavior.cache_ttl_hours == 4,
            r.keybinds@ == Map::<String, String>::empty(),
    {
        AppConfig {
            backend: BackendConfig { priority: default_backend_priority() },
            ui: UiConfig {
                theme: default_theme(),
                show_sizes: default_true(),
                date_format: default_date_format(),
            },
            behavior: BehaviorConfig {
                confirm_on_quit: default_true(),
                auto_sync_on_start: default_true(),
                cache_ttl_hours: default_cache_ttl(),
            },
            keybinds: BTreeMap::new(),
        }
    }
}

/// The backend named by `value`, compared after lower-casing.
pub fn parse_backend_id(value: &str) -> (r: Option<BackendId>)
    ensures
        r == backend_from_name(unicode_lowercase(value@)),
        is_ascii_text(value@) ==> r == backend_from_name(ascii_lower(value@)),
{
    let lower = to_lowercase(value);
    BackendId::from_name(lower.as_str())
}

/// Backend names are read without regard to case: an ASCII name and the
/// same name with its letters upper-cased give the same backend (each is
/// read as `backend_from_name` of its ASCII lower-casing, see
/// `parse_backend_id`).
pub proof fn law_backend_names_ignore_case(name: Seq<char>)
    requires
        is_ascii_text(name),
    ensures
        is_ascii_text(ascii_upper(name)),
        backend_from_name(ascii_lower(ascii_upper(name))) == backend_from_name(ascii_lower(name)),
{
    lemma_ascii_case(name);
}

/// The backends the names in `items` give, each once, in the order first named.
pub open spec fn named_backends(items: Seq<Seq<char>>) -> Seq<BackendId>
    decreases items.len(),
{
    if items.len() == 0 {
        seq![]
    } else {
        let out = named_backends(items.drop_last());
        match backend_from_name(unicode_lowercase(items.last())) {
            Some(id) => if out.contains(id) {
                out
            } else {
                out.push(id)
            },
            None => out,
        }
    }
}

/// `out` followed by the backends of `ids` that it lacks, in their order.
pub open spec fn complete_with(out: Seq<BackendId>, ids: Seq<BackendId>) -> Seq<BackendId>
    decreases ids.len(),
{
    if ids.len() == 0 {
        out
    } else {
        let o = complete_with(out, ids.drop_last());
        if o.contains(ids.last()) {
            o
        } else {
            o.push(ids.last())
        }
    }
}

/// The priority a configuration gives: the backends it names, then the rest
/// in the default order.
pub open spec fn backend_priority(items: Seq<Seq<char>>) -> Seq<BackendId> {
    complete_with(named_backends(items), all_backends())
}

fn contains_id(v: &Vec<BackendId>, id: BackendId) -> (r: bool)
    ensures
        r == v@.contains(id),
{
    let mut i: usize = 0;
    while i < v.len()
        invariant
            i <= v@.len(),
            forall|k: int| 0 <= k < i ==> v@[k] != id,
        decreases v.len() - i,
    {
        if v[i] == id {
            return true;
        }
        i = i + 1;
    }
    false
}

/// The backend order a configuration's priority list gives.
pub fn parse_backend_priority(priority: &[String]) -> (r: Vec<BackendId>)
    ensures
        r@ == backend_priority(strings_view(priority@)),
{
    let ghost items = strings_view(priority@);
    let mut out: Vec<BackendId> = Vec::new();
    let mut i: usize = 0;
    assert(items.take(0) == Seq::<Seq<char>>::empty());
    while i < priority.len()
        invariant
            i <= priority@.len(),
            items == strings_view(priority@),
            out@ == named_backends(items.take(i as int)),
        decreases priority.len() - i,
    {
        assert(items.take(i + 1).drop_last() == items.take(i as int));
        assert(items.take(i + 1).last() == priority@[i as int]@);
        match parse_backend_id(priority[i].as_str()) {
            Some(id) => {
                if !contains_id(&out, id) {
                    out.push(id);
                }
            },
            None => {},
        }
        i = i + 1;
    }
    assert(items.take(priority@.len() as int) == items);
    let all = BackendId::all();
    let ghost named = out@;
    let mut j: usize = 0;
    assert(all@.take(0) == Seq::<BackendId>::empty());
    while j < 5
        invariant
            j <= 5,
            all@ == all_backends(),
            out@ == complete_with(named, all@.take(j as int)),
        decreases 5 - j,
    {
        assert(all@.take(j + 1).drop_last() == all@.take(j as int));
        assert(all@.take(j + 1).last() == all@[j as int]);
        let id = all[j];
        if !contains_id(&out, id) {
            out.push(id);
        }
        j = j + 1;
    }
    assert(all@.take(5) == all@);
    out
}

proof fn lemma_named_no_duplicates(items: Seq<Seq<char>>)
    ensures
        named_backends(items).no_duplicates(),
    decreases items.len(),
{
    if items.len() > 0 {
        lemma_named_no_duplicates(items.drop_last());
    }
}

proof fn lemma_complete_with(out: Seq<BackendId>, ids: Seq<BackendId>)
    requires
        out.no_duplicates(),
    ensures
        complete_with(out, ids).no_duplicates(),
        complete_with(out, ids).take(out.len() as int) == out,
        out.len() <= complete_with(out, ids).len(),
        forall|x: BackendId| #[trigger] complete_with(out, ids).contains(x) <==> (out.contains(x) || ids.contains(x)),
    decreases ids.len(),
{
    if ids.len() > 0 {
        let init = ids.drop_last();
        lemma_complete_with(out, init);
        let o = complete_with(out, init);
        assert forall|x: BackendId| #[trigger] complete_with(out, ids).contains(x) <==> (out.contains(x) || ids.contains(x)) by {
            if ids.contains(x) {
                let k = choose|k: int| 0 <= k < ids.len() && ids[k] == x;
                if k < ids.len() - 1 {
                    assert(init[k] == x);
                }
            }
            if init.contains(x) {
                let k = choose|k: int| 0 <= k < init.len() && init[k] == x;
                assert(ids[k] == x);
            }
            if !o.contains(ids.last()) {
                if o.push(ids.last()).contains(x) && x != ids.last() {
                    let k = choose|k: int| 0 <= k < o.push(ids.last()).len() && o.push(ids.last())[k] == x;
                    assert(o[k] == x);
                }
                if o.contains(x) {
                    let k = choose|k: int| 0 <= k < o.len() && o[k] == x;
                    assert(o.push(ids.last())[k] == x);
                }
                assert(o.push(ids.last())[o.len() as int] == ids.last());
            }
        }
        if !o.contains(ids.last()) {
            assert(o.push(ids.last()).take(out.len() as int) == o.take(out.len() as int));
            assert forall|i: int, j: int| 0 <= i < j < o.push(ids.last()).len() implies o.push(ids.last())[i] != o.push(ids.last())[j] by {
                if j == o.len() {
                    assert(o.push(ids.last())[i] == o[i]);
                }
            }
        }
    }
}

/// The priority a configuration gives holds every backend exactly once, and
/// it starts with the backends the configuration names, in their order.
pub proof fn law_priority_is_a_permutation(items: Seq<Seq<char>>)
    ensures
        backend_priority(items).len() == all_backends().len(),
        backend_priority(items).no_duplicates(),
        forall|id: BackendId| #[trigger] backend_priority(items).contains(id),
        backend_priority(items).take(named_backends(items).len() as int) == named_backends(items),
{
    let named = named_backends(items);
    let all = all_backends();
    let r = backend_priority(items);
    lemma_named_no_duplicates(items);
    lemma_complete_with(named, all);
    assert forall|id: BackendId| #[trigger] r.contains(id) by {
        match id {
            BackendId::Pacman => assert(all[0] == id),
            BackendId::Yay => assert(all[1] == id),
            BackendId::Paru => assert(all[2] == id),
            BackendId::Aura => assert(all[3] == id),
            BackendId::Trizen => assert(all[4] == id),
        }
    }
    r.unique_seq_to_set();
    assert(all.no_duplicates());
    all.unique_seq_to_set();
    assert(r.to_set() =~= all.to_set()) by {
        assert forall|id: BackendId| r.to_set().contains(id) <==> all.to_set().contains(id) by {
            match id {
                BackendId::Pacman => assert(all[0] == id),
                BackendId::Yay => assert(all[1] == id),
                BackendId::Paru => assert(all[2] == id),
                BackendId::Aura => assert(all[3] == id),
                BackendId::Trizen => assert(all[4] == id),
            }
        }
    }
}

} // verus!

verus! {

/// `dirs::home_dir`, as the bytes of the path: the crate reads `$HOME`,
/// then the password database, and the path's bytes are handed over as they
/// are. Nothing is claimed of the result: it depends on the environment.
#[verifier::external_body]
fn home_dir_bytes() -> Option<Vec<u8>> {
    dirs::home_dir().map(|p| p.into_os_string().into_encoded_bytes())
}

/// `base` with the relative component `part` appended, as `PathBuf::join`
/// appends one: a `'/'` goes between them unless `base` is empty or already
/// ends with one.
pub open spec fn path_join(base: Seq<char>, part: Seq<char>) -> Seq<char> {
    if base.len() == 0 || base.last() == '/' {
        base + part
    } else {
        base + seq!['/'] + part
    }
}

/// Appends the relative component `part` to `base`.
pub fn join_path(base: &str, part: &str) -> (r: String)
    ensures
        r@ == path_join(base@, part@),
{
    let mut r = base.to_owned();
    let chars = crate::text::chars_of(base);
    if chars.len() > 0 && chars[chars.len() - 1] != '/' {
        r.push('/');
    }
    r.append(part);
    r
}

pub open spec fn text_opt(o: Option<String>) -> Option<Seq<char>> {
    match o {
        Some(h) => Some(h@),
        None => None,
    }
}

/// `path_join` on the bytes of a path, which need not be UTF-8.
pub open spec fn path_join_bytes(base: Seq<u8>, part: Seq<u8>) -> Seq<u8> {
    if base.len() == 0 || base.last() == 0x2f {
        base + part
    } else {
        base + seq![0x2fu8] + part
    }
}

/// Appends the relative component `part` to the path `base`, both as bytes.
pub fn join_path_bytes(base: &[u8], part: &[u8]) -> (r: Vec<u8>)
    ensures
        r@ == path_join_bytes(base@, part@),
{
    let mut r: Vec<u8> = Vec::new();
    let mut i: usize = 0;
    while i < base.len()
        invariant
            i <= base@.len(),
            r@ == base@.take(i as int),
        decreases base@.len() - i,
    {
        r.push(base[i]);
        i = i + 1;
        assert(r@ =~= base@.take(i as int));
    }
    assert(r@ =~= base@);
    if base.len() > 0 && base[base.len() - 1] != 0x2f {
        r.push(0x2f);
    }
    let ghost mid = r@;
    let mut j: usize = 0;
    while j < part.len()
        invariant
            j <= part@.len(),
            r@ == mid + part@.take(j as int),
        decreases part@.len() - j,
    {
        r.push(part[j]);
        j = j + 1;
        assert(r@ =~= mid + part@.take(j as int));
    }
    assert(part@.take(part@.len() as int) =~= part@);
    r
}

/// The directory the application's files live under, inside `home`, or
/// inside `/tmp` where there is no home directory; `kind` is the bytes of
/// `.config` or `.cache`.
pub open spec fn app_dir(home: Option<Seq<u8>>, kind: Seq<u8>) -> Seq<u8> {
    let base = match home {
        Some(h) => h,
        None => "/tmp".spec_bytes(),
    };
    path_join_bytes(path_join_bytes(base, kind), "arch-package-tui".spec_bytes())
}

pub open spec fn bytes_opt(o: Option<Vec<u8>>) -> Option<Seq<u8>> {
    match o {
        Some(h) => Some(h@),
        None => None,
    }
}

fn app_dir_in(home: Option<Vec<u8>>, kind: &str) -> (r: Vec<u8>)
    ensures
        r@ == app_dir(bytes_opt(home), kind.spec_bytes()),
{
    let d = match home {
        Some(h) => join_path_bytes(h.as_slice(), kind.as_bytes()),
        None => join_path_bytes("/tmp".as_bytes(), kind.as_bytes()),
    };
    join_path_bytes(d.as_slice(), "arch-package-tui".as_bytes())
}

/// The configuration directory for a given home directory.
pub fn config_dir_in(home: Option<Vec<u8>>) -> (r: Vec<u8>)
    ensures
        r@ == app_dir(bytes_opt(home), ".config".spec_bytes()),
{
    app_dir_in(home, ".config")
}

/// The cache directory for a given home directory.
pub fn cache_dir_in(home: Option<Vec<u8>>) -> (r: Vec<u8>)
    ensures
        r@ == app_dir(bytes_opt(home), ".cache".spec_bytes()),
{
    app_dir_in(home, ".cache")
}

/// `~/.config/arch-package-tui`, under `/tmp` where there is no home
/// directory, as the bytes of the path.
pub fn config_dir() -> (r: Vec<u8>)
    ensures
        exists|home: Option<Seq<u8>>| r@ == app_dir(home, ".config".spec_bytes()),
{
    let home = home_dir_bytes();
    let ghost hv = bytes_opt(home);
    let r = config_dir_in(home);
    assert(r@ == app_dir(hv, ".config".spec_bytes()));
    r
}

/// `~/.cache/arch-package-tui`, under `/tmp` where there is no home
/// directory, as the bytes of the path.
pub fn cache_dir() -> (r: Vec<u8>)
    ensures
        exists|home: Option<Seq<u8>>| r@ == app_dir(home, ".cache".spec_bytes()),
{
    let home = home_dir_bytes();
    let ghost hv = bytes_opt(home);
    let r = cache_dir_in(home);
    assert(r@ == app_dir(hv, ".cache".spec_bytes()));
    r
}

/// The configuration file.
pub fn config_path() -> (r: Vec<u8>)
    ensures
        exists|home: Option<Seq<u8>>| r@ == path_join_bytes(app_dir(home, ".config".spec_bytes()), "config.toml".spec_bytes()),
{
    let d = config_dir();
    let r = join_path_bytes(d.as_slice(), "config.toml".as_bytes());
    let ghost home = choose|home: Option<Seq<u8>>| d@ == app_dir(home, ".config".spec_bytes());
    assert(r@ == path_join_bytes(app_dir(home, ".config".spec_bytes()), "config.toml".spec_bytes()));
    r
}

/// The file of saved package sets.
pub fn sets_path() -> (r: Vec<u8>)
    ensures
        exists|home: Option<Seq<u8>>| r@ == path_join_bytes(app_dir(home, ".config".spec_bytes()), "sets.toml".spec_bytes()),
{
    let d = config_dir();
    let r = join_path_bytes(d.as_slice(), "sets.toml".as_bytes());
    let ghost home = choose|home: Option<Seq<u8>>| d@ == app_dir(home, ".config".spec_bytes());
    assert(r@ == path_join_bytes(app_dir(home, ".config".spec_bytes()), "sets.toml".spec_bytes()));
    r
}

} // verus!
