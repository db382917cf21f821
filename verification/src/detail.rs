//! Rendering the `Key : Value` output of a package manager's info command
//! into the detail panel's text.

use vstd::prelude::*;
use crate::text::{ascii_lower, chars_of, join_strings, join_with, string_of, strings_view, to_ascii_lower};
use crate::backend::{CommandSpec, spec_is};
use crate::fields::{copy_prefix, copy_range, find_char, index_of_char, lines_of, rows, text_lines, trim, trim_chars};

verus! {

/// The rule drawn under the package name.
pub open spec fn rule_line() -> Seq<char> {
    "────────────────────────────"@
}

/// Width to which a `Key:` label is padded.
pub const LABEL_WIDTH: usize = 12;

/// `s` padded with spaces on the right to at least `w` characters.
pub open spec fn pad_right(s: Seq<char>, w: int) -> Seq<char> {
    if s.len() >= w {
        s
    } else {
        s + Seq::new((w - s.len()) as nat, |i: int| ' ')
    }
}

/// The trimmed key and value of a line that holds a `':'`, split at the first one.
pub open spec fn key_value(line: Seq<char>) -> Option<(Seq<char>, Seq<char>)> {
    let k = index_of_char(line, ':');
    if k < 0 {
        None
    } else {
        Some((trim(line.take(k)), trim(line.skip(k + 1))))
    }
}

/// The rendered entry of one line: the key and a colon padded to the label
/// width, a space, the value; nothing where the key or the value is empty.
pub open spec fn detail_entry(line: Seq<char>) -> Seq<Seq<char>> {
    match key_value(line) {
        Some((key, value)) => if key.len() > 0 && value.len() > 0 {
            seq![pad_right(key.push(':'), LABEL_WIDTH as int) + seq![' '] + value]
        } else {
            seq![]
        },
        None => seq![],
    }
}

pub open spec fn detail_entries(ls: Seq<Seq<char>>) -> Seq<Seq<char>>
    decreases ls.len(),
{
    if ls.len() == 0 {
        seq![]
    } else {
        detail_entries(ls.drop_last()) + detail_entry(ls.last())
    }
}

/// Whether a key names the description, ignoring ASCII case.
pub open spec fn is_description_key(key: Seq<char>) -> bool {
    ascii_lower(key) == ascii_lower("Description"@)
}

/// The value of the last line whose key names the description; empty where
/// no line does.
pub open spec fn last_description(ls: Seq<Seq<char>>) -> Seq<char>
    decreases ls.len(),
{
    if ls.len() == 0 {
        seq![]
    } else {
        match key_value(ls.last()) {
            Some((key, value)) => if is_description_key(key) {
                value
            } else {
                last_description(ls.drop_last())
            },
            None => last_description(ls.drop_last()),
        }
    }
}

/// The lines of the detail panel for `package`, rendered from `raw`: the
/// name, a rule, one entry per `Key: Value` line, then the description again
/// under its own heading; the raw text itself where no entry came out.
pub open spec fn detail_lines(package: Seq<char>, raw: Seq<char>) -> Seq<Seq<char>> {
    let ls = text_lines(raw);
    let base = seq![package, rule_line()] + detail_entries(ls);
    let d = last_description(ls);
    let full = if d.len() > 0 {
        base + seq![Seq::<char>::empty(), "Description:"@, d]
    } else {
        base
    };
    if full.len() <= 2 {
        full.push(raw)
    } else {
        full
    }
}

proof fn lemma_first_colon(line: Seq<char>, k: int)
    requires
        0 <= k < line.len(),
        line[k] == ':',
        forall|j: int| 0 <= j < k ==> line[j] != ':',
    ensures
        index_of_char(line, ':') == k,
    decreases k,
{
    if k > 0 {
        assert forall|j: int| 0 <= j < k - 1 implies line.drop_first()[j] != ':' by {
            assert(line.drop_first()[j] == line[j + 1]);
        }
        lemma_first_colon(line.drop_first(), k - 1);
    }
}

proof fn lemma_no_colon(line: Seq<char>)
    requires
        forall|j: int| 0 <= j < line.len() ==> line[j] != ':',
    ensures
        index_of_char(line, ':') < 0,
    decreases line.len(),
{
    if line.len() > 0 {
        assert forall|j: int| 0 <= j < line.len() - 1 implies line.drop_first()[j] != ':' by {
            assert(line.drop_first()[j] == line[j + 1]);
        }
        lemma_no_colon(line.drop_first());
    }
}

/// A line splits at its first `':'`: the key is what comes before it and the
/// value everything after it, each trimmed, so a value keeps any `':'` of
/// its own (a URL, a time); where the key and the value are not empty the
/// entry shows the key with a colon, padded, a space and that whole value.
/// A line without a `':'` gives no entry.
pub proof fn law_value_is_everything_after_the_first_colon(line: Seq<char>, k: int)
    requires
        0 <= k < line.len(),
        line[k] == ':',
        forall|j: int| 0 <= j < k ==> line[j] != ':',
    ensures
        key_value(line) == Some((trim(line.take(k)), trim(line.skip(k + 1)))),
        trim(line.take(k)).len() > 0 && trim(line.skip(k + 1)).len() > 0 ==> detail_entry(line)
            == seq![pad_right(trim(line.take(k)).push(':'), LABEL_WIDTH as int) + seq![' '] + trim(line.skip(k + 1))],
{
    lemma_first_colon(line, k);
}

/// A line without a `':'` is not an entry.
pub proof fn law_line_without_colon_is_no_entry(line: Seq<char>)
    requires
        forall|j: int| 0 <= j < line.len() ==> line[j] != ':',
    ensures
        key_value(line) is None,
        detail_entry(line) == Seq::<Seq<char>>::empty(),
{
    lemma_no_colon(line);
}

/// Whether two character vectors are equal.
pub fn same_chars(a: &Vec<char>, b: &Vec<char>) -> (r: bool)
    ensures
        r == (a@ == b@),
{
    if a.len() != b.len() {
        return false;
    }
    let mut i: usize = 0;
    while i < a.len()
        invariant
            i <= a.len() == b.len(),
            forall|j: int| 0 <= j < i ==> a@[j] == b@[j],
        decreases a.len() - i,
    {
        if a[i] != b[i] {
            return false;
        }
        i = i + 1;
    }
    assert(a@ =~= b@);
    true
}

fn is_description(key: &Vec<char>) -> (r: bool)
    ensures
        r == is_description_key(key@),
{
    let k = string_of(key);
    let lowered = to_ascii_lower(k.as_str());
    let target = to_ascii_lower("Description");
    same_chars(&chars_of(lowered.as_str()), &chars_of(target.as_str()))
}

/// The entry text for a non-empty key and value.
fn entry_text(key: &Vec<char>, value: &Vec<char>) -> (r: String)
    ensures
        r@ == pad_right(key@.push(':'), LABEL_WIDTH as int) + seq![' '] + value@,
{
    let mut out = copy_prefix(key, key.len());
    assert(key@.take(key@.len() as int) == key@);
    out.push(':');
    let ghost label = out@;
    let ghost fill = if label.len() >= LABEL_WIDTH {
        0int
    } else {
        LABEL_WIDTH - label.len()
    };
    while out.len() < LABEL_WIDTH
        invariant
            label == key@.push(':'),
            out@.len() >= label.len(),
            out@.len() <= (if label.len() >= LABEL_WIDTH { label.len() as int } else { LABEL_WIDTH as int }),
            out@ == label + Seq::new((out@.len() - label.len()) as nat, |i: int| ' '),
        decreases LABEL_WIDTH - out.len(),
    {
        let ghost before = out@;
        out.push(' ');
        assert(out@ =~= label + Seq::new((out@.len() - label.len()) as nat, |i: int| ' '));
    }
    assert(out@ == pad_right(label, LABEL_WIDTH as int));
    out.push(' ');
    let mut i: usize = 0;
    let ghost head = out@;
    while i < value.len()
        invariant
            i <= value.len(),
            out@ == head + value@.take(i as int),
        decreases value.len() - i,
    {
        out.push(value[i]);
        assert(value@.take(i + 1) == value@.take(i as int).push(value@[i as int]));
        i = i + 1;
    }
    assert(value@.take(value@.len() as int) == value@);
    string_of(&out)
}

/// Renders the output of an info command for `package` as the detail panel shows it.
#[verifier::spinoff_prover]
pub fn normalize_detail_text(package: &str, raw: &str) -> (r: String)
    ensures
        r@ == join_with(detail_lines(package@, raw@), "\n"@),
{
    let raw_chars = chars_of(raw);
    let ls = lines_of(&raw_chars);
    let ghost lv = rows(ls@);
    let mut out: Vec<String> = Vec::new();
    out.push(package.to_owned());
    out.push("────────────────────────────".to_owned());
    let mut description: Vec<char> = Vec::new();
    let mut i: usize = 0;
    assert(lv.take(0) == Seq::<Seq<char>>::empty());
    assert(strings_view(out@) =~= seq![package@, rule_line()] + detail_entries(lv.take(0)));
    while i < ls.len()
        invariant
            i <= ls@.len(),
            lv == rows(ls@),
            lv == text_lines(raw@),
            strings_view(out@) == seq![package@, rule_line()] + detail_entries(lv.take(i as int)),
            description@ == last_description(lv.take(i as int)),
        decreases ls.len() - i,
    {
        let line = &ls[i];
        assert(lv[i as int] == line@);
        assert(lv.take(i + 1).drop_last() == lv.take(i as int));
        assert(lv.take(i + 1).last() == line@);
        let ghost before = out@;
        assert(detail_entries(lv.take(i + 1)) == detail_entries(lv.take(i as int)) + detail_entry(line@));
        match find_char(line, ':') {
            Some(k) => {
                assert(k < line@.len());
                let key_raw = copy_prefix(line, k);
                let val_raw = copy_range(line, k + 1, line.len());
                assert(val_raw@ == line@.skip(k + 1));
                let key = trim_chars(&key_raw);
                let value = trim_chars(&val_raw);
                assert(index_of_char(line@, ':') == k as int);
                assert(key@ == trim(line@.take(k as int)));
                assert(value@ == trim(line@.skip(k + 1)));
                assert(key_value(line@) == Some((key@, value@)));
                if key.len() > 0 && value.len() > 0 {
                    let e = entry_text(&key, &value);
                    out.push(e);
                    assert(strings_view(out@) =~= strings_view(before).push(e@));
                } else {
                    assert(detail_entry(line@) =~= Seq::<Seq<char>>::empty());
                }
                if is_description(&key) {
                    description = value;
                }
            },
            None => {
                assert(key_value(line@) is None);
                assert(detail_entry(line@) =~= Seq::<Seq<char>>::empty());
            },
        }
        i = i + 1;
    }
    assert(lv.take(ls@.len() as int) == lv);
    let ghost base = strings_view(out@);
    if description.len() > 0 {
        out.push(String::new());
        out.push("Description:".to_owned());
        let d = string_of(&description);
        out.push(d);
        assert(strings_view(out@) =~= base + seq![Seq::<char>::empty(), "Description:"@, description@]);
    }
    if out.len() <= 2 {
        let ghost mid = strings_view(out@);
        out.push(raw.to_owned());
        assert(strings_view(out@) =~= mid.push(raw@));
    }
    join_strings(&out, "\n")
}

/// The info commands tried, in order, for the details of `package`.
pub open spec fn detail_command_list(package: Seq<char>) -> Seq<(Seq<char>, Seq<Seq<char>>)> {
    seq![
        ("pacman"@, seq!["-Si"@, package]),
        ("yay"@, seq!["-Si"@, package]),
        ("paru"@, seq!["-Si"@, package]),
        ("aura"@, seq!["-Ai"@, package]),
        ("trizen"@, seq!["-Si"@, package]),
    ]
}

fn info_command(program: &str, flag: &str, package: &str) -> (r: CommandSpec)
    ensures
        spec_is(r, (program@, seq![flag@, package@])),
{
    let args = vec![flag.to_owned(), package.to_owned()];
    let r = CommandSpec { program: program.to_owned(), args };
    assert(strings_view(r.args@) =~= seq![flag@, package@]);
    r
}

/// The commands that can print the details of `package`, in the order they
/// are tried: the first that succeeds gives the text to render.
pub fn detail_commands(package: &str) -> (r: Vec<CommandSpec>)
    ensures
        r@.len() == 5,
        forall|i: int| 0 <= i < 5 ==> spec_is(#[trigger] r@[i], detail_command_list(package@)[i]),
{
    let mut r: Vec<CommandSpec> = Vec::new();
    r.push(info_command("pacman", "-Si", package));
    r.push(info_command("yay", "-Si", package));
    r.push(info_command("paru", "-Si", package));
    r.push(info_command("aura", "-Ai", package));
    r.push(info_command("trizen", "-Si", package));
    r
}

} // verus!
