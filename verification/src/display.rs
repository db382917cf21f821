//! Text shaping for the terminal panels: focus markers and truncation.

use vstd::prelude::*;
use crate::text::{chars_of, string_of};

verus! {

/// A panel title, marked with `"> "` when the panel has the focus.
pub fn focus_title(name: &str, focused: bool) -> (r: String)
    ensures
        focused ==> r@ == "> "@ + name@,
        !focused ==> r@ == name@,
{
    if focused {
        let mut r = "> ".to_owned();
        r.append(name);
        r
    } else {
        name.to_owned()
    }
}

/// `text` cut to fit `width` columns, one per character: unchanged where it
/// fits, else its first `width - 1` characters and an ellipsis; empty where
/// the width is under four.
pub open spec fn truncated(text: Seq<char>, width: int) -> Seq<char> {
    if width < 4 {
        seq![]
    } else if text.len() <= width {
        text
    } else {
        text.take(width - 1).push('…')
    }
}

/// Cuts `text` to fit `width` columns.
pub fn truncate(text: &str, width: usize) -> (r: String)
    ensures
        r@ == truncated(text@, width as int),
{
    if width < 4 {
        return String::new();
    }
    let chars = chars_of(text);
    if chars.len() <= width {
        return text.to_owned();
    }
    let mut kept = crate::fields::copy_prefix(&chars, width - 1);
    kept.push('…');
    string_of(&kept)
}

} // verus!
