//! Focus labels and focus cycling inside each screen.

use vstd::prelude::*;
use super::{BrowseFocus, DoneFocus, InstallFocus, QueueFocus};

verus! {

pub open spec fn queue_focus_text(f: QueueFocus) -> Seq<char> {
    match f {
        QueueFocus::Input => "Input"@,
        QueueFocus::Priority => "Priority"@,
        QueueFocus::Queue => "Queue"@,
        QueueFocus::Install => "Actions"@,
    }
}

pub open spec fn browse_focus_text(f: BrowseFocus) -> Seq<char> {
    match f {
        BrowseFocus::Search => "Search"@,
        BrowseFocus::Results => "Results"@,
    }
}

pub open spec fn install_focus_text(f: InstallFocus) -> Seq<char> {
    match f {
        InstallFocus::Progress => "Progress"@,
        InstallFocus::Current => "Current"@,
        InstallFocus::Logs => "Logs"@,
    }
}

pub open spec fn done_focus_text(f: DoneFocus) -> Seq<char> {
    match f {
        DoneFocus::Summary => "Summary"@,
        DoneFocus::Unresolved => "Unresolved"@,
    }
}

pub fn queue_focus_label(focus: QueueFocus) -> (r: &'static str)
    ensures
        r@ == queue_focus_text(focus),
{
    match focus {
        QueueFocus::Input => "Input",
        QueueFocus::Priority => "Priority",
        QueueFocus::Queue => "Queue",
        QueueFocus::Install => "Actions",
    }
}

pub fn browse_focus_label(focus: BrowseFocus) -> (r: &'static str)
    ensures
        r@ == browse_focus_text(focus),
{
    match focus {
        BrowseFocus::Search => "Search",
        BrowseFocus::Results => "Results",
    }
}

pub fn install_focus_label(focus: InstallFocus) -> (r: &'static str)
    ensures
        r@ == install_focus_text(focus),
{
    match focus {
        InstallFocus::Progress => "Progress",
        InstallFocus::Current => "Current",
        InstallFocus::Logs => "Logs",
    }
}

pub fn done_focus_label(focus: DoneFocus) -> (r: &'static str)
    ensures
        r@ == done_focus_text(focus),
{
    match focus {
        DoneFocus::Summary => "Summary",
        DoneFocus::Unresolved => "Unresolved",
    }
}

pub open spec fn next_queue(f: QueueFocus) -> QueueFocus {
    match f {
        QueueFocus::Input => QueueFocus::Priority,
        QueueFocus::Priority => QueueFocus::Queue,
        QueueFocus::Queue => QueueFocus::Install,
        QueueFocus::Install => QueueFocus::Input,
    }
}

pub open spec fn prev_queue(f: QueueFocus) -> QueueFocus {
    match f {
        QueueFocus::Input => QueueFocus::Install,
        QueueFocus::Priority => QueueFocus::Input,
        QueueFocus::Queue => QueueFocus::Priority,
        QueueFocus::Install => QueueFocus::Queue,
    }
}

pub open spec fn next_install(f: InstallFocus) -> InstallFocus {
    match f {
        InstallFocus::Progress => InstallFocus::Current,
        InstallFocus::Current => InstallFocus::Logs,
        InstallFocus::Logs => InstallFocus::Progress,
    }
}

pub open spec fn prev_install(f: InstallFocus) -> InstallFocus {
    match f {
        InstallFocus::Progress => InstallFocus::Logs,
        InstallFocus::Current => InstallFocus::Progress,
        InstallFocus::Logs => InstallFocus::Current,
    }
}

pub open spec fn next_done(f: DoneFocus) -> DoneFocus {
    match f {
        DoneFocus::Summary => DoneFocus::Unresolved,
        DoneFocus::Unresolved => DoneFocus::Summary,
    }
}

/// Tab order of the queue screen: input, priority, queue, actions.
pub fn next_queue_focus(focus: QueueFocus) -> (r: QueueFocus)
    ensures
        r == next_queue(focus),
{
    match focus {
        QueueFocus::Input => QueueFocus::Priority,
        QueueFocus::Priority => QueueFocus::Queue,
        QueueFocus::Queue => QueueFocus::Install,
        QueueFocus::Install => QueueFocus::Input,
    }
}

pub fn prev_queue_focus(focus: QueueFocus) -> (r: QueueFocus)
    ensures
        r == prev_queue(focus),
{
    match focus {
        QueueFocus::Input => QueueFocus::Install,
        QueueFocus::Priority => QueueFocus::Input,
        QueueFocus::Queue => QueueFocus::Priority,
        QueueFocus::Install => QueueFocus::Queue,
    }
}

pub fn next_install_focus(focus: InstallFocus) -> (r: InstallFocus)
    ensures
        r == next_install(focus),
{
    match focus {
        InstallFocus::Progress => InstallFocus::Current,
        InstallFocus::Current => InstallFocus::Logs,
        InstallFocus::Logs => InstallFocus::Progress,
    }
}

pub fn prev_install_focus(focus: InstallFocus) -> (r: InstallFocus)
    ensures
        r == prev_install(focus),
{
    match focus {
        InstallFocus::Progress => InstallFocus::Logs,
        InstallFocus::Current => InstallFocus::Progress,
        InstallFocus::Logs => InstallFocus::Current,
    }
}

pub fn next_done_focus(focus: DoneFocus) -> (r: DoneFocus)
    ensures
        r == next_done(focus),
{
    match focus {
        DoneFocus::Summary => DoneFocus::Unresolved,
        DoneFocus::Unresolved => DoneFocus::Summary,
    }
}

/// On the summary screen both directions move to the other pane.
pub fn prev_done_focus(focus: DoneFocus) -> (r: DoneFocus)
    ensures
        r == next_done(focus),
{
    next_done_focus(focus)
}

/// Tab and Shift+Tab undo each other on every screen, and a full round of
/// Tab comes back to the starting pane.
pub proof fn law_focus_cycles(q: QueueFocus, i: InstallFocus, d: DoneFocus)
    ensures
        prev_queue(next_queue(q)) == q,
        next_queue(prev_queue(q)) == q,
        next_queue(next_queue(next_queue(next_queue(q)))) == q,
        prev_install(next_install(i)) == i,
        next_install(prev_install(i)) == i,
        next_install(next_install(next_install(i))) == i,
        next_done(next_done(d)) == d,
{
}

} // verus!
