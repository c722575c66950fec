//! Checking again whenever a file changes.

use vstd::prelude::*;

use crate::explain;
use crate::text;

verus! {

/// What the file watcher reports.
#[derive(Debug)]
pub enum WatchEvent {
    /// Files have changed.
    Changed,
    /// Watching failed, for this reason.
    Failed(String),
    /// There is nothing to watch any more.
    Closed,
}

/// What to do about it.
#[derive(Debug)]
pub enum WatchAction {
    /// Print this, and check again.
    Recheck(String),
    /// Print this, and go on watching.
    Complain(String),
    Stop,
}

/// The line between two checks.
pub open spec fn recheck_banner(color: bool) -> Seq<char> {
    explain::code(color, "\x1b[2m"@) + "─── re-checking ───────────────────────────────────────────────\n"@ + explain::code(
        color,
        "\x1b[0m"@,
    )
}

/// What to do about an event: a change leads to a check, an error only to a complaint.
pub fn watch_step(event: &WatchEvent, color: bool) -> (r: WatchAction)
    ensures
        match *event {
            WatchEvent::Changed => r matches WatchAction::Recheck(s) && s@ == recheck_banner(color),
            WatchEvent::Failed(reason) => r matches WatchAction::Complain(s) && s@ == "silicon: watch error: "@
                + reason@,
            WatchEvent::Closed => r is Stop,
        },
{
    match event {
        WatchEvent::Changed => WatchAction::Recheck(
            explain::code_text(color, "\x1b[2m").to_owned().concat(
                "─── re-checking ───────────────────────────────────────────────\n",
            ).concat(explain::code_text(color, "\x1b[0m")),
        ),
        WatchEvent::Failed(reason) => WatchAction::Complain(
            "silicon: watch error: ".to_owned().concat(reason.as_str()),
        ),
        WatchEvent::Closed => WatchAction::Stop,
    }
}

/// What is said when `n` paths are watched.
pub fn watch_message(n: usize) -> (r: String)
    ensures
        r@ == "silicon: watching "@ + text::decimal(n as nat) + " path(s) — press Ctrl-C to stop"@,
{
    "silicon: watching ".to_owned().concat(text::decimal_text(n as u64).as_str()).concat(
        " path(s) — press Ctrl-C to stop",
    )
}

} // verus!
