//! What the user has asked of each download: keep running, pause, or
//! cancel; and how the file of a cancelled download is removed.

use vstd::prelude::*;
use crate::table::KeyedTable;

verus! {

/// The state that the user's pause, resume and cancel requests put a
/// download in.
#[derive(Clone, Copy, Debug, PartialEq, Eq, Structural)]
pub enum CtrlState {
    Running,
    Paused,
    Cancelled,
}

/// The control state of `link` in a table: what is stored for it, and
/// `Running` when nothing is.
pub open spec fn ctrl_of(table: Map<Seq<char>, CtrlState>, link: Seq<char>) -> CtrlState {
    if table.contains_key(link) {
        table[link]
    } else {
        CtrlState::Running
    }
}

/// Looks up the control state of a download; a link that no request has
/// named is running.
pub fn check_ctrl(ctrl: &KeyedTable<CtrlState>, link: &str) -> (r: CtrlState)
    requires
        ctrl.wf(),
    ensures
        r == ctrl_of(ctrl@, link@),
{
    match ctrl.get(link) {
        Some(s) => *s,
        None => CtrlState::Running,
    }
}

/// How many times the file of a cancelled download is tried to be removed:
/// its parts may still hold it open for a while.
pub const DELETE_ATTEMPTS: u32 = 120;

/// The pause after a failed attempt to remove the file, in milliseconds.
pub const DELETE_RETRY_MS: u64 = 500;

/// What follows an attempt to remove a cancelled download's file.
#[derive(Clone, Copy, Debug, PartialEq, Eq, Structural)]
pub enum DeleteStep {
    /// The file is gone: stop.
    Removed,
    /// Wait `DELETE_RETRY_MS` and try again.
    WaitAndRetry,
    /// Wait `DELETE_RETRY_MS` and give up: every attempt failed.
    WaitAndStop,
}

/// The step after attempt number `attempt` (counted from 0) to remove the
/// file, which `removed` tells the outcome of.
pub fn delete_step(attempt: u32, removed: bool) -> (r: DeleteStep)
    ensures
        removed ==> r == DeleteStep::Removed,
        !removed && attempt + 1 < DELETE_ATTEMPTS ==> r == DeleteStep::WaitAndRetry,
        !removed && attempt + 1 >= DELETE_ATTEMPTS ==> r == DeleteStep::WaitAndStop,
{
    if removed {
        DeleteStep::Removed
    } else if attempt < DELETE_ATTEMPTS - 1 {
        DeleteStep::WaitAndRetry
    } else {
        DeleteStep::WaitAndStop
    }
}

} // verus!
