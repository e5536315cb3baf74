//! Accepted works: restoring a deleted work from the trash.

use vstd::prelude::*;

verus! {

/// The task a restored work links to, and whether a link was dropped: the
/// work keeps its task only while that task still exists (its batch may
/// have been retired meanwhile); a link to a vanished task is dropped and
/// reported.
pub open spec fn restored_link(task_id: Option<i64>, task_alive: bool) -> (Option<i64>, bool) {
    match task_id {
        Some(t) => if task_alive {
            (Some(t), false)
        } else {
            (None, true)
        },
        None => (None, false),
    }
}

/// Decides the task link of a work being restored (see `restored_link`);
/// `task_alive` tells whether the work's task still exists.
pub fn restore_link(task_id: Option<i64>, task_alive: bool) -> (r: (Option<i64>, bool))
    ensures
        r == restored_link(task_id, task_alive),
{
    match task_id {
        Some(t) => {
            if task_alive {
                (Some(t), false)
            } else {
                (None, true)
            }
        },
        None => (None, false),
    }
}

/// A restored work never points at a task that is gone, keeps the link
/// when the task is still there, and reports a drop exactly when it had a
/// link it could not keep.
pub proof fn law_restore_never_dangles(task_id: Option<i64>, alive: bool)
    ensures
        restored_link(task_id, alive).0 is Some ==> alive && restored_link(task_id, alive).0
            == task_id,
        (task_id is Some && alive) ==> restored_link(task_id, alive).0 == task_id,
        restored_link(task_id, alive).1 == (task_id is Some && !alive),
{
}

} // verus!
