//! Reconciliation of the runtime's open windows with the window list a
//! fresh pass of the application produced: the two lists are walked in
//! step, and each slot yields one action.

use vstd::prelude::*;

verus! {

/// What to do with one window slot after a pass: reuse an existing
/// window for a new entry, open a window for an entry with none, or
/// close a window whose entry is gone.
pub enum WindowAction {
    /// The `slot`-th new entry takes over the existing `window`.
    Update { slot: usize, window: u64 },
    /// The `slot`-th new entry needs a window of its own.
    Create { slot: usize },
    /// The existing `window` has no entry any more and is closed.
    Remove { window: u64 },
}

/// Walks the new entries and the existing windows in step: matched
/// pairs are updates, surplus entries are creations, surplus windows
/// are removals, in that order.
pub fn plan_window_updates(new_count: usize, existing: &Vec<u64>) -> (r: Vec<WindowAction>)
    ensures
        r@.len() == if new_count >= existing@.len() {
            new_count as int
        } else {
            existing@.len() as int
        },
        forall|i: int|
            0 <= i < new_count && i < existing@.len() ==> r@[i] == (WindowAction::Update {
                slot: i as usize,
                window: existing@[i],
            }),
        forall|i: int|
            existing@.len() <= i < new_count ==> r@[i] == (WindowAction::Create { slot: i as usize }),
        forall|i: int|
            new_count <= i < existing@.len() ==> r@[i] == (WindowAction::Remove {
                window: existing@[i],
            }),
{
    let mut r: Vec<WindowAction> = Vec::new();
    let mut i: usize = 0;
    while i < new_count || i < existing.len()
        invariant
            i <= new_count || i <= existing@.len(),
            r@.len() == i as int,
            i as int <= if new_count >= existing@.len() {
                new_count as int
            } else {
                existing@.len() as int
            },
            forall|j: int|
                0 <= j < i && j < new_count && j < existing@.len() ==> r@[j] == (WindowAction::Update {
                    slot: j as usize,
                    window: existing@[j],
                }),
            forall|j: int|
                existing@.len() <= j < i && j < new_count ==> r@[j] == (WindowAction::Create {
                    slot: j as usize,
                }),
            forall|j: int|
                new_count <= j < i && j < existing@.len() ==> r@[j] == (WindowAction::Remove {
                    window: existing@[j],
                }),
        decreases (if new_count >= existing.len() { new_count } else { existing.len() }) - i,
    {
        if i < new_count && i < existing.len() {
            r.push(WindowAction::Update { slot: i, window: existing[i] });
        } else if i < new_count {
            r.push(WindowAction::Create { slot: i });
        } else {
            r.push(WindowAction::Remove { window: existing[i] });
        }
        i = i + 1;
    }
    r
}

} // verus!
