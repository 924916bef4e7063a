//! The decisions of an atomic file replacement. The caller performs each
//! requested action (write and sync a sibling temporary file, rename it
//! over the target, sync the directory, or remove the temporary) and feeds
//! back whether it succeeded; this module says what comes next.
//!
//! A model of the disk shows the point of the protocol: whatever the
//! outcomes, and wherever the process stops, the target holds either its
//! old bytes or the complete new ones, and the old ones until the rename
//! has succeeded.

use vstd::prelude::*;

verus! {

/// How a replacement ended.
#[derive(Debug, Clone, Copy, PartialEq, Eq, Structural)]
pub enum ReplaceOutcome {
    /// The target holds the new bytes, and the directory entry is synced.
    Replaced,
    /// The target holds the new bytes, but syncing the directory failed.
    ReplacedNotDurable,
    /// The target was left as it was.
    Aborted,
}

/// Where a replacement stands.
#[derive(Debug, Clone, Copy, PartialEq, Eq, Structural)]
pub enum ReplaceState {
    Writing,
    SyncingTemp,
    Renaming,
    SyncingDir,
    RemovingTemp,
    Done(ReplaceOutcome),
}

/// What the caller does next.
#[derive(Debug, Clone, Copy, PartialEq, Eq, Structural)]
pub enum ReplaceAction {
    /// Create the temporary file next to the target and write the new bytes.
    WriteTemp,
    /// Flush the temporary file to the device.
    SyncTemp,
    /// Rename the temporary file over the target.
    RenameOverTarget,
    /// Flush the directory holding both.
    SyncDir,
    /// Delete the temporary file.
    RemoveTemp,
    /// Nothing: the replacement is over.
    Stop,
}

pub open spec fn action_of(s: ReplaceState) -> ReplaceAction {
    match s {
        ReplaceState::Writing => ReplaceAction::WriteTemp,
        ReplaceState::SyncingTemp => ReplaceAction::SyncTemp,
        ReplaceState::Renaming => ReplaceAction::RenameOverTarget,
        ReplaceState::SyncingDir => ReplaceAction::SyncDir,
        ReplaceState::RemovingTemp => ReplaceAction::RemoveTemp,
        ReplaceState::Done(_) => ReplaceAction::Stop,
    }
}

/// The state after the current action succeeded (`ok`) or failed. A
/// failure before the rename has succeeded leads to removing the temporary
/// file and then to `Aborted`.
pub open spec fn next_state(s: ReplaceState, ok: bool) -> ReplaceState {
    match s {
        ReplaceState::Writing => if ok {
            ReplaceState::SyncingTemp
        } else {
            ReplaceState::RemovingTemp
        },
        ReplaceState::SyncingTemp => if ok {
            ReplaceState::Renaming
        } else {
            ReplaceState::RemovingTemp
        },
        ReplaceState::Renaming => if ok {
            ReplaceState::SyncingDir
        } else {
            ReplaceState::RemovingTemp
        },
        ReplaceState::SyncingDir => if ok {
            ReplaceState::Done(ReplaceOutcome::Replaced)
        } else {
            ReplaceState::Done(ReplaceOutcome::ReplacedNotDurable)
        },
        ReplaceState::RemovingTemp => ReplaceState::Done(ReplaceOutcome::Aborted),
        ReplaceState::Done(o) => ReplaceState::Done(o),
    }
}

/// The first state and action of a replacement.
pub fn replace_start() -> (r: (ReplaceState, ReplaceAction))
    ensures
        r == (ReplaceState::Writing, ReplaceAction::WriteTemp),
{
    (ReplaceState::Writing, ReplaceAction::WriteTemp)
}

/// The next state and action, given whether the current action succeeded.
pub fn replace_next(s: ReplaceState, ok: bool) -> (r: (ReplaceState, ReplaceAction))
    requires
        !(s is Done),
    ensures
        r.0 == next_state(s, ok),
        r.1 == action_of(r.0),
{
    let n = match s {
        ReplaceState::Writing => if ok {
            ReplaceState::SyncingTemp
        } else {
            ReplaceState::RemovingTemp
        },
        ReplaceState::SyncingTemp => if ok {
            ReplaceState::Renaming
        } else {
            ReplaceState::RemovingTemp
        },
        ReplaceState::Renaming => if ok {
            ReplaceState::SyncingDir
        } else {
            ReplaceState::RemovingTemp
        },
        ReplaceState::SyncingDir => if ok {
            ReplaceState::Done(ReplaceOutcome::Replaced)
        } else {
            ReplaceState::Done(ReplaceOutcome::ReplacedNotDurable)
        },
        ReplaceState::RemovingTemp => ReplaceState::Done(ReplaceOutcome::Aborted),
        ReplaceState::Done(o) => ReplaceState::Done(o),
    };
    let a = match n {
        ReplaceState::Writing => ReplaceAction::WriteTemp,
        ReplaceState::SyncingTemp => ReplaceAction::SyncTemp,
        ReplaceState::Renaming => ReplaceAction::RenameOverTarget,
        ReplaceState::SyncingDir => ReplaceAction::SyncDir,
        ReplaceState::RemovingTemp => ReplaceAction::RemoveTemp,
        ReplaceState::Done(_) => ReplaceAction::Stop,
    };
    (n, a)
}

// ---------------------------------------------------------------- disk model

/// The bytes of the target and of the temporary file, if it exists.
pub struct Disk {
    pub target: Seq<u8>,
    pub temp: Option<Seq<u8>>,
}

/// What an action does to the disk. A failed write may leave any partial
/// temporary file; a rename happens entirely or not at all; syncing changes
/// no bytes.
pub open spec fn effect(d: Disk, a: ReplaceAction, ok: bool, new: Seq<u8>, partial: Seq<u8>) -> Disk {
    match a {
        ReplaceAction::WriteTemp => Disk { temp: Some(if ok { new } else { partial }), ..d },
        ReplaceAction::RenameOverTarget => if ok {
            match d.temp {
                Some(t) => Disk { target: t, temp: None },
                None => d,
            }
        } else {
            d
        },
        ReplaceAction::RemoveTemp => if ok {
            Disk { temp: None, ..d }
        } else {
            d
        },
        _ => d,
    }
}

/// The state and the disk after the actions whose outcomes are `events`
/// (success, and what a failed write left behind), from `s` and `d`.
pub open spec fn run(s: ReplaceState, d: Disk, new: Seq<u8>, events: Seq<(bool, Seq<u8>)>) -> (
    ReplaceState,
    Disk,
)
    decreases events.len(),
{
    if events.len() == 0 || s is Done {
        (s, d)
    } else {
        let (ok, partial) = events[0];
        run(next_state(s, ok), effect(d, action_of(s), ok, new, partial), new, events.drop_first())
    }
}

/// What the target holds in each state of a replacement of `old` by `new`.
pub open spec fn target_matches(s: ReplaceState, d: Disk, old: Seq<u8>, new: Seq<u8>) -> bool {
    match s {
        ReplaceState::Writing => d.target == old,
        ReplaceState::SyncingTemp => d.target == old && d.temp == Some(new),
        ReplaceState::Renaming => d.target == old && d.temp == Some(new),
        ReplaceState::SyncingDir => d.target == new,
        ReplaceState::RemovingTemp => d.target == old,
        ReplaceState::Done(ReplaceOutcome::Aborted) => d.target == old,
        ReplaceState::Done(_) => d.target == new,
    }
}

proof fn lemma_run_keeps_target(
    s: ReplaceState,
    d: Disk,
    old: Seq<u8>,
    new: Seq<u8>,
    events: Seq<(bool, Seq<u8>)>,
)
    requires
        target_matches(s, d, old, new),
    ensures
        target_matches(run(s, d, new, events).0, run(s, d, new, events).1, old, new),
    decreases events.len(),
{
    if events.len() > 0 && !(s is Done) {
        let (ok, partial) = events[0];
        lemma_run_keeps_target(
            next_state(s, ok),
            effect(d, action_of(s), ok, new, partial),
            old,
            new,
            events.drop_first(),
        );
    }
}

/// Replacing `old` by `new` never exposes anything else: after any
/// sequence of action outcomes, that is wherever the process stops, the
/// target holds `old` or `new`; it holds `old` until the rename has
/// succeeded, still holds it when the replacement was aborted, and holds
/// `new` once the replacement reports that it replaced the file.
pub proof fn lemma_replace_is_atomic(old: Seq<u8>, new: Seq<u8>, events: Seq<(bool, Seq<u8>)>)
    ensures
        ({
            let (s, d) = run(ReplaceState::Writing, Disk { target: old, temp: None }, new, events);
            &&& d.target == old || d.target == new
            &&& (s == ReplaceState::Writing || s == ReplaceState::SyncingTemp || s
                == ReplaceState::Renaming || s == ReplaceState::RemovingTemp) ==> d.target == old
            &&& s == ReplaceState::Done(ReplaceOutcome::Aborted) ==> d.target == old
            &&& (s == ReplaceState::Done(ReplaceOutcome::Replaced) || s == ReplaceState::Done(
                ReplaceOutcome::ReplacedNotDurable,
            )) ==> d.target == new
        }),
{
    lemma_run_keeps_target(ReplaceState::Writing, Disk { target: old, temp: None }, old, new, events);
}

} // verus!
