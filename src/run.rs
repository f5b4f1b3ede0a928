//! The steps of one run: list the source, write the archive, remove the source
//! when asked to, and stop at the first failure.
use vstd::prelude::*;
use crate::opts::Opts;

verus! {

/// Where a run stands.
#[derive(PartialEq, Eq, Structural, Clone, Copy, Debug)]
pub enum Stage {
    /// The source directory is being listed.
    Listing,
    /// The archive is being written.
    Writing,
    /// The source directory is being removed.
    Cleaning,
    /// Everything asked for was done.
    Done,
    /// A step failed; nothing more is done.
    Failed,
}

/// What the caller does next.
#[derive(PartialEq, Eq, Structural, Clone, Copy, Debug)]
pub enum Action {
    /// List the entries directly inside the source directory.
    ListSource,
    /// Create the destination and write into it every regular file listed.
    WriteArchive,
    /// Remove the source directory and all it holds.
    RemoveSource,
    /// Stop, reporting success or failure.
    Exit { success: bool },
}

/// The stage and action that follow `stage` once its action has succeeded
/// (`ok`) or failed.
pub open spec fn next(stage: Stage, force: bool, ok: bool) -> (Stage, Action) {
    match stage {
        Stage::Listing => if ok {
            (Stage::Writing, Action::WriteArchive)
        } else {
            (Stage::Failed, Action::Exit { success: false })
        },
        Stage::Writing => if !ok {
            (Stage::Failed, Action::Exit { success: false })
        } else if force {
            (Stage::Cleaning, Action::RemoveSource)
        } else {
            (Stage::Done, Action::Exit { success: true })
        },
        Stage::Cleaning => if ok {
            (Stage::Done, Action::Exit { success: true })
        } else {
            (Stage::Failed, Action::Exit { success: false })
        },
        Stage::Done => (Stage::Done, Action::Exit { success: true }),
        Stage::Failed => (Stage::Failed, Action::Exit { success: false }),
    }
}

/// Without `force` the source directory is never removed.
pub proof fn source_kept_without_force(stage: Stage, ok: bool)
    ensures
        next(stage, false, ok).1 != Action::RemoveSource,
{
}

/// The source directory is removed only right after the archive was written
/// successfully, and only with `force`; with `force`, a successful write is
/// always followed by its removal.
pub proof fn source_removed_only_after_write(stage: Stage, force: bool, ok: bool)
    ensures
        next(stage, force, ok).1 == Action::RemoveSource <==> (stage == Stage::Writing && ok && force),
{
}

/// The destination is written only after the source was listed successfully,
/// so a missing source leaves no archive behind.
pub proof fn archive_written_only_after_listing(stage: Stage, force: bool, ok: bool)
    ensures
        next(stage, force, ok).1 == Action::WriteArchive <==> (stage == Stage::Listing && ok),
{
}

/// Any failed step ends the run as a failure.
pub proof fn failure_is_final(stage: Stage, force: bool)
    ensures
        next(stage, force, false).1 == (Action::Exit { success: false }) || stage == Stage::Done,
        next(stage, force, false).0 == Stage::Failed || stage == Stage::Done,
{
}

/// One run in progress.
pub struct Run {
    pub stage: Stage,
    pub force: bool,
}

impl Run {
    /// A run of `opts`, and its first action: listing the source.
    pub fn start(opts: &Opts) -> (r: (Run, Action))
        ensures
            r.0.stage == Stage::Listing,
            r.0.force == opts.force,
            r.1 == Action::ListSource,
    {
        (Run { stage: Stage::Listing, force: opts.force }, Action::ListSource)
    }

    /// Records whether the last action succeeded and returns the next one.
    pub fn step(&mut self, ok: bool) -> (a: Action)
        ensures
            (final(self).stage, a) == next(old(self).stage, old(self).force, ok),
            final(self).force == old(self).force,
    {
        let (stage, action) = match self.stage {
            Stage::Listing => if ok {
                (Stage::Writing, Action::WriteArchive)
            } else {
                (Stage::Failed, Action::Exit { success: false })
            },
            Stage::Writing => if !ok {
                (Stage::Failed, Action::Exit { success: false })
            } else if self.force {
                (Stage::Cleaning, Action::RemoveSource)
            } else {
                (Stage::Done, Action::Exit { success: true })
            },
            Stage::Cleaning => if ok {
                (Stage::Done, Action::Exit { success: true })
            } else {
                (Stage::Failed, Action::Exit { success: false })
            },
            Stage::Done => (Stage::Done, Action::Exit { success: true }),
            Stage::Failed => (Stage::Failed, Action::Exit { success: false }),
        };
        self.stage = stage;
        action
    }
}

} // verus!
