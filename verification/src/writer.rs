//! The privileged write, as a sequence of steps that the caller performs.
//!
//! The writer decides; the caller acts. `PrivilegedWriter::begin` names the
//! first step. After each step the caller reports how it went, and
//! `PrivilegedWriter::advance` names the next step or the final result. No
//! step is ever asked for twice: a write that failed is reported, not retried.
//!
//! On Unix the new content is staged in a temporary file, committed by one
//! elevated command (which also keeps a backup and flushes the name service
//! cache), and the temporary file is removed, however the commit went. A
//! commit that did not succeed, because the user cancelled it, because it was
//! denied, or because the elevation tool could not be run, is reported as
//! cancelled or denied. On Windows, where the process
//! is already elevated, the previous content is backed up, the file is
//! written in place, and the resolver cache is flushed.

use vstd::prelude::*;
use crate::hosts::HostsError;
use crate::platform::Platform;

verus! {

/// One thing for the caller to do.
#[derive(Debug, Clone, Copy, PartialEq, Eq, Structural)]
pub enum WriteStep {
    /// Write the new content to the staging file.
    Stage,
    /// Run the commit command through the elevation tool.
    Commit,
    /// Remove the staging file.
    Cleanup,
    /// Copy the hosts file to its backup path.
    Backup,
    /// Write the new content to the hosts file.
    Overwrite,
    /// Flush the resolver cache.
    Flush,
}

/// How a step went.
#[derive(Debug, Clone, Copy, PartialEq, Eq, Structural)]
pub enum StepOutcome {
    /// The step was done. For `Commit`: the command ran and exited with
    /// success.
    Succeeded,
    /// The step failed. For `Commit`: the command ran and exited with a
    /// failure, as it does where the user declines.
    Failed,
    /// The step could not be started. For `Commit`: the elevation tool could
    /// not be run.
    Unavailable,
}

/// What the caller does next.
#[derive(Debug, Clone, Copy, PartialEq, Eq)]
pub enum Directive {
    /// Perform this step and report its outcome.
    Perform(WriteStep),
    /// The write is over, with this result.
    Finish(Result<(), HostsError>),
}

/// The step that a write on `platform` starts with.
pub open spec fn first_step(platform: Platform) -> WriteStep {
    match platform {
        Platform::Unix => WriteStep::Stage,
        Platform::Windows => WriteStep::Backup,
    }
}

/// The step that follows `step` after `outcome`; `None` where the write is
/// over.
///
/// A backup, a cleanup and a flush matter only in that they were tried:
/// whatever their outcome, the write goes on or ends as it would have. The
/// staged file is cleaned up after every commit, whether it succeeded or not.
pub open spec fn step_after(step: WriteStep, outcome: StepOutcome) -> Option<WriteStep> {
    match step {
        WriteStep::Stage => match outcome {
            StepOutcome::Succeeded => Some(WriteStep::Commit),
            _ => None,
        },
        WriteStep::Commit => Some(WriteStep::Cleanup),
        WriteStep::Cleanup => None,
        WriteStep::Backup => Some(WriteStep::Overwrite),
        WriteStep::Overwrite => match outcome {
            StepOutcome::Succeeded => Some(WriteStep::Flush),
            _ => None,
        },
        WriteStep::Flush => None,
    }
}

/// The result that the write has earned once `step` ended with `outcome`,
/// where `verdict` is what it had earned before. A staging that did not
/// succeed earns its error, and so does a writing in place. A commit that did
/// not succeed, whether it was cancelled, denied, or its tool could not be
/// run, earns the error that says that the operation was cancelled or
/// denied. Nothing else changes what was earned.
pub open spec fn verdict_after(
    step: WriteStep,
    verdict: Result<(), HostsError>,
    outcome: StepOutcome,
) -> Result<(), HostsError> {
    if outcome == StepOutcome::Succeeded {
        verdict
    } else {
        match step {
            WriteStep::Stage => Err(HostsError::StagingFailed),
            WriteStep::Commit => Err(HostsError::PermissionDenied),
            WriteStep::Overwrite => Err(HostsError::WriteFailed),
            _ => verdict,
        }
    }
}

/// What the caller does after `step` ended with `outcome`, where `verdict`
/// is what the write had earned before: the step that follows, or, where
/// none follows, the end of the write with what it has earned.
pub open spec fn directive_after(
    step: WriteStep,
    verdict: Result<(), HostsError>,
    outcome: StepOutcome,
) -> Directive {
    match step_after(step, outcome) {
        Some(following) => Directive::Perform(following),
        None => Directive::Finish(verdict_after(step, verdict, outcome)),
    }
}

/// How many steps can still follow `step`.
pub open spec fn steps_after(step: WriteStep) -> nat {
    match step {
        WriteStep::Stage => 2,
        WriteStep::Commit => 1,
        WriteStep::Cleanup => 0,
        WriteStep::Backup => 2,
        WriteStep::Overwrite => 1,
        WriteStep::Flush => 0,
    }
}

/// Where a write stands.
#[derive(Debug, Clone, Copy, PartialEq, Eq)]
pub enum WriterState {
    /// The caller is performing this step.
    Awaiting(WriteStep),
    /// The write is over, with this result.
    Finished(Result<(), HostsError>),
}

/// One write of the hosts file.
pub struct PrivilegedWriter {
    state: WriterState,
    verdict: Result<(), HostsError>,
}

impl PrivilegedWriter {
    /// Where the write stands.
    pub closed spec fn state(&self) -> WriterState {
        self.state
    }

    /// The result that the write has earned so far.
    pub closed spec fn verdict(&self) -> Result<(), HostsError> {
        self.verdict
    }

    /// Starts a write on `platform`. The caller performs `first_step`.
    pub fn begin(platform: Platform) -> (started: (PrivilegedWriter, WriteStep))
        ensures
            started.1 == first_step(platform),
            started.0.state() == WriterState::Awaiting(first_step(platform)),
            started.0.verdict() == Ok::<(), HostsError>(()),
    {
        let step = match platform {
            Platform::Unix => WriteStep::Stage,
            Platform::Windows => WriteStep::Backup,
        };
        (PrivilegedWriter { state: WriterState::Awaiting(step), verdict: Ok(()) }, step)
    }

    /// Takes the outcome of the step that the caller performed and says what
    /// comes next. Once the write is over, every further call repeats its
    /// result and changes nothing.
    pub fn advance(&mut self, outcome: StepOutcome) -> (next: Directive)
        ensures
            match old(self).state() {
                WriterState::Awaiting(step) => {
                    &&& next == directive_after(step, old(self).verdict(), outcome)
                    &&& final(self).verdict() == verdict_after(
                        step,
                        old(self).verdict(),
                        outcome,
                    )
                    &&& final(self).state() == match next {
                        Directive::Perform(following) => WriterState::Awaiting(following),
                        Directive::Finish(result) => WriterState::Finished(result),
                    }
                },
                WriterState::Finished(result) => {
                    &&& next == Directive::Finish(result)
                    &&& final(self).state() == old(self).state()
                    &&& final(self).verdict() == old(self).verdict()
                },
            },
            old(self).state() is Awaiting ==> (match next {
                Directive::Finish(result) => final(self).verdict() == result,
                Directive::Perform(_) => true,
            }),
    {
        match self.state {
            WriterState::Awaiting(step) => {
                if outcome != StepOutcome::Succeeded {
                    match step {
                        WriteStep::Stage => {
                            self.verdict = Err(HostsError::StagingFailed);
                        },
                        WriteStep::Commit => {
                            self.verdict = Err(HostsError::PermissionDenied);
                        },
                        WriteStep::Overwrite => {
                            self.verdict = Err(HostsError::WriteFailed);
                        },
                        _ => {},
                    }
                }
                let following = match step {
                    WriteStep::Stage => if outcome == StepOutcome::Succeeded {
                        Some(WriteStep::Commit)
                    } else {
                        None
                    },
                    WriteStep::Commit => Some(WriteStep::Cleanup),
                    WriteStep::Cleanup => None,
                    WriteStep::Backup => Some(WriteStep::Overwrite),
                    WriteStep::Overwrite => if outcome == StepOutcome::Succeeded {
                        Some(WriteStep::Flush)
                    } else {
                        None
                    },
                    WriteStep::Flush => None,
                };
                match following {
                    Some(step) => {
                        self.state = WriterState::Awaiting(step);
                        Directive::Perform(step)
                    },
                    None => {
                        self.state = WriterState::Finished(self.verdict);
                        Directive::Finish(self.verdict)
                    },
                }
            },
            WriterState::Finished(result) => Directive::Finish(result),
        }
    }
}

/// A write takes few steps and repeats none: the step that follows a step
/// leaves fewer steps to follow.
pub proof fn lemma_steps_run_out(
    step: WriteStep,
    verdict: Result<(), HostsError>,
    outcome: StepOutcome,
)
    ensures
        directive_after(step, verdict, outcome) matches Directive::Perform(following)
            ==> steps_after(following) < steps_after(step),
{
}

/// Nothing is committed that was not staged: the commit is asked for only
/// after the staging succeeded, and the file is written in place only after
/// the backup was tried.
pub proof fn lemma_commit_follows_staging(
    step: WriteStep,
    verdict: Result<(), HostsError>,
    outcome: StepOutcome,
)
    ensures
        directive_after(step, verdict, outcome) == Directive::Perform(WriteStep::Commit) <==> step
            == WriteStep::Stage && outcome == StepOutcome::Succeeded,
        directive_after(step, verdict, outcome) == Directive::Perform(WriteStep::Overwrite)
            <==> step == WriteStep::Backup,
{
}

/// A write on Unix succeeds exactly where the staging succeeded and the
/// commit command exited with success; how the cleanup went does not matter.
/// Every other commit, declined or never run, is reported as cancelled or
/// denied, after the staged file was cleaned up.
pub proof fn lemma_unix_write_result(
    staged: StepOutcome,
    committed: StepOutcome,
    cleaned: StepOutcome,
)
    requires
        staged == StepOutcome::Succeeded,
    ensures
        ({
            let v0: Result<(), HostsError> = Ok(());
            let v1 = verdict_after(WriteStep::Stage, v0, staged);
            let v2 = verdict_after(WriteStep::Commit, v1, committed);
            &&& directive_after(WriteStep::Stage, v0, staged) == Directive::Perform(
                WriteStep::Commit,
            )
            &&& directive_after(WriteStep::Commit, v1, committed) == Directive::Perform(
                WriteStep::Cleanup,
            )
            &&& directive_after(WriteStep::Cleanup, v2, cleaned) == Directive::Finish(
                if committed == StepOutcome::Succeeded {
                    Ok(())
                } else {
                    Err(HostsError::PermissionDenied)
                },
            )
        }),
{
}

/// A write on Unix whose staging failed ends there, with its error: nothing
/// is committed.
pub proof fn lemma_unix_staging_failure(staged: StepOutcome)
    requires
        staged != StepOutcome::Succeeded,
    ensures
        directive_after(WriteStep::Stage, Ok(()), staged) == Directive::Finish(
            Err(HostsError::StagingFailed),
        ),
{
}

/// The elevated command is run at most once in a write: no step but the
/// staging leads to it, and only the cleanup follows it. Where it did not
/// succeed, whatever the reason, the write ends with the error that says that
/// the operation was cancelled or denied.
pub proof fn lemma_failed_commit_is_denied(
    verdict: Result<(), HostsError>,
    committed: StepOutcome,
    cleaned: StepOutcome,
)
    requires
        committed != StepOutcome::Succeeded,
    ensures
        directive_after(WriteStep::Commit, verdict, committed) == Directive::Perform(
            WriteStep::Cleanup,
        ),
        directive_after(
            WriteStep::Cleanup,
            verdict_after(WriteStep::Commit, verdict, committed),
            cleaned,
        ) == Directive::Finish(Err(HostsError::PermissionDenied)),
        forall|step: WriteStep, outcome: StepOutcome|
            #[trigger] step_after(step, outcome) == Some(WriteStep::Commit) ==> step
                == WriteStep::Stage,
{
}

/// A write on Windows succeeds exactly where the file was written in place;
/// how the backup and the flush went does not matter.
pub proof fn lemma_windows_write_result(
    backed_up: StepOutcome,
    written: StepOutcome,
    flushed: StepOutcome,
)
    ensures
        ({
            let v0: Result<(), HostsError> = Ok(());
            let v1 = verdict_after(WriteStep::Backup, v0, backed_up);
            let v2 = verdict_after(WriteStep::Overwrite, v1, written);
            &&& directive_after(WriteStep::Backup, v0, backed_up) == Directive::Perform(
                WriteStep::Overwrite,
            )
            &&& written == StepOutcome::Succeeded ==> directive_after(
                WriteStep::Overwrite,
                v1,
                written,
            ) == Directive::Perform(WriteStep::Flush) && directive_after(
                WriteStep::Flush,
                v2,
                flushed,
            ) == Directive::Finish(Ok(()))
            &&& written != StepOutcome::Succeeded ==> directive_after(
                WriteStep::Overwrite,
                v1,
                written,
            ) == Directive::Finish(Err(HostsError::WriteFailed))
        }),
{
}

} // verus!
