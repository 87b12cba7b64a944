use make_your_choice::hosts::HostsError;
use make_your_choice::platform::Platform;
use make_your_choice::writer::{Directive, PrivilegedWriter, StepOutcome, WriteStep};

const OUTCOMES: [StepOutcome; 3] =
    [StepOutcome::Succeeded, StepOutcome::Failed, StepOutcome::Unavailable];

fn run(platform: Platform, outcomes: &[StepOutcome]) -> (Vec<WriteStep>, Result<(), HostsError>) {
    let (mut writer, first) = PrivilegedWriter::begin(platform);
    let mut steps = vec![first];
    for outcome in outcomes {
        match writer.advance(*outcome) {
            Directive::Perform(step) => steps.push(step),
            Directive::Finish(result) => return (steps, result),
        }
    }
    panic!("the write did not finish");
}

#[test]
fn unix_write_stages_commits_and_cleans_up() {
    let done = StepOutcome::Succeeded;
    let (steps, result) = run(Platform::Unix, &[done, done, done]);
    assert_eq!(steps, vec![WriteStep::Stage, WriteStep::Commit, WriteStep::Cleanup]);
    assert_eq!(result, Ok(()));
}

#[test]
fn unix_write_ignores_how_cleanup_went() {
    for cleaned in OUTCOMES {
        let (_, result) =
            run(Platform::Unix, &[StepOutcome::Succeeded, StepOutcome::Succeeded, cleaned]);
        assert_eq!(result, Ok(()));
        let (steps, result) =
            run(Platform::Unix, &[StepOutcome::Succeeded, StepOutcome::Failed, cleaned]);
        assert_eq!(steps, vec![WriteStep::Stage, WriteStep::Commit, WriteStep::Cleanup]);
        assert_eq!(result, Err(HostsError::PermissionDenied));
    }
}

#[test]
fn unix_write_does_not_commit_what_was_not_staged() {
    for staged in [StepOutcome::Failed, StepOutcome::Unavailable] {
        let (steps, result) = run(Platform::Unix, &[staged]);
        assert_eq!(steps, vec![WriteStep::Stage]);
        assert_eq!(result, Err(HostsError::StagingFailed));
    }
}

#[test]
fn unix_write_without_elevation_tool_is_reported_as_denied() {
    for cleaned in OUTCOMES {
        let (steps, result) =
            run(Platform::Unix, &[StepOutcome::Succeeded, StepOutcome::Unavailable, cleaned]);
        assert_eq!(steps, vec![WriteStep::Stage, WriteStep::Commit, WriteStep::Cleanup]);
        assert_eq!(result, Err(HostsError::PermissionDenied));
        assert_eq!(
            result.unwrap_err().message("/etc/hosts"),
            "Failed to write to /etc/hosts. Operation was cancelled or permission was denied."
        );
    }
}

#[test]
fn elevated_command_runs_at_most_once() {
    for a in OUTCOMES {
        for b in OUTCOMES {
            for c in OUTCOMES {
                let (steps, _) = run(Platform::Unix, &[a, b, c]);
                assert!(steps.iter().filter(|s| **s == WriteStep::Commit).count() <= 1);
            }
        }
    }
}

#[test]
fn windows_write_backs_up_writes_and_flushes() {
    for backed_up in OUTCOMES {
        for flushed in OUTCOMES {
            let (steps, result) =
                run(Platform::Windows, &[backed_up, StepOutcome::Succeeded, flushed]);
            assert_eq!(steps, vec![WriteStep::Backup, WriteStep::Overwrite, WriteStep::Flush]);
            assert_eq!(result, Ok(()));
        }
        for written in [StepOutcome::Failed, StepOutcome::Unavailable] {
            let (steps, result) = run(Platform::Windows, &[backed_up, written]);
            assert_eq!(steps, vec![WriteStep::Backup, WriteStep::Overwrite]);
            assert_eq!(result, Err(HostsError::WriteFailed));
        }
    }
}

#[test]
fn finished_write_repeats_its_result() {
    let (mut writer, _) = PrivilegedWriter::begin(Platform::Unix);
    assert_eq!(writer.advance(StepOutcome::Failed), Directive::Finish(Err(HostsError::StagingFailed)));
    for outcome in OUTCOMES {
        assert_eq!(writer.advance(outcome), Directive::Finish(Err(HostsError::StagingFailed)));
    }
    let (mut writer, _) = PrivilegedWriter::begin(Platform::Windows);
    writer.advance(StepOutcome::Failed);
    writer.advance(StepOutcome::Succeeded);
    assert_eq!(writer.advance(StepOutcome::Failed), Directive::Finish(Ok(())));
    assert_eq!(writer.advance(StepOutcome::Failed), Directive::Finish(Ok(())));
}

#[test]
fn no_write_takes_more_than_three_steps() {
    for platform in [Platform::Unix, Platform::Windows] {
        for a in OUTCOMES {
            for b in OUTCOMES {
                for c in OUTCOMES {
                    let (steps, _) = run(platform, &[a, b, c]);
                    assert!(steps.len() <= 3);
                    for i in 0..steps.len() {
                        for j in (i + 1)..steps.len() {
                            assert_ne!(steps[i], steps[j]);
                        }
                    }
                }
            }
        }
    }
}
