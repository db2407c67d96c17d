//! The operations that the graphical shell invokes.

use crate::mirror::{Failure, Mirror, MirrorError, StageView};
use crate::state::{Settings, SyncState};
use vstd::prelude::*;

verus! {

/// The text with which a failure is reported to the shell.
pub open spec fn failure_text(failure: Failure) -> Seq<char> {
    match failure {
        Failure::NotFound => "Source folder does not exist"@,
        Failure::IoFailure(text) => text,
    }
}

/// What the shell is told of a folder picker that has closed: the path
/// that was picked, or the empty path where the user picked none. `choice`
/// is what the picker yielded. Always succeeds, and touches neither the
/// settings nor any file.
pub fn select_folder(choice: Option<String>) -> (picked: Result<String, String>)
    ensures
        picked matches Ok(path) && path@ == (match choice {
            Some(chosen) => chosen@,
            None => Seq::<char>::empty(),
        }),
{
    match choice {
        Some(chosen) => Ok(chosen),
        None => Ok(String::new()),
    }
}

/// Begins a mirror on request: records the two folders in the settings and
/// hands out a run at its start, for the caller to drive from `source` into
/// `destination`.
pub fn sync_folders(source: String, destination: String, state: &mut SyncState) -> (run: Mirror)
    ensures
        final(state)@ == (Settings {
            source: source@,
            destination: destination@,
            ..old(state)@
        }),
        run@ == StageView::ProbingSource,
{
    state.set_source(source);
    state.set_destination(destination);
    Mirror::new()
}

/// What the shell is told of a mirror that it asked for: success, or the
/// description of the failure.
pub fn sync_report(outcome: Result<(), MirrorError>) -> (report: Result<(), String>)
    ensures
        match outcome {
            Ok(()) => report is Ok,
            Err(error) => report matches Err(text) && text@ == failure_text(error@),
        },
{
    match outcome {
        Ok(()) => Ok(()),
        Err(MirrorError::NotFound) => Err("Source folder does not exist".to_owned()),
        Err(MirrorError::IoFailure(text)) => Err(text),
    }
}

/// Switches monitoring on. Always succeeds.
pub fn start_monitoring(state: &mut SyncState) -> (done: Result<(), String>)
    ensures
        done is Ok,
        final(state)@ == (Settings { monitoring: true, ..old(state)@ }),
{
    state.set_monitoring(true);
    Ok(())
}

/// Switches monitoring off. Always succeeds.
pub fn stop_monitoring(state: &mut SyncState) -> (done: Result<(), String>)
    ensures
        done is Ok,
        final(state)@ == (Settings { monitoring: false, ..old(state)@ }),
{
    state.set_monitoring(false);
    Ok(())
}

/// Sets the interval of the scheduler, in seconds. Always succeeds.
pub fn set_polling_frequency(frequency: u64, state: &mut SyncState) -> (done: Result<(), String>)
    ensures
        done is Ok,
        final(state)@ == (Settings { interval: frequency, ..old(state)@ }),
{
    state.set_poll_interval(frequency);
    Ok(())
}

} // verus!
