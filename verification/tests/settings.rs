//! The settings, the command surface and the scheduler's plan.

use folder_sync::command::{
    select_folder, set_polling_frequency, start_monitoring, stop_monitoring, sync_folders,
    sync_report,
};
use folder_sync::mirror::{MirrorError, Request};
use folder_sync::scheduler::{plan_cycle, IDLE_WAIT_SECONDS};
use folder_sync::state::{SyncState, DEFAULT_POLL_INTERVAL_SECONDS};

fn configured() -> SyncState {
    let mut state = SyncState::new();
    state.set_source("/data/in".to_string());
    state.set_destination("/data/out".to_string());
    state
}

#[test]
fn settings_start_with_defaults() {
    let state = SyncState::new();
    assert_eq!(state.get_snapshot(), (false, 5, String::new(), String::new()));
    assert_eq!(DEFAULT_POLL_INTERVAL_SECONDS, 5);
}

#[test]
fn each_setter_changes_one_setting() {
    let mut state = SyncState::new();
    state.set_monitoring(true);
    assert_eq!(state.get_snapshot(), (true, 5, String::new(), String::new()));
    state.set_poll_interval(30);
    assert_eq!(state.get_snapshot(), (true, 30, String::new(), String::new()));
    state.set_source("in".to_string());
    assert_eq!(state.get_snapshot(), (true, 30, "in".to_string(), String::new()));
    state.set_destination("out".to_string());
    assert_eq!(state.get_snapshot(), (true, 30, "in".to_string(), "out".to_string()));
    state.set_monitoring(false);
    assert_eq!(state.get_snapshot(), (false, 30, "in".to_string(), "out".to_string()));
}

#[test]
fn start_and_stop_monitoring_set_the_flag() {
    let mut state = configured();
    assert_eq!(start_monitoring(&mut state), Ok(()));
    assert_eq!(state.get_snapshot(), (true, 5, "/data/in".to_string(), "/data/out".to_string()));
    assert_eq!(start_monitoring(&mut state), Ok(()));
    assert!(state.get_snapshot().0);
    assert_eq!(stop_monitoring(&mut state), Ok(()));
    assert_eq!(state.get_snapshot(), (false, 5, "/data/in".to_string(), "/data/out".to_string()));
}

#[test]
fn polling_frequency_is_set() {
    let mut state = configured();
    assert_eq!(set_polling_frequency(42, &mut state), Ok(()));
    assert_eq!(state.get_snapshot(), (false, 42, "/data/in".to_string(), "/data/out".to_string()));
    assert_eq!(set_polling_frequency(0, &mut state), Ok(()));
    assert_eq!(state.get_snapshot().1, 0);
    assert_eq!(set_polling_frequency(u64::MAX, &mut state), Ok(()));
    assert_eq!(state.get_snapshot().1, u64::MAX);
}

#[test]
fn sync_folders_records_the_folders_and_begins_a_run() {
    let mut state = SyncState::new();
    state.set_monitoring(true);
    state.set_poll_interval(9);
    let run = sync_folders("src".to_string(), "dst".to_string(), &mut state);
    assert_eq!(state.get_snapshot(), (true, 9, "src".to_string(), "dst".to_string()));
    assert!(matches!(run.request(), Some(Request::ProbeSource)));
    assert!(run.outcome().is_none());
}

#[test]
fn sync_report_describes_the_failure() {
    assert_eq!(sync_report(Ok(())), Ok(()));
    assert_eq!(
        sync_report(Err(MirrorError::NotFound)),
        Err("Source folder does not exist".to_string())
    );
    assert_eq!(
        sync_report(Err(MirrorError::IoFailure("Permission denied (os error 13)".to_string()))),
        Err("Permission denied (os error 13)".to_string())
    );
}

#[test]
fn select_folder_without_a_choice_gives_the_empty_path() {
    assert_eq!(select_folder(None), Ok(String::new()));
}

#[test]
fn select_folder_gives_the_path_that_was_picked() {
    assert_eq!(
        select_folder(Some("/home/me/photos".to_string())),
        Ok("/home/me/photos".to_string())
    );
    assert_eq!(select_folder(Some("relative dir".to_string())), Ok("relative dir".to_string()));
    assert_eq!(select_folder(Some(String::new())), Ok(String::new()));
}

#[test]
fn select_folder_leaves_the_settings_alone() {
    let state = configured();
    let before = state.get_snapshot();
    assert_eq!(select_folder(Some("/elsewhere".to_string())), Ok("/elsewhere".to_string()));
    assert_eq!(state.get_snapshot(), before);
}

#[test]
fn idle_cycle_waits_one_second_and_mirrors_nothing() {
    let mut state = configured();
    state.set_poll_interval(600);
    let cycle = plan_cycle(&state);
    assert!(cycle.job.is_none());
    assert_eq!(cycle.wait_seconds, 1);
    assert_eq!(IDLE_WAIT_SECONDS, 1);
}

#[test]
fn active_cycle_mirrors_and_waits_the_interval() {
    let mut state = configured();
    state.set_monitoring(true);
    let cycle = plan_cycle(&state);
    let job = cycle.job.unwrap();
    assert_eq!(job.source, "/data/in");
    assert_eq!(job.destination, "/data/out");
    assert_eq!(cycle.wait_seconds, 5);
    state.set_poll_interval(1);
    assert_eq!(plan_cycle(&state).wait_seconds, 1);
    state.set_poll_interval(0);
    assert_eq!(plan_cycle(&state).wait_seconds, 0);
}

#[test]
fn cycle_without_source_mirrors_nothing() {
    let mut state = SyncState::new();
    state.set_monitoring(true);
    state.set_destination("/data/out".to_string());
    state.set_poll_interval(7);
    let cycle = plan_cycle(&state);
    assert!(cycle.job.is_none());
    assert_eq!(cycle.wait_seconds, 7);
}

#[test]
fn cycle_without_destination_mirrors_nothing() {
    let mut state = SyncState::new();
    state.set_monitoring(true);
    state.set_source("/data/in".to_string());
    let cycle = plan_cycle(&state);
    assert!(cycle.job.is_none());
    assert_eq!(cycle.wait_seconds, 5);
}

#[test]
fn cycle_without_folders_mirrors_nothing() {
    let mut state = SyncState::new();
    state.set_monitoring(true);
    assert!(plan_cycle(&state).job.is_none());
    state.set_monitoring(false);
    assert!(plan_cycle(&state).job.is_none());
}

#[test]
fn stopping_ends_the_mirrors_of_later_cycles() {
    let mut state = configured();
    start_monitoring(&mut state).unwrap();
    assert!(plan_cycle(&state).job.is_some());
    assert!(plan_cycle(&state).job.is_some());
    stop_monitoring(&mut state).unwrap();
    assert!(plan_cycle(&state).job.is_none());
    assert_eq!(plan_cycle(&state).wait_seconds, 1);
    start_monitoring(&mut state).unwrap();
    assert!(plan_cycle(&state).job.is_some());
}

#[test]
fn cycle_follows_the_folders_of_the_latest_sync() {
    let mut state = configured();
    start_monitoring(&mut state).unwrap();
    let _run = sync_folders("other/in".to_string(), "other/out".to_string(), &mut state);
    let job = plan_cycle(&state).job.unwrap();
    assert_eq!(job.source, "other/in");
    assert_eq!(job.destination, "other/out");
}
