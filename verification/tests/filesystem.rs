//! The mirror protocol, driven against real directories.

use folder_sync::command::{set_polling_frequency, start_monitoring, sync_folders, sync_report};
use folder_sync::mirror::{Entry, Mirror, MirrorError, Reply, Request};
use folder_sync::scheduler::plan_cycle;
use folder_sync::state::SyncState;
use std::path::{Path, PathBuf};
use tokio::fs;
use walkdir::WalkDir;

fn below(root: &Path, relative: &[Vec<u8>]) -> PathBuf {
    let names: PathBuf =
        relative.iter().map(|name| String::from_utf8(name.clone()).unwrap()).collect();
    root.join(names)
}

fn names(relative: &Path) -> Vec<Vec<u8>> {
    relative
        .components()
        .map(|component| component.as_os_str().as_encoded_bytes().to_vec())
        .collect()
}

fn report(done: std::io::Result<()>) -> Reply {
    match done {
        Ok(()) => Reply::Done,
        Err(error) => Reply::Failed(error.to_string()),
    }
}

async fn drive(mut run: Mirror, source: &Path, destination: &Path) -> Result<(), MirrorError> {
    let mut walk = WalkDir::new(source).into_iter();
    while let Some(request) = run.request() {
        let reply = match request {
            Request::ProbeSource => Reply::Exists(source.exists()),
            Request::ProbeDestination(relative) => {
                Reply::Exists(below(destination, &relative).exists())
            }
            Request::CreateDirectories(relative) => {
                report(fs::create_dir_all(below(destination, &relative)).await)
            }
            Request::NextEntry => match walk.next() {
                None => Reply::WalkEnded,
                Some(Err(error)) => Reply::Failed(std::io::Error::from(error).to_string()),
                Some(Ok(entry)) => Reply::Entry(Entry {
                    relative: names(entry.path().strip_prefix(source).unwrap()),
                    is_dir: entry.path().is_dir(),
                }),
            },
            Request::CopyFile(relative) => report(
                fs::copy(below(source, &relative), below(destination, &relative))
                    .await
                    .map(|_| ()),
            ),
        };
        run.advance(reply);
    }
    run.outcome().unwrap()
}

fn mirror(source: &Path, destination: &Path) -> Result<(), MirrorError> {
    let runtime = tokio::runtime::Runtime::new().unwrap();
    runtime.block_on(drive(Mirror::new(), source, destination))
}

fn write(at: PathBuf, content: &str) {
    let runtime = tokio::runtime::Runtime::new().unwrap();
    runtime.block_on(async {
        fs::create_dir_all(at.parent().unwrap()).await.unwrap();
        fs::write(&at, content).await.unwrap();
    });
}

fn read(at: PathBuf) -> String {
    let runtime = tokio::runtime::Runtime::new().unwrap();
    runtime.block_on(fs::read_to_string(&at)).unwrap()
}

/// The paths below `root`, relative to it and sorted, the root itself left
/// out.
fn listing(root: &Path) -> Vec<PathBuf> {
    let mut found: Vec<PathBuf> = WalkDir::new(root)
        .min_depth(1)
        .into_iter()
        .map(|entry| entry.unwrap().path().strip_prefix(root).unwrap().to_path_buf())
        .collect();
    found.sort();
    found
}

fn sample_source(root: &Path) -> PathBuf {
    let source = root.join("source");
    write(source.join("a.txt"), "hello");
    write(source.join("sub").join("b.txt"), "world");
    source
}

#[test]
fn real_tree_is_mirrored_into_an_empty_directory() {
    let scratch = tempfile::tempdir().unwrap();
    let source = sample_source(scratch.path());
    let destination = tempfile::tempdir().unwrap();
    assert!(mirror(&source, destination.path()).is_ok());
    assert_eq!(read(destination.path().join("a.txt")), "hello");
    assert_eq!(read(destination.path().join("sub").join("b.txt")), "world");
    assert!(destination.path().join("sub").is_dir());
    assert_eq!(listing(destination.path()), listing(&source));
    assert_eq!(
        listing(destination.path()),
        vec![PathBuf::from("a.txt"), PathBuf::from("sub"), PathBuf::from("sub").join("b.txt")]
    );
}

#[test]
fn real_missing_destination_is_created_with_its_ancestors() {
    let scratch = tempfile::tempdir().unwrap();
    let source = sample_source(scratch.path());
    let destination = scratch.path().join("not").join("yet").join("there");
    assert!(!scratch.path().join("not").exists());
    assert!(mirror(&source, &destination).is_ok());
    assert!(destination.is_dir());
    assert_eq!(read(destination.join("a.txt")), "hello");
    assert_eq!(read(destination.join("sub").join("b.txt")), "world");
}

#[test]
fn real_missing_source_is_not_found() {
    let scratch = tempfile::tempdir().unwrap();
    let destination = scratch.path().join("destination");
    write(destination.join("keep.txt"), "mine");
    let outcome = mirror(&scratch.path().join("nowhere"), &destination);
    assert!(matches!(outcome, Err(MirrorError::NotFound)));
    assert_eq!(listing(&destination), vec![PathBuf::from("keep.txt")]);
    assert_eq!(read(destination.join("keep.txt")), "mine");
    assert_eq!(sync_report(outcome), Err("Source folder does not exist".to_string()));
}

#[test]
fn real_missing_source_creates_no_destination() {
    let scratch = tempfile::tempdir().unwrap();
    let destination = scratch.path().join("destination");
    let outcome = mirror(&scratch.path().join("nowhere"), &destination);
    assert!(matches!(outcome, Err(MirrorError::NotFound)));
    assert!(!destination.exists());
}

#[test]
fn real_second_mirror_leaves_the_same_tree() {
    let scratch = tempfile::tempdir().unwrap();
    let source = sample_source(scratch.path());
    let destination = scratch.path().join("destination");
    assert!(mirror(&source, &destination).is_ok());
    let first = listing(&destination);
    assert!(mirror(&source, &destination).is_ok());
    assert_eq!(listing(&destination), first);
    assert_eq!(read(destination.join("a.txt")), "hello");
    assert_eq!(read(destination.join("sub").join("b.txt")), "world");
}

#[test]
fn real_files_of_the_destination_alone_are_kept() {
    let scratch = tempfile::tempdir().unwrap();
    let source = sample_source(scratch.path());
    let destination = scratch.path().join("destination");
    write(destination.join("keep.txt"), "mine");
    write(destination.join("sub").join("older.txt"), "older");
    write(destination.join("a.txt"), "stale");
    assert!(mirror(&source, &destination).is_ok());
    assert_eq!(read(destination.join("keep.txt")), "mine");
    assert_eq!(read(destination.join("sub").join("older.txt")), "older");
    assert_eq!(read(destination.join("a.txt")), "hello");
    assert_eq!(listing(&destination).len(), 5);
}

#[test]
fn real_file_in_the_way_of_a_directory_is_reported() {
    let scratch = tempfile::tempdir().unwrap();
    let source = sample_source(scratch.path());
    let destination = scratch.path().join("destination");
    write(destination.join("sub"), "not a directory");
    match mirror(&source, &destination) {
        Err(MirrorError::IoFailure(text)) => assert!(!text.is_empty()),
        _ => panic!("a copy below a file must fail"),
    }
    assert_eq!(read(destination.join("sub")), "not a directory");
}

#[test]
fn real_source_that_is_a_file_is_refused() {
    let scratch = tempfile::tempdir().unwrap();
    let source = scratch.path().join("alone.txt");
    write(source.clone(), "alone");
    let destination = scratch.path().join("destination");
    assert!(matches!(mirror(&source, &destination), Err(MirrorError::IoFailure(_))));
    assert!(destination.is_dir());
    assert!(listing(&destination).is_empty());
}

#[test]
fn real_change_reaches_the_destination_with_the_next_cycle() {
    let scratch = tempfile::tempdir().unwrap();
    let source = sample_source(scratch.path());
    let destination = scratch.path().join("destination");
    let mut state = SyncState::new();
    set_polling_frequency(1, &mut state).unwrap();
    let run = sync_folders(
        source.to_str().unwrap().to_string(),
        destination.to_str().unwrap().to_string(),
        &mut state,
    );
    let runtime = tokio::runtime::Runtime::new().unwrap();
    assert!(runtime.block_on(drive(run, &source, &destination)).is_ok());
    assert_eq!(read(destination.join("a.txt")), "hello");
    start_monitoring(&mut state).unwrap();

    write(source.join("a.txt"), "hello again");
    let cycle = plan_cycle(&state);
    assert_eq!(cycle.wait_seconds, 1);
    let job = cycle.job.unwrap();
    assert!(mirror(Path::new(&job.source), Path::new(&job.destination)).is_ok());
    assert_eq!(read(destination.join("a.txt")), "hello again");
    assert_eq!(read(destination.join("sub").join("b.txt")), "world");
}
