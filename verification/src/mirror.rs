//! The mirror protocol: the decisions of one run that copies a source tree
//! into a destination tree, parted from the filesystem work itself.
//!
//! A run is a state machine. It names the next piece of filesystem work as a
//! [`Request`]; whoever drives it does that work and hands back what became
//! of it as a [`Reply`]. The machine never touches a filesystem, so every
//! decision of a run (what is created, what is copied, in which order, and
//! when a run gives up) is fixed by [`StageView::next`].

use crate::tree::{parent, root, RelPath};
use vstd::prelude::*;

verus! {

/// One entry that the walk of the source tree delivers: its path below the
/// source root, name by name, and whether it is a directory. Each name is
/// held as the bytes by which the platform writes it, so that a name that
/// is not Unicode is carried like any other.
#[derive(Clone, Debug, PartialEq, Eq)]
pub struct Entry {
    pub relative: Vec<Vec<u8>>,
    pub is_dir: bool,
}

/// An [`Entry`] as a mathematical value.
pub struct EntryView {
    pub relative: RelPath,
    pub is_dir: bool,
}

impl View for Entry {
    type V = EntryView;

    open spec fn view(&self) -> EntryView {
        EntryView { relative: self.relative.deep_view(), is_dir: self.is_dir }
    }
}

/// Why a run failed.
#[derive(Clone, Debug, PartialEq, Eq)]
pub enum MirrorError {
    /// The source root did not exist when the run began.
    NotFound,
    /// The filesystem refused a directory creation, a read of the walk or a
    /// copy; the text is the filesystem's own.
    IoFailure(String),
}

/// A [`MirrorError`] as a mathematical value.
pub enum Failure {
    NotFound,
    IoFailure(Seq<char>),
}

impl View for MirrorError {
    type V = Failure;

    open spec fn view(&self) -> Failure {
        match self {
            MirrorError::NotFound => Failure::NotFound,
            MirrorError::IoFailure(text) => Failure::IoFailure(text@),
        }
    }
}

/// The result of a finished run as a mathematical value.
pub open spec fn result_view(result: Result<(), MirrorError>) -> Result<(), Failure> {
    match result {
        Ok(()) => Ok(()),
        Err(error) => Err(error@),
    }
}

/// A piece of filesystem work that a run asks for. Paths are relative: the
/// source root for what is read, the destination root for what is probed,
/// created or written. Every name in them is one that an entry of the walk
/// brought, byte for byte.
#[derive(Clone, Debug, PartialEq, Eq)]
pub enum Request {
    /// Does the source root exist?
    ProbeSource,
    /// Does anything stand at this path of the destination?
    ProbeDestination(Vec<Vec<u8>>),
    /// Create a directory at this path of the destination, and each missing
    /// directory above it.
    CreateDirectories(Vec<Vec<u8>>),
    /// Deliver the next entry of the walk of the source tree.
    NextEntry,
    /// Copy the file at this path of the source to the same path of the
    /// destination, replacing what stands there.
    CopyFile(Vec<Vec<u8>>),
}

/// A [`Request`] as a mathematical value.
pub enum RequestView {
    ProbeSource,
    ProbeDestination(RelPath),
    CreateDirectories(RelPath),
    NextEntry,
    CopyFile(RelPath),
}

impl View for Request {
    type V = RequestView;

    open spec fn view(&self) -> RequestView {
        match self {
            Request::ProbeSource => RequestView::ProbeSource,
            Request::ProbeDestination(path) => RequestView::ProbeDestination(path.deep_view()),
            Request::CreateDirectories(path) => RequestView::CreateDirectories(path.deep_view()),
            Request::NextEntry => RequestView::NextEntry,
            Request::CopyFile(path) => RequestView::CopyFile(path.deep_view()),
        }
    }
}

/// What became of a piece of filesystem work.
#[derive(Clone, Debug, PartialEq, Eq)]
pub enum Reply {
    /// The answer to a probe.
    Exists(bool),
    /// A creation or a copy succeeded.
    Done,
    /// A creation, a copy or a step of the walk failed, with the
    /// filesystem's description of the failure.
    Failed(String),
    /// The walk delivered an entry.
    Entry(Entry),
    /// The walk has delivered every entry.
    WalkEnded,
}

/// A [`Reply`] as a mathematical value.
pub enum ReplyView {
    Exists(bool),
    Done,
    Failed(Seq<char>),
    Entry(EntryView),
    WalkEnded,
}

impl View for Reply {
    type V = ReplyView;

    open spec fn view(&self) -> ReplyView {
        match self {
            Reply::Exists(found) => ReplyView::Exists(*found),
            Reply::Done => ReplyView::Done,
            Reply::Failed(text) => ReplyView::Failed(text@),
            Reply::Entry(entry) => ReplyView::Entry(entry@),
            Reply::WalkEnded => ReplyView::WalkEnded,
        }
    }
}

/// Where a run stands, as a mathematical value. Each stage but the last
/// waits for the reply to one request.
pub enum StageView {
    /// Asked whether the source root exists.
    ProbingSource,
    /// Asked whether the destination has the directory at this path: the
    /// destination root at the start of a run, a directory entry of the
    /// walk later.
    ProbingDirectory(RelPath),
    /// Asked for that directory to be created.
    CreatingDirectory(RelPath),
    /// Asked for the next entry of the walk.
    Walking,
    /// Asked whether the destination has the directory that is to hold the
    /// file at this path.
    ProbingParent(RelPath),
    /// Asked for that directory to be created.
    CreatingParent(RelPath),
    /// Asked for the file at this path to be copied.
    Copying(RelPath),
    /// The run is over.
    Finished(Result<(), Failure>),
}

impl StageView {
    /// The request that the stage waits on; none once the run is over.
    pub open spec fn request(self) -> Option<RequestView> {
        match self {
            StageView::ProbingSource => Some(RequestView::ProbeSource),
            StageView::ProbingDirectory(path) => Some(RequestView::ProbeDestination(path)),
            StageView::CreatingDirectory(path) => Some(RequestView::CreateDirectories(path)),
            StageView::Walking => Some(RequestView::NextEntry),
            StageView::ProbingParent(path) => Some(RequestView::ProbeDestination(parent(path))),
            StageView::CreatingParent(path) => Some(RequestView::CreateDirectories(parent(path))),
            StageView::Copying(path) => Some(RequestView::CopyFile(path)),
            StageView::Finished(_) => None,
        }
    }

    /// The result of the run; none while it is under way.
    pub open spec fn outcome(self) -> Option<Result<(), Failure>> {
        match self {
            StageView::Finished(result) => Some(result),
            _ => None,
        }
    }

    /// `reply` is of a kind that the pending request can get: a probe is
    /// answered by `Exists`, a creation or a copy by `Done` or `Failed`, a
    /// step of the walk by `Entry`, `WalkEnded` or `Failed`. A finished run
    /// waits for nothing.
    pub open spec fn answers(self, reply: ReplyView) -> bool {
        match self {
            StageView::ProbingSource
            | StageView::ProbingDirectory(_)
            | StageView::ProbingParent(_) => reply is Exists,
            StageView::CreatingDirectory(_)
            | StageView::CreatingParent(_)
            | StageView::Copying(_) => reply is Done || reply is Failed,
            StageView::Walking => reply is Entry || reply is WalkEnded || reply is Failed,
            StageView::Finished(_) => false,
        }
    }

    /// The stage after `reply`.
    ///
    /// A missing source ends the run with `NotFound`. Any `Failed` ends it
    /// with that failure. A directory is created only where the probe found
    /// nothing. A directory entry is done once its directory is there; a
    /// file entry once the directory that holds it is there and the file is
    /// copied. An entry at the root that is no directory has nothing above
    /// it inside the tree, so its copy is asked for at once. A reply that
    /// does not answer the pending request changes nothing.
    pub open spec fn next(self, reply: ReplyView) -> StageView {
        match (self, reply) {
            (StageView::ProbingSource, ReplyView::Exists(found)) => if found {
                StageView::ProbingDirectory(root())
            } else {
                StageView::Finished(Err(Failure::NotFound))
            },
            (StageView::ProbingDirectory(path), ReplyView::Exists(found)) => if found {
                StageView::Walking
            } else {
                StageView::CreatingDirectory(path)
            },
            (StageView::CreatingDirectory(_), ReplyView::Done) => StageView::Walking,
            (StageView::Walking, ReplyView::Entry(entry)) => if entry.is_dir {
                StageView::ProbingDirectory(entry.relative)
            } else if entry.relative.len() == 0 {
                StageView::Copying(entry.relative)
            } else {
                StageView::ProbingParent(entry.relative)
            },
            (StageView::Walking, ReplyView::WalkEnded) => StageView::Finished(Ok(())),
            (StageView::ProbingParent(path), ReplyView::Exists(found)) => if found {
                StageView::Copying(path)
            } else {
                StageView::CreatingParent(path)
            },
            (StageView::CreatingParent(path), ReplyView::Done) => StageView::Copying(path),
            (StageView::Copying(_), ReplyView::Done) => StageView::Walking,
            (StageView::CreatingDirectory(_), ReplyView::Failed(text))
            | (StageView::CreatingParent(_), ReplyView::Failed(text))
            | (StageView::Copying(_), ReplyView::Failed(text))
            | (StageView::Walking, ReplyView::Failed(text)) => StageView::Finished(
                Err(Failure::IoFailure(text)),
            ),
            _ => self,
        }
    }
}

/// Where a run stands.
enum Stage {
    ProbingSource,
    ProbingDirectory(Vec<Vec<u8>>),
    CreatingDirectory(Vec<Vec<u8>>),
    Walking,
    ProbingParent(Vec<Vec<u8>>),
    CreatingParent(Vec<Vec<u8>>),
    Copying(Vec<Vec<u8>>),
    Finished(Result<(), MirrorError>),
}

impl View for Stage {
    type V = StageView;

    closed spec fn view(&self) -> StageView {
        match self {
            Stage::ProbingSource => StageView::ProbingSource,
            Stage::ProbingDirectory(path) => StageView::ProbingDirectory(path.deep_view()),
            Stage::CreatingDirectory(path) => StageView::CreatingDirectory(path.deep_view()),
            Stage::Walking => StageView::Walking,
            Stage::ProbingParent(path) => StageView::ProbingParent(path.deep_view()),
            Stage::CreatingParent(path) => StageView::CreatingParent(path.deep_view()),
            Stage::Copying(path) => StageView::Copying(path.deep_view()),
            Stage::Finished(result) => StageView::Finished(result_view(*result)),
        }
    }
}

/// A copy of `name`.
fn same_name(name: &Vec<u8>) -> (copy: Vec<u8>)
    ensures
        copy@ == name@,
{
    let mut copy: Vec<u8> = Vec::new();
    let mut done: usize = 0;
    while done < name.len()
        invariant
            done <= name.len(),
            copy@ == name@.take(done as int),
        decreases name.len() - done,
    {
        copy.push(name[done]);
        done = done + 1;
        assert(copy@ =~= name@.take(done as int));
    }
    assert(name@.take(name.len() as int) =~= name@);
    copy
}

/// The first `count` names of `path`, copied.
fn leading_names(path: &Vec<Vec<u8>>, count: usize) -> (copy: Vec<Vec<u8>>)
    requires
        count <= path.len(),
    ensures
        copy.deep_view() == path.deep_view().take(count as int),
{
    let mut copy: Vec<Vec<u8>> = Vec::new();
    let mut done: usize = 0;
    while done < count
        invariant
            done <= count <= path.len(),
            copy.len() == done,
            forall|i: int| 0 <= i < done ==> copy[i]@ == path[i]@,
        decreases count - done,
    {
        copy.push(same_name(&path[done]));
        done = done + 1;
    }
    assert(copy.deep_view() =~= path.deep_view().take(count as int));
    copy
}

/// A copy of `path`.
fn same_path(path: &Vec<Vec<u8>>) -> (copy: Vec<Vec<u8>>)
    ensures
        copy.deep_view() == path.deep_view(),
{
    let copy = leading_names(path, path.len());
    assert(path.deep_view().take(path.len() as int) =~= path.deep_view());
    copy
}

/// The path one level above `path`.
fn parent_path(path: &Vec<Vec<u8>>) -> (up: Vec<Vec<u8>>)
    ensures
        up.deep_view() == parent(path.deep_view()),
{
    if path.len() > 0 {
        leading_names(path, path.len() - 1)
    } else {
        same_path(path)
    }
}

/// One run of the mirror protocol.
pub struct Mirror {
    stage: Stage,
}

impl View for Mirror {
    type V = StageView;

    closed spec fn view(&self) -> StageView {
        self.stage@
    }
}

impl Mirror {
    /// A run at its start: it asks first whether the source root exists.
    pub fn new() -> (run: Mirror)
        ensures
            run@ == StageView::ProbingSource,
    {
        Mirror { stage: Stage::ProbingSource }
    }

    /// The filesystem work that the run waits on, or `None` once it is
    /// over.
    pub fn request(&self) -> (request: Option<Request>)
        ensures
            match request {
                Some(asked) => self@.request() == Some(asked@),
                None => self@.request() is None,
            },
    {
        match &self.stage {
            Stage::ProbingSource => Some(Request::ProbeSource),
            Stage::ProbingDirectory(path) => Some(Request::ProbeDestination(same_path(path))),
            Stage::CreatingDirectory(path) => Some(Request::CreateDirectories(same_path(path))),
            Stage::Walking => Some(Request::NextEntry),
            Stage::ProbingParent(path) => Some(Request::ProbeDestination(parent_path(path))),
            Stage::CreatingParent(path) => Some(Request::CreateDirectories(parent_path(path))),
            Stage::Copying(path) => Some(Request::CopyFile(same_path(path))),
            Stage::Finished(_) => None,
        }
    }

    /// The result of the run, or `None` while it is under way.
    pub fn outcome(&self) -> (outcome: Option<Result<(), MirrorError>>)
        ensures
            match outcome {
                Some(result) => self@.outcome() == Some(result_view(result)),
                None => self@.outcome() is None,
            },
    {
        match &self.stage {
            Stage::Finished(Ok(())) => Some(Ok(())),
            Stage::Finished(Err(MirrorError::NotFound)) => Some(Err(MirrorError::NotFound)),
            Stage::Finished(Err(MirrorError::IoFailure(text))) => Some(
                Err(MirrorError::IoFailure(text.clone())),
            ),
            _ => None,
        }
    }

    /// Takes in what became of the pending request and moves the run on.
    pub fn advance(&mut self, reply: Reply)
        ensures
            final(self)@ == old(self)@.next(reply@),
    {
        let next: Option<Stage> = match reply {
            Reply::Exists(found) => match &self.stage {
                Stage::ProbingSource => if found {
                    let top: Vec<Vec<u8>> = Vec::new();
                    assert(top.deep_view() =~= root());
                    Some(Stage::ProbingDirectory(top))
                } else {
                    Some(Stage::Finished(Err(MirrorError::NotFound)))
                },
                Stage::ProbingDirectory(path) => if found {
                    Some(Stage::Walking)
                } else {
                    Some(Stage::CreatingDirectory(same_path(path)))
                },
                Stage::ProbingParent(path) => if found {
                    Some(Stage::Copying(same_path(path)))
                } else {
                    Some(Stage::CreatingParent(same_path(path)))
                },
                _ => None,
            },
            Reply::Done => match &self.stage {
                Stage::CreatingDirectory(_) | Stage::Copying(_) => Some(Stage::Walking),
                Stage::CreatingParent(path) => Some(Stage::Copying(same_path(path))),
                _ => None,
            },
            Reply::Failed(text) => match &self.stage {
                Stage::CreatingDirectory(_)
                | Stage::CreatingParent(_)
                | Stage::Copying(_)
                | Stage::Walking => Some(Stage::Finished(Err(MirrorError::IoFailure(text)))),
                _ => None,
            },
            Reply::Entry(entry) => match &self.stage {
                Stage::Walking => if entry.is_dir {
                    Some(Stage::ProbingDirectory(entry.relative))
                } else if entry.relative.len() == 0 {
                    Some(Stage::Copying(entry.relative))
                } else {
                    Some(Stage::ProbingParent(entry.relative))
                },
                _ => None,
            },
            Reply::WalkEnded => match &self.stage {
                Stage::Walking => Some(Stage::Finished(Ok(()))),
                _ => None,
            },
        };
        if let Some(stage) = next {
            self.stage = stage;
        }
    }
}

} // verus!
