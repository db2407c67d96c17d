//! A model of the filesystem that a mirror run works against.
//!
//! The model answers each request of a run as an ideal filesystem would: a
//! probe by what is there, a creation or a copy by doing it where it can be
//! done, a step of the walk by the next entry. Joined to the protocol it
//! gives whole runs, of which the laws of this library speak.

use crate::mirror::{EntryView, ReplyView, RequestView, StageView};
use crate::tree::{
    can_copy, can_create_dirs, copy_file, create_dirs, exists_at, is_dir_at, root, RelPath, Tree,
};
use vstd::prelude::*;

verus! {

/// What a run works against.
pub struct World {
    /// The tree below the source root; without the root where the source
    /// does not exist.
    pub source: Tree,
    /// The paths that the walk of the source has yet to deliver, in order.
    pub walk: Seq<RelPath>,
    /// The tree below the destination root; without the root where the
    /// destination does not exist.
    pub destination: Tree,
    /// The text with which this filesystem describes a refusal.
    pub complaint: Seq<char>,
}

impl World {
    /// The same world with another destination tree.
    pub open spec fn with_destination(self, destination: Tree) -> World {
        World { destination, ..self }
    }

    /// What the filesystem hands back for `request`.
    pub open spec fn reply(self, request: RequestView) -> ReplyView {
        match request {
            RequestView::ProbeSource => ReplyView::Exists(exists_at(self.source, root())),
            RequestView::ProbeDestination(path) => ReplyView::Exists(
                exists_at(self.destination, path),
            ),
            RequestView::CreateDirectories(path) => if can_create_dirs(self.destination, path) {
                ReplyView::Done
            } else {
                ReplyView::Failed(self.complaint)
            },
            RequestView::NextEntry => if self.walk.len() == 0 {
                ReplyView::WalkEnded
            } else {
                ReplyView::Entry(
                    EntryView {
                        relative: self.walk[0],
                        is_dir: is_dir_at(self.source, self.walk[0]),
                    },
                )
            },
            RequestView::CopyFile(path) => if can_copy(self.source, self.destination, path) {
                ReplyView::Done
            } else {
                ReplyView::Failed(self.complaint)
            },
        }
    }

    /// The world once `request` has been served. Only a creation or a copy
    /// that succeeds changes the destination; only a step of the walk
    /// shortens the walk; nothing changes the source.
    pub open spec fn serve(self, request: RequestView) -> World {
        match request {
            RequestView::CreateDirectories(path) => if can_create_dirs(self.destination, path) {
                self.with_destination(create_dirs(self.destination, path))
            } else {
                self
            },
            RequestView::NextEntry => if self.walk.len() == 0 {
                self
            } else {
                World { walk: self.walk.skip(1), ..self }
            },
            RequestView::CopyFile(path) => if can_copy(self.source, self.destination, path) {
                self.with_destination(copy_file(self.source, self.destination, path))
            } else {
                self
            },
            _ => self,
        }
    }
}

/// A run under way in a world.
pub struct Run {
    pub stage: StageView,
    pub world: World,
}

impl Run {
    /// The run after its pending request has been served and the reply
    /// taken in. A finished run stays as it is.
    pub open spec fn step(self) -> Run {
        match self.stage.request() {
            Some(request) => Run {
                stage: self.stage.next(self.world.reply(request)),
                world: self.world.serve(request),
            },
            None => self,
        }
    }

    /// The run after `count` steps.
    pub open spec fn steps(self, count: nat) -> Run
        decreases count,
    {
        if count == 0 {
            self
        } else {
            self.step().steps((count - 1) as nat)
        }
    }

    /// The pending request is a copy, and the filesystem makes it.
    pub open spec fn copies_now(self) -> bool {
        self.stage matches StageView::Copying(path) && can_copy(
            self.world.source,
            self.world.destination,
            path,
        )
    }

    /// The number of copies that the filesystem makes in the next `count`
    /// steps of the run.
    pub open spec fn copies(self, count: nat) -> nat
        decreases count,
    {
        if count == 0 {
            0
        } else if self.copies_now() {
            1 + self.step().copies((count - 1) as nat)
        } else {
            self.step().copies((count - 1) as nat)
        }
    }

    /// A bound on the steps that the run still takes.
    pub open spec fn steps_left(self) -> nat {
        match self.stage {
            StageView::ProbingSource => 4 * self.world.walk.len() + 4,
            StageView::ProbingDirectory(_) => 4 * self.world.walk.len() + 3,
            StageView::CreatingDirectory(_) => 4 * self.world.walk.len() + 2,
            StageView::Walking => 4 * self.world.walk.len() + 1,
            StageView::ProbingParent(_) => 4 * self.world.walk.len() + 4,
            StageView::CreatingParent(_) => 4 * self.world.walk.len() + 3,
            StageView::Copying(_) => 4 * self.world.walk.len() + 2,
            StageView::Finished(_) => 0,
        }
    }
}

/// A run at its start in `world`.
pub open spec fn start(world: World) -> Run {
    Run { stage: StageView::ProbingSource, world }
}

/// The whole run in `world`: the run after as many steps as any run in it
/// can take.
pub open spec fn mirrored(world: World) -> Run {
    start(world).steps(start(world).steps_left())
}

} // verus!
