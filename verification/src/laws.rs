//! What a mirror run achieves, proved of every run in every world.
//!
//! The laws speak of the protocol of [`crate::mirror`] served by the
//! filesystem of [`crate::world`]. Each is a proof function: its `requires`
//! says of which runs it speaks, its `ensures` what holds of them.
//!
//! That filesystem is an ideal one. It refuses a creation or a copy only
//! for what stands in the way, never for want of permission or of space,
//! and its walk never fails. What a run does when a real filesystem refuses
//! for such a reason is fixed by the protocol itself: the run ends with
//! that failure and asks for nothing more.

use crate::mirror::{Failure, ReplyView, RequestView, StageView};
use crate::tree::{
    can_copy, can_create_dirs, copy_file, create_dirs, exists_at, is_dir_at, is_file_at,
    lemma_ancestors_are_directories, overlay, parent, root, same_kinds, well_formed, RelPath, Tree,
};
use crate::world::{mirrored, start, Run, World};
use vstd::prelude::*;

verus! {

/// Nothing that stood in `before` is missing in `after`, and what stands
/// there is as it was, or is the file that `source` has at that path.
pub open spec fn kept(source: Tree, before: Tree, after: Tree) -> bool {
    forall|path: RelPath| #[trigger]
        before.dom().contains(path) ==> {
            &&& after.dom().contains(path)
            &&& {
                ||| after[path] == before[path]
                ||| is_file_at(source, path) && after[path] == source[path]
            }
        }
}

/// Whatever stands in `after` stood in `before` just so, or is the file
/// that `source` has at that path, or is a directory where `before` had
/// nothing.
pub open spec fn grown(source: Tree, before: Tree, after: Tree) -> bool {
    forall|path: RelPath| #[trigger]
        after.dom().contains(path) ==> {
            ||| before.dom().contains(path) && after[path] == before[path]
            ||| is_file_at(source, path) && after[path] == source[path]
            ||| !before.dom().contains(path) && after[path] is Directory
        }
}

/// Once a run has reached the walk the destination root exists, and when a
/// copy is pending something stands where the file's directory is to be.
pub open spec fn grounded(run: Run) -> bool {
    match run.stage {
        StageView::ProbingSource | StageView::Finished(_) => true,
        StageView::ProbingDirectory(path) | StageView::CreatingDirectory(path) => {
            path != root() ==> exists_at(run.world.destination, root())
        },
        StageView::Walking | StageView::ProbingParent(_) | StageView::CreatingParent(_) => {
            exists_at(run.world.destination, root())
        },
        StageView::Copying(path) => {
            &&& exists_at(run.world.destination, root())
            &&& exists_at(run.world.destination, parent(path))
        },
    }
}

/// The walk delivers every path of the source, and nothing else.
pub open spec fn complete_walk(walk: Seq<RelPath>, source: Tree) -> bool {
    &&& forall|path: RelPath| #[trigger] source.dom().contains(path) ==> walk.contains(path)
    &&& forall|i: int| 0 <= i < walk.len() ==> source.dom().contains(#[trigger] walk[i])
}

/// The number of entries of `walk` that are not directories of `source`,
/// each counted as often as the walk delivers it.
pub open spec fn files_delivered(walk: Seq<RelPath>, source: Tree) -> nat
    decreases walk.len(),
{
    if walk.len() == 0 {
        0
    } else if is_dir_at(source, walk[0]) {
        files_delivered(walk.skip(1), source)
    } else {
        1 + files_delivered(walk.skip(1), source)
    }
}

/// `path` stands in the destination as a run leaves an entry that it has
/// handled: a directory of the source has something at its place, and a
/// file of the source has been copied and could be copied again.
pub open spec fn settled(source: Tree, destination: Tree, path: RelPath) -> bool {
    if is_dir_at(source, path) {
        exists_at(destination, path)
    } else {
        &&& can_copy(source, destination, path)
        &&& exists_at(destination, path)
        &&& destination[path] == source[path]
    }
}

/// What holds of the destination `now` between two entries of a run that
/// began on `before`: it has grown out of `before` by paths of the source
/// alone, it is of the source's kind wherever both have a path, and every
/// path of the source that `walk` no longer holds is in it as the source
/// has it.
spec fn on_the_way(source: Tree, before: Tree, now: Tree, walk: Seq<RelPath>) -> bool {
    &&& forall|path: RelPath| #[trigger]
        now.dom().contains(path) ==> before.dom().contains(path) || source.dom().contains(path)
    &&& forall|path: RelPath| #[trigger] before.dom().contains(path) ==> now.dom().contains(path)
    &&& forall|path: RelPath| #[trigger]
        now.dom().contains(path) && !source.dom().contains(path) ==> now[path] == before[path]
    &&& same_kinds(now, source)
    &&& forall|path: RelPath| #[trigger]
        source.dom().contains(path) && !walk.contains(path) ==> {
            &&& now.dom().contains(path)
            &&& now[path] == source[path]
        }
    &&& forall|i: int| 0 <= i < walk.len() ==> source.dom().contains(#[trigger] walk[i])
}

proof fn lemma_steps_add(run: Run, first: nat, then: nat)
    ensures
        run.steps(first + then) == run.steps(first).steps(then),
    decreases first,
{
    if first > 0 {
        lemma_steps_add(run.step(), (first - 1) as nat, then);
    }
}

proof fn lemma_finished_stays(run: Run, count: nat)
    requires
        run.stage is Finished,
    ensures
        run.steps(count) == run,
    decreases count,
{
    if count > 0 {
        assert(run.step() == run);
        lemma_finished_stays(run, (count - 1) as nat);
    }
}

proof fn lemma_copies_add(run: Run, first: nat, then: nat)
    ensures
        run.copies(first + then) == run.copies(first) + run.steps(first).copies(then),
    decreases first,
{
    if first > 0 {
        lemma_copies_add(run.step(), (first - 1) as nat, then);
    }
}

proof fn lemma_finished_copies_nothing(run: Run, count: nat)
    requires
        run.stage is Finished,
    ensures
        run.copies(count) == 0,
    decreases count,
{
    if count > 0 {
        assert(run.step() == run);
        lemma_finished_copies_nothing(run, (count - 1) as nat);
    }
}

/// What one step leaves as it is.
proof fn lemma_step_preserves(run: Run)
    ensures
        run.step().world.source == run.world.source,
        run.step().world.complaint == run.world.complaint,
        kept(run.world.source, run.world.destination, run.step().world.destination),
        grown(run.world.source, run.world.destination, run.step().world.destination),
        grounded(run) ==> grounded(run.step()),
        forall|path: RelPath|
            settled(run.world.source, run.world.destination, path) ==> #[trigger] settled(
                run.world.source,
                run.step().world.destination,
                path,
            ),
{
    match run.stage {
        StageView::CreatingDirectory(path) => {
            assert(root().is_prefix_of(path));
        },
        StageView::CreatingParent(path) => {
            assert(root().is_prefix_of(parent(path)));
            assert(parent(path).is_prefix_of(parent(path)));
        },
        StageView::Walking => {
            if run.world.walk.len() > 0 && run.world.walk[0].len() == 0 {
                assert(run.world.walk[0] =~= root());
            }
        },
        _ => {},
    }
}

/// The filesystem never gives a reply that the run ignores: whatever a run
/// asks for, the reply is one that answers the request.
pub proof fn law_every_reply_answers(run: Run)
    ensures
        match run.stage.request() {
            Some(request) => run.stage.answers(run.world.reply(request)),
            None => run.stage is Finished,
        },
{
}

/// A reply that does not answer the pending request leaves the run where
/// it stands.
pub proof fn law_stray_reply_is_ignored(stage: StageView, reply: ReplyView)
    requires
        !stage.answers(reply),
    ensures
        stage.next(reply) == stage,
{
}

/// Every run ends: after as many steps as `steps_left` allows, and after
/// any number beyond, the run is finished. A whole run over a walk of `n`
/// entries thus makes at most `4 * n + 4` requests.
pub proof fn law_every_run_ends(run: Run, count: nat)
    requires
        count >= run.steps_left(),
    ensures
        run.steps(count).stage is Finished,
    decreases count,
{
    if count > 0 {
        if run.stage is Finished {
            assert(run.step() == run);
        }
        law_every_run_ends(run.step(), (count - 1) as nat);
    }
}

/// A run only adds and overwrites. At every point of every run, failed or
/// not, each path that the destination had at the start is still there; it
/// holds what it held, unless the source has a file at that very path, in
/// which case it may hold that file instead. What the source does not have
/// is never touched. And whatever the destination has gained is a file of
/// the source at its own path, or a new directory.
pub proof fn law_nothing_is_lost(run: Run, count: nat)
    ensures
        run.steps(count).world.source == run.world.source,
        kept(run.world.source, run.world.destination, run.steps(count).world.destination),
        grown(run.world.source, run.world.destination, run.steps(count).world.destination),
        forall|path: RelPath|
            #![trigger run.world.destination.dom().contains(path)]
            exists_at(run.world.destination, path) && !exists_at(run.world.source, path) ==> {
                &&& exists_at(run.steps(count).world.destination, path)
                &&& run.steps(count).world.destination[path] == run.world.destination[path]
            },
    decreases count,
{
    if count > 0 {
        lemma_step_preserves(run);
        law_nothing_is_lost(run.step(), (count - 1) as nat);
        let source = run.world.source;
        let before = run.world.destination;
        let middle = run.step().world.destination;
        let after = run.steps(count).world.destination;
        assert forall|path: RelPath| #[trigger] before.dom().contains(path) implies {
            &&& after.dom().contains(path)
            &&& {
                ||| after[path] == before[path]
                ||| is_file_at(source, path) && after[path] == source[path]
            }
        } by {
            assert(middle.dom().contains(path));
        }
        assert forall|path: RelPath| #[trigger] after.dom().contains(path) implies {
            ||| before.dom().contains(path) && after[path] == before[path]
            ||| is_file_at(source, path) && after[path] == source[path]
            ||| !before.dom().contains(path) && after[path] is Directory
        } by {
            if middle.dom().contains(path) {
                assert(before.dom().contains(path) ==> middle.dom().contains(path));
            } else {
                assert(!before.dom().contains(path));
            }
        }
    }
}

/// Where the source root does not exist the run fails with `NotFound`,
/// having asked for nothing but the probe of the source, and the
/// destination is as it was.
pub proof fn law_missing_source(world: World)
    requires
        !exists_at(world.source, root()),
    ensures
        start(world).steps(1).stage == StageView::Finished(Err(Failure::NotFound)),
        mirrored(world).stage == StageView::Finished(Err(Failure::NotFound)),
        mirrored(world).world.destination == world.destination,
{
    reveal_with_fuel(Run::steps, 2);
    let first = start(world).step();
    lemma_finished_stays(first, (start(world).steps_left() - 1) as nat);
}

proof fn lemma_grounded_stays(run: Run, count: nat)
    requires
        grounded(run),
    ensures
        grounded(run.steps(count)),
    decreases count,
{
    if count > 0 {
        lemma_step_preserves(run);
        lemma_grounded_stays(run.step(), (count - 1) as nat);
    }
}

/// Directories come first. At every point of every run: when the next entry
/// of the walk is asked for, or a file is about to be copied, the
/// destination root exists; and when a file below the root is about to be
/// copied, something stands at the place of the directory that is to hold
/// it.
pub proof fn law_directories_come_first(world: World, count: nat)
    ensures
        grounded(start(world).steps(count)),
{
    lemma_grounded_stays(start(world), count);
}

/// A destination that does not exist is created before anything else is
/// done to it: where the source exists and the destination root does not,
/// the first request after the two probes is the creation of the
/// destination root, and the walk begins only once that has succeeded.
pub proof fn law_missing_destination_is_created(world: World)
    requires
        exists_at(world.source, root()),
        !exists_at(world.destination, root()),
    ensures
        start(world).steps(1).stage.request() == Some(RequestView::ProbeDestination(root())),
        start(world).steps(2).stage.request() == Some(RequestView::CreateDirectories(root())),
        start(world).steps(2).world.destination == world.destination,
        start(world).steps(3).stage == StageView::Walking,
        start(world).steps(3).world.destination == create_dirs(world.destination, root()),
        start(world).steps(3).world.walk == world.walk,
        exists_at(start(world).steps(3).world.destination, root()),
{
    reveal_with_fuel(Run::steps, 4);
    assert forall|ancestor: RelPath| #[trigger]
        ancestor.is_prefix_of(root()) && world.destination.dom().contains(
            ancestor,
        ) implies world.destination[ancestor] is Directory by {
        assert(ancestor =~= root());
    }
    assert(root().is_prefix_of(root()));
}

proof fn lemma_creation_on_the_way(
    source: Tree,
    before: Tree,
    now: Tree,
    walk: Seq<RelPath>,
    path: RelPath,
)
    requires
        well_formed(source),
        on_the_way(source, before, now, walk),
        is_dir_at(source, path),
    ensures
        can_create_dirs(now, path),
        on_the_way(source, before, create_dirs(now, path), walk),
        is_dir_at(create_dirs(now, path), path),
{
    assert forall|ancestor: RelPath| #[trigger] ancestor.is_prefix_of(path) implies is_dir_at(
        source,
        ancestor,
    ) by {
        if ancestor != path {
            lemma_ancestors_are_directories(source, path, ancestor);
        }
    }
    assert(path.is_prefix_of(path));
    assert(same_kinds(create_dirs(now, path), source));
}

proof fn lemma_copy_on_the_way(
    source: Tree,
    before: Tree,
    now: Tree,
    walk: Seq<RelPath>,
    path: RelPath,
)
    requires
        well_formed(source),
        on_the_way(source, before, now, walk),
        is_file_at(source, path),
        exists_at(now, parent(path)),
    ensures
        can_copy(source, now, path),
        on_the_way(source, before, copy_file(source, now, path), walk),
        exists_at(copy_file(source, now, path), path),
        copy_file(source, now, path)[path] == source[path],
{
    if path.len() == 0 {
        assert(path =~= root());
    }
    assert(is_dir_at(source, parent(path)));
    assert(same_kinds(copy_file(source, now, path), source));
}

proof fn lemma_entry_done(source: Tree, before: Tree, now: Tree, walk: Seq<RelPath>)
    requires
        walk.len() > 0,
        on_the_way(source, before, now, walk),
        exists_at(now, walk[0]),
        now[walk[0]] == source[walk[0]],
    ensures
        on_the_way(source, before, now, walk.skip(1)),
{
    let rest = walk.skip(1);
    assert forall|path: RelPath| #[trigger]
        source.dom().contains(path) && !rest.contains(path) implies {
        &&& now.dom().contains(path)
        &&& now[path] == source[path]
    } by {
        if path != walk[0] && walk.contains(path) {
            let i = choose|i: int| 0 <= i < walk.len() && walk[i] == path;
            assert(rest[i - 1] == path);
        }
    }
    assert forall|i: int| 0 <= i < rest.len() implies source.dom().contains(#[trigger] rest[i]) by {
        assert(rest[i] == walk[i + 1]);
    }
}

/// One entry of the walk over a well-formed source: from the request for
/// it to the request for the next one.
proof fn lemma_entry(run: Run, before: Tree) -> (taken: nat)
    requires
        run.stage == StageView::Walking,
        run.world.walk.len() > 0,
        well_formed(run.world.source),
        on_the_way(run.world.source, before, run.world.destination, run.world.walk),
    ensures
        1 <= taken <= 4,
        run.steps(taken).stage == StageView::Walking,
        run.steps(taken).world.source == run.world.source,
        run.steps(taken).world.walk == run.world.walk.skip(1),
        on_the_way(
            run.world.source,
            before,
            run.steps(taken).world.destination,
            run.world.walk.skip(1),
        ),
{
    reveal_with_fuel(Run::steps, 5);
    let source = run.world.source;
    let now = run.world.destination;
    let walk = run.world.walk;
    let path = walk[0];
    assert(source.dom().contains(path));
    if is_dir_at(source, path) {
        if exists_at(now, path) {
            lemma_entry_done(source, before, now, walk);
            2
        } else {
            lemma_creation_on_the_way(source, before, now, walk, path);
            lemma_entry_done(source, before, create_dirs(now, path), walk);
            3
        }
    } else {
        if path.len() == 0 {
            assert(path =~= root());
        }
        let up = parent(path);
        assert(is_dir_at(source, up));
        if exists_at(now, up) {
            lemma_copy_on_the_way(source, before, now, walk, path);
            lemma_entry_done(source, before, copy_file(source, now, path), walk);
            3
        } else {
            lemma_creation_on_the_way(source, before, now, walk, up);
            let made = create_dirs(now, up);
            lemma_copy_on_the_way(source, before, made, walk, path);
            lemma_entry_done(source, before, copy_file(source, made, path), walk);
            4
        }
    }
}

/// The walk over a well-formed source, from any entry on to the end of the
/// run.
proof fn lemma_walk(run: Run, before: Tree, count: nat)
    requires
        run.stage == StageView::Walking,
        well_formed(run.world.source),
        on_the_way(run.world.source, before, run.world.destination, run.world.walk),
        count >= 4 * run.world.walk.len() + 1,
    ensures
        run.steps(count).stage == StageView::Finished(Ok(())),
        run.steps(count).world.destination == overlay(before, run.world.source),
    decreases run.world.walk.len(),
{
    if run.world.walk.len() == 0 {
        lemma_finished_stays(run.step(), (count - 1) as nat);
        assert(run.world.destination =~= overlay(before, run.world.source));
    } else {
        let taken = lemma_entry(run, before);
        lemma_steps_add(run, taken, (count - taken) as nat);
        lemma_walk(run.steps(taken), before, (count - taken) as nat);
    }
}

/// What a mirror achieves. Where the source is a well-formed tree that the
/// walk delivers whole, and the destination has no file where the source
/// has a directory nor a directory where the source has a file, the run
/// succeeds and leaves the source laid over the destination: every path of
/// the source stands in the destination as the source has it, and every
/// other path of the destination is as it was. The destination root need
/// not exist beforehand.
pub proof fn law_mirror_lays_source_over_destination(world: World)
    requires
        well_formed(world.source),
        complete_walk(world.walk, world.source),
        same_kinds(world.destination, world.source),
    ensures
        mirrored(world).stage == StageView::Finished(Ok(())),
        mirrored(world).world.destination == overlay(world.destination, world.source),
{
    reveal_with_fuel(Run::steps, 4);
    let before = world.destination;
    let count = start(world).steps_left();
    if exists_at(before, root()) {
        lemma_steps_add(start(world), 2, (count - 2) as nat);
        lemma_walk(start(world).steps(2), before, (count - 2) as nat);
    } else {
        lemma_creation_on_the_way(world.source, before, before, world.walk, root());
        lemma_steps_add(start(world), 3, (count - 3) as nat);
        lemma_walk(start(world).steps(3), before, (count - 3) as nat);
    }
}

/// Into an empty destination a mirror puts the source and nothing else:
/// where the source is a well-formed tree that the walk delivers whole, and
/// the destination holds nothing, or nothing but its root directory, the
/// run succeeds and the destination is then the source, path for path and
/// byte for byte.
pub proof fn law_mirror_into_empty_destination(world: World)
    requires
        well_formed(world.source),
        complete_walk(world.walk, world.source),
        forall|path: RelPath| #[trigger]
            world.destination.dom().contains(path) ==> {
                &&& path == root()
                &&& world.destination[path] is Directory
            },
    ensures
        mirrored(world).stage == StageView::Finished(Ok(())),
        mirrored(world).world.destination == world.source,
{
    law_mirror_lays_source_over_destination(world);
    assert(overlay(world.destination, world.source) =~= world.source);
}

proof fn lemma_steps_keep_settled(run: Run, count: nat, path: RelPath)
    requires
        settled(run.world.source, run.world.destination, path),
    ensures
        settled(run.world.source, run.steps(count).world.destination, path),
    decreases count,
{
    if count > 0 {
        lemma_step_preserves(run);
        lemma_steps_keep_settled(run.step(), (count - 1) as nat, path);
    }
}

/// One entry of the walk in any world: the run fails on it, or it is
/// settled when the next one is asked for.
proof fn lemma_entry_settles(run: Run) -> (taken: nat)
    requires
        run.stage == StageView::Walking,
        run.world.walk.len() > 0,
    ensures
        1 <= taken <= 4,
        run.steps(taken).world.source == run.world.source,
        run.steps(taken).stage != StageView::Finished(Ok(())),
        !(run.steps(taken).stage is Finished) ==> {
            &&& run.steps(taken).stage == StageView::Walking
            &&& run.steps(taken).world.walk == run.world.walk.skip(1)
            &&& settled(run.world.source, run.steps(taken).world.destination, run.world.walk[0])
            &&& run.copies(taken) == files_delivered(seq![run.world.walk[0]], run.world.source)
        },
{
    reveal_with_fuel(Run::steps, 5);
    reveal_with_fuel(Run::copies, 5);
    reveal_with_fuel(files_delivered, 2);
    let path = run.world.walk[0];
    let up = parent(path);
    if is_dir_at(run.world.source, path) {
        if exists_at(run.world.destination, path) {
            2
        } else {
            assert(path.is_prefix_of(path));
            3
        }
    } else if path.len() == 0 {
        2
    } else if exists_at(run.world.destination, up) {
        3
    } else {
        assert(up.is_prefix_of(up));
        4
    }
}

/// A walk that ends in success has settled every entry that it delivered,
/// and has copied once for every file that it delivered.
proof fn lemma_success_settles(run: Run, count: nat)
    requires
        run.stage == StageView::Walking,
        count >= 4 * run.world.walk.len() + 1,
        run.steps(count).stage == StageView::Finished(Ok(())),
    ensures
        run.copies(count) == files_delivered(run.world.walk, run.world.source),
        forall|i: int|
            0 <= i < run.world.walk.len() ==> settled(
                run.world.source,
                run.steps(count).world.destination,
                #[trigger] run.world.walk[i],
            ),
    decreases run.world.walk.len(),
{
    if run.world.walk.len() > 0 {
        let taken = lemma_entry_settles(run);
        let later = run.steps(taken);
        let left = (count - taken) as nat;
        lemma_steps_add(run, taken, left);
        lemma_copies_add(run, taken, left);
        if later.stage is Finished {
            lemma_finished_stays(later, left);
        } else {
            lemma_success_settles(later, left);
            lemma_steps_keep_settled(later, left, run.world.walk[0]);
            assert forall|i: int| 0 <= i < run.world.walk.len() implies settled(
                run.world.source,
                run.steps(count).world.destination,
                #[trigger] run.world.walk[i],
            ) by {
                if i > 0 {
                    assert(run.world.walk[i] == later.world.walk[i - 1]);
                }
            }
            assert(run.copies(count) == files_delivered(run.world.walk, run.world.source)) by {
                reveal_with_fuel(files_delivered, 2);
                assert(seq![run.world.walk[0]].skip(1).len() == 0);
            }
        }
    } else {
        reveal_with_fuel(Run::copies, 2);
        lemma_finished_copies_nothing(run.step(), (count - 1) as nat);
    }
}

/// A run that ends in success has passed the destination root and has
/// settled every entry that its walk delivered.
proof fn lemma_successful_run_settles(world: World)
    requires
        mirrored(world).stage == StageView::Finished(Ok(())),
    ensures
        exists_at(mirrored(world).world.destination, root()),
        start(world).copies(start(world).steps_left()) == files_delivered(
            world.walk,
            world.source,
        ),
        forall|i: int|
            0 <= i < world.walk.len() ==> settled(
                world.source,
                mirrored(world).world.destination,
                #[trigger] world.walk[i],
            ),
{
    reveal_with_fuel(Run::steps, 4);
    reveal_with_fuel(Run::copies, 4);
    let count = start(world).steps_left();
    // Past the two probes, and the creation of the root where it was
    // missing, the run walks.
    let reached: nat = if exists_at(world.destination, root()) {
        2
    } else {
        3
    };
    let walking = start(world).steps(reached);
    lemma_steps_add(start(world), reached, (count - reached) as nat);
    lemma_copies_add(start(world), reached, (count - reached) as nat);
    if walking.stage is Finished {
        lemma_finished_stays(walking, (count - reached) as nat);
    }
    assert(exists_at(walking.world.destination, root())) by {
        assert(root().is_prefix_of(root()));
    }
    lemma_success_settles(walking, (count - reached) as nat);
    law_nothing_is_lost(walking, (count - reached) as nat);
}

/// What success means. Where a run has succeeded and its walk delivered
/// the source whole, every path of the source is settled in the
/// destination: each file of the source stands there byte for byte, in a
/// directory, and at the place of each directory of the source stands a
/// directory, or else the file that the destination held at that very
/// place before the run, which a run leaves alone.
/// `law_mirror_lays_source_over_destination` speaks of destinations without
/// such a file.
pub proof fn law_success_settles_every_entry(world: World)
    requires
        complete_walk(world.walk, world.source),
        mirrored(world).stage == StageView::Finished(Ok(())),
    ensures
        forall|path: RelPath| #[trigger]
            exists_at(world.source, path) ==> settled(
                world.source,
                mirrored(world).world.destination,
                path,
            ),
        forall|path: RelPath| #[trigger]
            is_dir_at(world.source, path) ==> {
                ||| is_dir_at(mirrored(world).world.destination, path)
                ||| {
                    &&& is_file_at(world.destination, path)
                    &&& mirrored(world).world.destination[path] == world.destination[path]
                }
            },
{
    let after = mirrored(world).world.destination;
    lemma_successful_run_settles(world);
    law_nothing_is_lost(start(world), start(world).steps_left());
    assert forall|path: RelPath| #[trigger] exists_at(world.source, path) implies settled(
        world.source,
        after,
        path,
    ) by {
        assert(world.source.dom().contains(path));
        let i = choose|i: int| 0 <= i < world.walk.len() && world.walk[i] == path;
        assert(settled(world.source, after, world.walk[i]));
    }
    assert forall|path: RelPath| #[trigger] is_dir_at(world.source, path) implies {
        ||| is_dir_at(after, path)
        ||| is_file_at(world.destination, path) && after[path] == world.destination[path]
    } by {
        assert(exists_at(world.source, path));
        assert(after.dom().contains(path));
    }
}

/// Every file is copied, every time. A run that succeeds has made one copy
/// for each entry of its walk that is no directory, whatever the
/// destination held before: no file is passed over because the destination
/// has it already.
pub proof fn law_every_file_is_copied(world: World)
    requires
        mirrored(world).stage == StageView::Finished(Ok(())),
    ensures
        start(world).copies(start(world).steps_left()) == files_delivered(
            world.walk,
            world.source,
        ),
{
    lemma_successful_run_settles(world);
}

/// A walk over settled entries succeeds and changes nothing.
proof fn lemma_settled_walk_is_idle(run: Run, count: nat)
    requires
        run.stage == StageView::Walking,
        count >= 4 * run.world.walk.len() + 1,
        forall|i: int|
            0 <= i < run.world.walk.len() ==> settled(
                run.world.source,
                run.world.destination,
                #[trigger] run.world.walk[i],
            ),
    ensures
        run.steps(count).stage == StageView::Finished(Ok(())),
        run.steps(count).world.destination == run.world.destination,
    decreases run.world.walk.len(),
{
    reveal_with_fuel(Run::steps, 4);
    if run.world.walk.len() == 0 {
        lemma_finished_stays(run.step(), (count - 1) as nat);
    } else {
        let path = run.world.walk[0];
        assert(settled(run.world.source, run.world.destination, path));
        let taken: nat = if is_dir_at(run.world.source, path) {
            2
        } else {
            3
        };
        let later = run.steps(taken);
        assert(later.stage == StageView::Walking);
        assert(later.world.destination =~= run.world.destination);
        assert forall|i: int| 0 <= i < later.world.walk.len() implies settled(
            later.world.source,
            later.world.destination,
            #[trigger] later.world.walk[i],
        ) by {
            assert(later.world.walk[i] == run.world.walk[i + 1]);
        }
        lemma_steps_add(run, taken, (count - taken) as nat);
        lemma_settled_walk_is_idle(later, (count - taken) as nat);
    }
}

/// A second run changes nothing. Where a mirror has succeeded and the
/// source is as it was, a second mirror whose walk delivers no path that
/// the first one did not (the same entries, in whatever order) succeeds as
/// well and leaves the destination exactly as the first one left it.
pub proof fn law_second_run_changes_nothing(world: World, second_walk: Seq<RelPath>)
    requires
        mirrored(world).stage == StageView::Finished(Ok(())),
        forall|i: int|
            0 <= i < second_walk.len() ==> world.walk.contains(#[trigger] second_walk[i]),
    ensures
        ({
            let first = mirrored(world).world.destination;
            let again = World { walk: second_walk, destination: first, ..world };
            &&& mirrored(again).stage == StageView::Finished(Ok(()))
            &&& mirrored(again).world.destination == first
        }),
{
    reveal_with_fuel(Run::steps, 4);
    let first = mirrored(world).world.destination;
    let again = World { walk: second_walk, destination: first, ..world };
    lemma_successful_run_settles(world);
    assert(exists_at(world.source, root())) by {
        if !exists_at(world.source, root()) {
            law_missing_source(world);
        }
    }
    // The second run: both probes find what they look for, and every entry
    // of its walk is settled.
    let again_count = start(again).steps_left();
    let rewalking = start(again).steps(2);
    assert(rewalking.stage == StageView::Walking);
    assert forall|i: int| 0 <= i < second_walk.len() implies settled(
        world.source,
        first,
        #[trigger] second_walk[i],
    ) by {
        let j = choose|j: int| 0 <= j < world.walk.len() && world.walk[j] == second_walk[i];
        assert(settled(world.source, first, world.walk[j]));
    }
    lemma_steps_add(start(again), 2, (again_count - 2) as nat);
    lemma_settled_walk_is_idle(rewalking, (again_count - 2) as nat);
}

} // verus!
