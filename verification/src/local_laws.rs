//! What a write to a local directory has done when it ends, said of the steps that were done.

use vstd::prelude::*;

use crate::error::{LocalErrorKind, LocalErrorView};
use crate::local::{
    directory_depths, lemma_every_step_done, lemma_performed_in_order,
    lemma_success_is_committed, no_parent, outside_root, performed, run, LocalProgress, LocalStep,
    StepOutcome,
};
use crate::local_path::LocalPathView;

verus! {

/// One step was done, and another one after it.
pub open spec fn comes_before(steps: Seq<LocalStep>, first: LocalStep, second: LocalStep) -> bool {
    exists|i: int, j: int|
        0 <= i < j < steps.len() && #[trigger] steps[i] == first && #[trigger] steps[j] == second
}

/// A write with syncing that is reported as a success has synced every directory from the root
/// down to the one that holds the file, each of them after the file was renamed.
pub proof fn lemma_every_directory_is_synced(
    root: LocalPathView,
    parent: LocalPathView,
    outcomes: Seq<StepOutcome>,
    depth: usize,
)
    requires
        run(LocalProgress::start(root, parent, true, true), outcomes).result() == Some(
            Ok::<(), LocalErrorView>(()),
        ),
        root.components.len() <= depth <= parent.components.len(),
    ensures
        ({
            let steps = performed(LocalProgress::start(root, parent, true, true), outcomes);
            &&& steps.contains(LocalStep::SyncDirectory { depth })
            &&& comes_before(steps, LocalStep::Install, LocalStep::SyncDirectory { depth })
        }),
{
    lemma_success_is_committed(root, parent, true, true, outcomes);
    let steps = performed(LocalProgress::start(root, parent, true, true), outcomes);
    let depths = directory_depths(root.components, parent.components);
    let at = depth - root.components.len();
    assert(depths[at] == depth);
    assert(steps[4] == LocalStep::Install);
    assert(steps[5 + at] == LocalStep::SyncDirectory { depth });
}

/// A write that is reported as a success has created the directory, then a temporary file in it,
/// then written the payload, then renamed the file. With syncing the file was synced between the
/// last two, and after the renaming the directories were, from the root down to the one that holds
/// the file if the platform can do it. No step was done twice, and no other one.
pub proof fn lemma_order_of_a_commit(
    root: LocalPathView,
    parent: LocalPathView,
    fsync: bool,
    sync_directories: bool,
    outcomes: Seq<StepOutcome>,
)
    requires
        run(LocalProgress::start(root, parent, fsync, sync_directories), outcomes).result() == Some(
            Ok::<(), LocalErrorView>(()),
        ),
        parent.components.len() <= usize::MAX,
    ensures
        ({
            let steps = performed(
                LocalProgress::start(root, parent, fsync, sync_directories),
                outcomes,
            );
            &&& comes_before(steps, LocalStep::CreateParent, LocalStep::Stage)
            &&& comes_before(steps, LocalStep::Stage, LocalStep::WritePayload)
            &&& comes_before(steps, LocalStep::WritePayload, LocalStep::Install)
            &&& fsync ==> comes_before(steps, LocalStep::WritePayload, LocalStep::SyncFile)
                && comes_before(steps, LocalStep::SyncFile, LocalStep::Install)
            &&& fsync <==> steps.contains(LocalStep::SyncFile)
            &&& forall|depth: usize|
                #[trigger] steps.contains(LocalStep::SyncDirectory { depth }) <==> {
                    &&& fsync
                    &&& sync_directories
                    &&& root.components.len() <= depth <= parent.components.len()
                }
            &&& forall|i: int, j: int|
                0 <= i < j < steps.len() ==> #[trigger] steps[i] != #[trigger] steps[j]
            &&& forall|i: int, j: int|
                0 <= i < j < steps.len() ==> ((#[trigger] steps[i], #[trigger] steps[j]) matches (
                    LocalStep::SyncDirectory { depth: upper },
                    LocalStep::SyncDirectory { depth: lower },
                ) ==> upper < lower)
        }),
{
    lemma_success_is_committed(root, parent, fsync, sync_directories, outcomes);
    let steps = performed(LocalProgress::start(root, parent, fsync, sync_directories), outcomes);
    assert(steps[0] == LocalStep::CreateParent);
    assert(steps[1] == LocalStep::Stage);
    assert(steps[2] == LocalStep::WritePayload);
    if fsync {
        assert(steps[3] == LocalStep::SyncFile);
        assert(steps[4] == LocalStep::Install);
        assert forall|i: int| 5 <= i < steps.len() implies #[trigger] steps[i]
            == (LocalStep::SyncDirectory { depth: (root.components.len() + i - 5) as usize }) by {}
    } else {
        assert(steps[3] == LocalStep::Install);
    }
    assert forall|depth: usize|
        #[trigger] steps.contains(LocalStep::SyncDirectory { depth }) <==> {
            &&& fsync
            &&& sync_directories
            &&& root.components.len() <= depth <= parent.components.len()
        } by {
        if fsync && sync_directories && root.components.len() <= depth <= parent.components.len() {
            lemma_every_directory_is_synced(root, parent, outcomes, depth);
        }
        if steps.contains(LocalStep::SyncDirectory { depth }) {
            let k = choose|k: int|
                0 <= k < steps.len() && steps[k] == LocalStep::SyncDirectory { depth };
            assert(k >= 5);
        }
    }
}

/// How many steps a write takes.
pub open spec fn step_count(
    root: LocalPathView,
    parent: LocalPathView,
    fsync: bool,
    sync_directories: bool,
) -> int {
    if !fsync {
        4
    } else if sync_directories && root.components.is_prefix_of(parent.components) {
        5 + (parent.components.len() - root.components.len() + 1)
    } else {
        5
    }
}

/// A write of which every step succeeds ends after four steps, or five with syncing of the file,
/// and one for each directory from the root down to the file with syncing of those. It is a
/// success, unless directories are to be synced and the file is outside the root: then the failure
/// says so, with both paths.
pub proof fn lemma_steps_of_a_write(
    root: LocalPathView,
    parent: LocalPathView,
    fsync: bool,
    sync_directories: bool,
    outcomes: Seq<StepOutcome>,
)
    requires
        outcomes.len() == step_count(root, parent, fsync, sync_directories),
        forall|i: int| 0 <= i < outcomes.len() ==> #[trigger] outcomes[i] == StepOutcome::Done,
    ensures
        run(LocalProgress::start(root, parent, fsync, sync_directories), outcomes).result() == Some(
            if fsync && sync_directories && !root.components.is_prefix_of(parent.components) {
                Err::<(), LocalErrorView>(
                    LocalErrorView {
                        kind: LocalErrorKind::InvalidInput,
                        message: "local destination "@ + parent.display
                            + " is outside configured root "@ + root.display,
                    },
                )
            } else {
                Ok(())
            },
        ),
        performed(
            LocalProgress::start(root, parent, fsync, sync_directories),
            outcomes,
        ).contains(LocalStep::Install),
{
    let start = LocalProgress::start(root, parent, fsync, sync_directories);
    assert(start.steps.len() == outcomes.len());
    lemma_every_step_done(root, parent, fsync, sync_directories, outcomes);
}

/// A write has a step to take exactly as long as it has no result. A step that is done is done
/// once, and nothing is undone by what comes later. A step that fails is not done: if it was the
/// temporary file that could not be created because its name is taken, it is tried again as if
/// nothing had happened; any other failure ends the write, with that failure as the result, whatever
/// comes later.
pub proof fn lemma_next_outcome(
    root: LocalPathView,
    parent: LocalPathView,
    fsync: bool,
    sync_directories: bool,
    outcomes: Seq<StepOutcome>,
    outcome: StepOutcome,
)
    ensures
        ({
            let start = LocalProgress::start(root, parent, fsync, sync_directories);
            let before = run(start, outcomes);
            let after = run(start, outcomes.push(outcome));
            let done = performed(start, outcomes);
            let done_after = performed(start, outcomes.push(outcome));
            &&& before.next_step() is Some <==> before.result() is None
            &&& before.next_step() is None ==> after == before && done_after == done
            &&& before.next_step() matches Some(step) ==> match outcome {
                StepOutcome::Done => {
                    &&& done_after == done.push(step)
                    &&& after.result() matches Some(Err(_)) ==> fsync && sync_directories
                        && !root.components.is_prefix_of(parent.components)
                },
                StepOutcome::Failed { error } => {
                    &&& done_after == done
                    &&& if step == LocalStep::Stage && error.kind
                        == LocalErrorKind::AlreadyExists {
                        after == before
                    } else {
                        after.result() == Some(
                            Err::<(), LocalErrorView>(
                                LocalErrorView { kind: error.kind, message: error.message@ },
                            ),
                        )
                    }
                },
            }
        }),
{
    let start = LocalProgress::start(root, parent, fsync, sync_directories);
    assert(outcomes.push(outcome).drop_last() =~= outcomes);
    lemma_performed_in_order(root, parent, fsync, sync_directories, outcomes);
}

/// A write starts with creating the directory, whatever is asked for.
pub proof fn lemma_first_step(
    root: LocalPathView,
    parent: LocalPathView,
    fsync: bool,
    sync_directories: bool,
)
    ensures
        LocalProgress::start(root, parent, fsync, sync_directories).next_step() == Some(
            LocalStep::CreateParent,
        ),
        !LocalProgress::start(root, parent, fsync, sync_directories).has_staged_file(),
{
    let start = LocalProgress::start(root, parent, fsync, sync_directories);
    assert(start.steps[0] == LocalStep::CreateParent);
    assert(start.completed() =~= Seq::<LocalStep>::empty());
}

/// A failure that is no matter of the file system is one of what was asked for, and names the
/// paths that it is about.
pub proof fn lemma_failures_name_their_paths(left: Seq<char>, right: Seq<char>)
    ensures
        no_parent(left) == (LocalErrorView {
            kind: LocalErrorKind::InvalidInput,
            message: "local destination has no parent: "@ + left,
        }),
        outside_root(left, right) == (LocalErrorView {
            kind: LocalErrorKind::InvalidInput,
            message: "local destination "@ + right + " is outside configured root "@ + left,
        }),
{
}

} // verus!
