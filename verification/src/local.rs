//! Writing an object to a local directory.
//!
//! The file is written under a temporary name beside its destination and renamed when it is
//! complete. The file and the directories above it are synced if that is asked for.

use vstd::prelude::*;
use vstd::string::*;

use crate::error::{LocalError, LocalErrorKind, LocalErrorView};
use crate::local_path::{LocalPath, LocalPathView};

verus! {

/// How many names the directories have that are synced: those from the root down to the leaf, the
/// leaf among them.
pub open spec fn directory_depths(root: Seq<Seq<u8>>, leaf: Seq<Seq<u8>>) -> Seq<usize> {
    Seq::new((leaf.len() - root.len() + 1) as nat, |i: int| (root.len() + i) as usize)
}

/// The failure for a directory that is not below the root.
pub open spec fn outside_root(root: Seq<char>, leaf: Seq<char>) -> LocalErrorView {
    LocalErrorView {
        kind: LocalErrorKind::InvalidInput,
        message: "local destination "@ + leaf + " is outside configured root "@ + root,
    }
}

/// The failure for a destination without a parent.
pub open spec fn no_parent(destination: Seq<char>) -> LocalErrorView {
    LocalErrorView {
        kind: LocalErrorKind::InvalidInput,
        message: "local destination has no parent: "@ + destination,
    }
}

/// Returns whether two names are the same.
fn same_name(left: &Vec<u8>, right: &Vec<u8>) -> (same: bool)
    ensures
        same == (left@ == right@),
{
    if left.len() != right.len() {
        return false;
    }
    let mut i: usize = 0;
    while i < left.len()
        invariant
            i <= left.len(),
            left.len() == right.len(),
            forall|k: int| 0 <= k < i ==> left@[k] == right@[k],
        decreases left.len() - i,
    {
        if left[i] != right[i] {
            return false;
        }
        i += 1;
    }
    assert(left@ =~= right@);
    true
}

/// Returns the directories to sync for a leaf directory: the root, and every directory on the way
/// from it to the leaf. Each is given by the number of names of the leaf that it has.
///
/// # Errors
///
/// Returns an error if the leaf is not below the root.
pub fn sync_directory_hierarchy(root: &LocalPath, leaf: &LocalPath) -> (result: Result<
    Vec<usize>,
    LocalError,
>)
    ensures
        match result {
            Ok(depths) => {
                &&& root@.components.is_prefix_of(leaf@.components)
                &&& depths@ == directory_depths(root@.components, leaf@.components)
                &&& depths@.len() == leaf@.components.len() - root@.components.len() + 1
                &&& forall|i: int|
                    0 <= i < depths@.len() ==> #[trigger] depths@[i] == root@.components.len() + i
            },
            Err(error) => {
                &&& !root@.components.is_prefix_of(leaf@.components)
                &&& error@ == outside_root(root@.display, leaf@.display)
            },
        },
{
    let ghost root_names = root@.components;
    let ghost leaf_names = leaf@.components;
    let mut inside = root.components.len() <= leaf.components.len();
    let mut i: usize = 0;
    while inside && i < root.components.len()
        invariant
            root_names == root@.components,
            leaf_names == leaf@.components,
            i <= root.components.len(),
            inside ==> root.components.len() <= leaf.components.len() && forall|k: int|
                0 <= k < i ==> #[trigger] root_names[k] == leaf_names[k],
            !inside ==> !root_names.is_prefix_of(leaf_names),
        decreases root.components.len() - i,
    {
        assert(root_names[i as int] == root.components@[i as int]@);
        assert(leaf_names[i as int] == leaf.components@[i as int]@);
        if !same_name(&root.components[i], &leaf.components[i]) {
            assert(root_names[i as int] != leaf_names[i as int]);
            assert(root_names.is_prefix_of(leaf_names) ==> root_names[i as int]
                == leaf_names.subrange(0, root_names.len() as int)[i as int]);
            inside = false;
        }
        i += 1;
    }
    if !inside {
        let mut message = "local destination ".to_owned();
        message.append(leaf.display.as_str());
        message.append(" is outside configured root ");
        message.append(root.display.as_str());
        return Err(LocalError { kind: LocalErrorKind::InvalidInput, message });
    }
    assert(root_names =~= leaf_names.subrange(0, root_names.len() as int));
    let mut depths: Vec<usize> = Vec::new();
    let first = root.components.len();
    let count: usize = leaf.components.len() - first;
    let mut next: usize = 0;
    while next < count
        invariant
            first == root_names.len(),
            first + count == leaf_names.len(),
            next <= count,
            first + count <= usize::MAX,
            depths@ == directory_depths(root_names, leaf_names).take(next as int),
        decreases count - next,
    {
        depths.push(first + next);
        assert(depths@ =~= directory_depths(root_names, leaf_names).take(next + 1));
        next += 1;
    }
    depths.push(leaf.components.len());
    assert(depths@ =~= directory_depths(root_names, leaf_names));
    Ok(depths)
}

/// A step of writing an object to a local directory.
#[derive(Clone, Copy, Debug, PartialEq, Eq, Structural)]
pub enum LocalStep {
    /// Create the directory of the destination, and those above it.
    CreateParent,
    /// Create a file under a temporary name that is not taken.
    Stage,
    /// Write the payload to the temporary file.
    WritePayload,
    /// Sync the temporary file.
    SyncFile,
    /// Close the temporary file and rename it to the destination.
    Install,
    /// Sync a directory, which has this many of the names of the destination's directory.
    SyncDirectory {
        /// The number of names.
        depth: usize,
    },
}

/// How a step ended.
#[derive(Debug)]
pub enum StepOutcome {
    /// The step is done.
    Done,
    /// The step failed.
    Failed {
        /// What the file system reported.
        error: LocalError,
    },
}

/// The steps that a write takes, in order.
pub open spec fn commit_steps(fsync: bool, depths: Seq<usize>) -> Seq<LocalStep> {
    let written = seq![LocalStep::CreateParent, LocalStep::Stage, LocalStep::WritePayload];
    if fsync {
        written + seq![LocalStep::SyncFile, LocalStep::Install] + depths.map_values(
            |depth: usize| LocalStep::SyncDirectory { depth },
        )
    } else {
        written + seq![LocalStep::Install]
    }
}

/// A write that is under way: the steps that it takes, how many of them are done, what is reported
/// when all of them are done, and the failure of a step.
pub struct LocalProgress {
    pub steps: Seq<LocalStep>,
    pub done: nat,
    pub ending: Option<LocalErrorView>,
    pub failure: Option<LocalErrorView>,
}

impl LocalProgress {
    /// A write of which nothing has been done. Directories are synced if `sync_directories` holds
    /// too, that is, if the platform can do it. A destination outside the root is noticed only
    /// when the directories are to be synced, behind all other steps.
    pub open spec fn start(
        root: LocalPathView,
        parent: LocalPathView,
        fsync: bool,
        sync_directories: bool,
    ) -> LocalProgress {
        let inside = root.components.is_prefix_of(parent.components);
        let depths = if sync_directories && inside {
            directory_depths(root.components, parent.components)
        } else {
            Seq::empty()
        };
        LocalProgress {
            steps: commit_steps(fsync, depths),
            done: 0,
            ending: if fsync && sync_directories && !inside {
                Some(outside_root(root.display, parent.display))
            } else {
                None
            },
            failure: None,
        }
    }

    /// The step to take next, if there is one.
    pub open spec fn next_step(self) -> Option<LocalStep> {
        if self.failure is None && self.done < self.steps.len() {
            Some(self.steps[self.done as int])
        } else {
            None
        }
    }

    /// The write after the next step has ended. If the temporary name was taken, another one is
    /// tried; any other failure ends the write.
    pub open spec fn after(self, outcome: StepOutcome) -> LocalProgress {
        match (self.next_step(), outcome) {
            (None, _) => self,
            (Some(_), StepOutcome::Done) => LocalProgress { done: self.done + 1, ..self },
            (Some(step), StepOutcome::Failed { error }) => if error.kind
                == LocalErrorKind::AlreadyExists && step == LocalStep::Stage {
                self
            } else {
                LocalProgress { failure: Some(error@), ..self }
            },
        }
    }

    /// The steps that are done.
    pub open spec fn completed(self) -> Seq<LocalStep> {
        self.steps.take(self.done as int)
    }

    /// A temporary file is there: it has been created and not renamed.
    pub open spec fn has_staged_file(self) -> bool {
        self.completed().contains(LocalStep::Stage) && !self.completed().contains(
            LocalStep::Install,
        )
    }

    /// What the write has resulted in: nothing while there is a step to take, otherwise success or
    /// the failure.
    pub open spec fn result(self) -> Option<Result<(), LocalErrorView>> {
        if self.next_step() is Some {
            None
        } else {
            match (self.failure, self.ending) {
                (Some(error), _) => Some(Err(error)),
                (None, Some(error)) => Some(Err(error)),
                (None, None) => Some(Ok(())),
            }
        }
    }
}

/// A write of an object to a local directory that is under way.
#[derive(Debug)]
pub struct LocalWrite {
    steps: Vec<LocalStep>,
    done: usize,
    ending: Option<LocalError>,
    failure: Option<LocalError>,
}

/// A failure with its message as a sequence, if there is one.
pub open spec fn error_view(error: Option<LocalError>) -> Option<LocalErrorView> {
    match error {
        Some(failure) => Some(failure@),
        None => None,
    }
}

impl View for LocalWrite {
    type V = LocalProgress;

    closed spec fn view(&self) -> LocalProgress {
        LocalProgress {
            steps: self.steps@,
            done: self.done as nat,
            ending: error_view(self.ending),
            failure: error_view(self.failure),
        }
    }
}

impl LocalWrite {
    /// No more steps are done than there are.
    #[verifier::type_invariant]
    spec fn is_within_steps(self) -> bool {
        self.done <= self.steps@.len()
    }

    /// Starts a write of a file below the root.
    ///
    /// # Errors
    ///
    /// Returns an error if the destination has no parent.
    pub fn start(
        root: &LocalPath,
        destination: &LocalPath,
        fsync: bool,
        sync_directories: bool,
    ) -> (result: Result<LocalWrite, LocalError>)
        ensures
            match (result, destination@.parent()) {
                (Ok(write), Some(directory)) => write@ == LocalProgress::start(
                    root@,
                    directory,
                    fsync,
                    sync_directories,
                ),
                (Err(error), None) => error@ == no_parent(destination@.display),
                _ => false,
            },
    {
        let parent = match destination.parent() {
            Some(parent) => parent,
            None => {
                let mut message = "local destination has no parent: ".to_owned();
                message.append(destination.display.as_str());
                return Err(LocalError { kind: LocalErrorKind::InvalidInput, message });
            },
        };
        let mut steps: Vec<LocalStep> = Vec::new();
        steps.push(LocalStep::CreateParent);
        steps.push(LocalStep::Stage);
        steps.push(LocalStep::WritePayload);
        if fsync {
            steps.push(LocalStep::SyncFile);
        }
        steps.push(LocalStep::Install);
        let mut ending: Option<LocalError> = None;
        let ghost depths = Seq::<usize>::empty();
        assert(steps@ =~= commit_steps(fsync, depths));
        if fsync && sync_directories {
            match sync_directory_hierarchy(root, &parent) {
                Ok(found) => {
                    let mut i: usize = 0;
                    assert(found@.take(0) =~= depths);
                    while i < found.len()
                        invariant
                            fsync,
                            i <= found.len(),
                            steps@ == commit_steps(fsync, found@.take(i as int)),
                        decreases found.len() - i,
                    {
                        steps.push(LocalStep::SyncDirectory { depth: found[i] });
                        assert(found@.take(i + 1) =~= found@.take(i as int).push(found@[i as int]));
                        assert(steps@ =~= commit_steps(fsync, found@.take(i + 1)));
                        i += 1;
                    }
                    assert(found@.take(i as int) =~= found@);
                },
                Err(error) => {
                    ending = Some(error);
                },
            }
        }
        Ok(LocalWrite { steps, done: 0, ending, failure: None })
    }

    /// Returns the step to take next, if there is one.
    pub fn next_step(&self) -> (step: Option<LocalStep>)
        ensures
            step == self@.next_step(),
    {
        if self.failure.is_none() && self.done < self.steps.len() {
            Some(self.steps[self.done])
        } else {
            None
        }
    }

    /// Takes note of how the next step ended. When there is no step to take, nothing changes.
    pub fn advance(&mut self, outcome: StepOutcome)
        ensures
            final(self)@ == old(self)@.after(outcome),
    {
        proof {
            use_type_invariant(&*self);
        }
        if let Some(step) = self.next_step() {
            match outcome {
                StepOutcome::Done => {
                    assert(self.done < self.steps.len());
                    self.done = self.done + 1;
                },
                StepOutcome::Failed { error } => {
                    if !(error.kind == LocalErrorKind::AlreadyExists && step == LocalStep::Stage) {
                        self.failure = Some(error);
                    }
                },
            }
        }
    }

    /// Returns whether a temporary file is there, which has to be removed if the write has ended.
    pub fn has_staged_file(&self) -> (staged: bool)
        ensures
            staged == self@.has_staged_file(),
    {
        proof {
            use_type_invariant(&*self);
        }
        let ghost completed = self@.completed();
        let mut created = false;
        let mut installed = false;
        let mut i: usize = 0;
        while i < self.done
            invariant
                self.done <= self.steps@.len(),
                completed == self@.completed(),
                completed == self.steps@.take(self.done as int),
                i <= self.done,
                created == completed.take(i as int).contains(LocalStep::Stage),
                installed == completed.take(i as int).contains(LocalStep::Install),
            decreases self.done - i,
        {
            let step = self.steps[i];
            let ghost before = completed.take(i as int);
            assert(completed.take(i + 1) =~= before.push(step));
            assert forall|other: LocalStep| #[trigger]
                before.push(step).contains(other) == (before.contains(other) || other == step) by {
                if before.contains(other) {
                    let k = choose|k: int| 0 <= k < before.len() && before[k] == other;
                    assert(before.push(step)[k] == other);
                }
                if other == step {
                    assert(before.push(step)[before.len() as int] == other);
                }
                if before.push(step).contains(other) && other != step {
                    let k = choose|k: int|
                        0 <= k < before.push(step).len() && before.push(step)[k] == other;
                    assert(before[k] == other);
                }
            }
            if step == LocalStep::Stage {
                created = true;
            }
            if step == LocalStep::Install {
                installed = true;
            }
            i += 1;
        }
        assert(completed.take(i as int) =~= completed);
        created && !installed
    }

    /// Returns what the write has resulted in, if it has ended.
    ///
    /// # Errors
    ///
    /// The result is an error if a step failed, or if the directories cannot be synced because
    /// the destination is not below the root.
    pub fn result(&self) -> (result: Option<Result<(), LocalError>>)
        ensures
            match (result, self@.result()) {
                (None, None) => true,
                (Some(Ok(_)), Some(Ok(_))) => true,
                (Some(Err(error)), Some(Err(failure))) => error@ == failure,
                _ => false,
            },
    {
        if self.next_step().is_some() {
            return None;
        }
        match &self.failure {
            Some(error) => Some(Err(error.clone())),
            None => match &self.ending {
                Some(error) => Some(Err(error.clone())),
                None => Some(Ok(())),
            },
        }
    }
}

/// A write after some steps have ended.
pub open spec fn run(write: LocalProgress, outcomes: Seq<StepOutcome>) -> LocalProgress
    decreases outcomes.len(),
{
    if outcomes.len() == 0 {
        write
    } else {
        run(write, outcomes.drop_last()).after(outcomes.last())
    }
}

/// The steps that were done while some steps have ended.
pub open spec fn performed(write: LocalProgress, outcomes: Seq<StepOutcome>) -> Seq<LocalStep>
    decreases outcomes.len(),
{
    if outcomes.len() == 0 {
        Seq::empty()
    } else {
        let before = performed(write, outcomes.drop_last());
        match (run(write, outcomes.drop_last()).next_step(), outcomes.last()) {
            (Some(step), StepOutcome::Done) => before.push(step),
            _ => before,
        }
    }
}

/// However the steps end, those that were done are the first ones of the write, in order.
pub proof fn lemma_performed_in_order(
    root: LocalPathView,
    parent: LocalPathView,
    fsync: bool,
    sync_directories: bool,
    outcomes: Seq<StepOutcome>,
)
    ensures
        ({
            let start = LocalProgress::start(root, parent, fsync, sync_directories);
            let end = run(start, outcomes);
            &&& end.steps == start.steps
            &&& end.ending == start.ending
            &&& end.done <= end.steps.len()
            &&& performed(start, outcomes) == end.completed()
        }),
    decreases outcomes.len(),
{
    let start = LocalProgress::start(root, parent, fsync, sync_directories);
    if outcomes.len() == 0 {
        assert(performed(start, outcomes) =~= start.completed());
    } else {
        lemma_performed_in_order(root, parent, fsync, sync_directories, outcomes.drop_last());
        let before = run(start, outcomes.drop_last());
        let end = run(start, outcomes);
        assert(performed(start, outcomes) =~= end.completed());
    }
}

/// A write that is reported as a success has done every step: the file was written under its
/// temporary name, synced if that is asked for, and then renamed, and after that every directory
/// from the root down to the destination was synced if that is asked for and the platform can do
/// it. No temporary file is left.
pub proof fn lemma_success_is_committed(
    root: LocalPathView,
    parent: LocalPathView,
    fsync: bool,
    sync_directories: bool,
    outcomes: Seq<StepOutcome>,
)
    requires
        run(LocalProgress::start(root, parent, fsync, sync_directories), outcomes).result() == Some(
            Ok::<(), LocalErrorView>(()),
        ),
    ensures
        ({
            let start = LocalProgress::start(root, parent, fsync, sync_directories);
            &&& performed(start, outcomes) == commit_steps(
                fsync,
                if sync_directories && root.components.is_prefix_of(parent.components) {
                    directory_depths(root.components, parent.components)
                } else {
                    Seq::empty()
                },
            )
            &&& fsync && sync_directories ==> root.components.is_prefix_of(parent.components)
            &&& !run(start, outcomes).has_staged_file()
        }),
{
    let start = LocalProgress::start(root, parent, fsync, sync_directories);
    let end = run(start, outcomes);
    lemma_performed_in_order(root, parent, fsync, sync_directories, outcomes);
    assert(end.completed() =~= start.steps);
    assert(end.completed()[if fsync {
        4
    } else {
        3
    }] == LocalStep::Install);
}

/// A temporary file is there exactly if it was created and not renamed. So a write that failed
/// before the file was renamed leaves nothing behind once that file is removed, and a write that
/// failed later has put the whole file in its place.
pub proof fn lemma_staged_file(
    root: LocalPathView,
    parent: LocalPathView,
    fsync: bool,
    sync_directories: bool,
    outcomes: Seq<StepOutcome>,
)
    ensures
        ({
            let start = LocalProgress::start(root, parent, fsync, sync_directories);
            let steps = performed(start, outcomes);
            &&& run(start, outcomes).has_staged_file() <==> steps.contains(LocalStep::Stage)
                && !steps.contains(LocalStep::Install)
            &&& steps.contains(LocalStep::Install) ==> steps.contains(LocalStep::WritePayload)
            &&& steps.contains(LocalStep::Install) && fsync ==> steps.contains(LocalStep::SyncFile)
        }),
{
    let start = LocalProgress::start(root, parent, fsync, sync_directories);
    let steps = performed(start, outcomes);
    lemma_performed_in_order(root, parent, fsync, sync_directories, outcomes);
    if steps.contains(LocalStep::Install) {
        let k = choose|k: int| 0 <= k < steps.len() && steps[k] == LocalStep::Install;
        assert(start.steps[k] == LocalStep::Install);
        assert(k >= 3);
        assert(steps[2] == LocalStep::WritePayload);
        if fsync {
            assert(k >= 4);
            assert(steps[3] == LocalStep::SyncFile);
        }
    }
}

/// A write whose steps all succeed ends after as many steps as it has, and has done every one of
/// them: the file is in its place and no temporary file is left. It is a success unless the
/// directories are to be synced and the destination is not below the root; that failure does not
/// undo what has been done.
pub proof fn lemma_every_step_done(
    root: LocalPathView,
    parent: LocalPathView,
    fsync: bool,
    sync_directories: bool,
    outcomes: Seq<StepOutcome>,
)
    requires
        outcomes.len() == LocalProgress::start(root, parent, fsync, sync_directories).steps.len(),
        forall|i: int| 0 <= i < outcomes.len() ==> #[trigger] outcomes[i] == StepOutcome::Done,
    ensures
        run(LocalProgress::start(root, parent, fsync, sync_directories), outcomes).result() == Some(
            if fsync && sync_directories && !root.components.is_prefix_of(parent.components) {
                Err::<(), LocalErrorView>(outside_root(root.display, parent.display))
            } else {
                Ok(())
            },
        ),
        ({
            let start = LocalProgress::start(root, parent, fsync, sync_directories);
            let steps = performed(start, outcomes);
            &&& steps == start.steps
            &&& steps.contains(LocalStep::WritePayload)
            &&& steps.contains(LocalStep::Install)
            &&& !run(start, outcomes).has_staged_file()
        }),
{
    let start = LocalProgress::start(root, parent, fsync, sync_directories);
    lemma_steps_done(start, outcomes);
    lemma_performed_in_order(root, parent, fsync, sync_directories, outcomes);
    let steps = performed(start, outcomes);
    assert(steps =~= start.steps);
    assert(steps[2] == LocalStep::WritePayload);
    assert(steps[if fsync {
        4
    } else {
        3
    }] == LocalStep::Install);
}

/// Steps that succeed are done one by one.
proof fn lemma_steps_done(start: LocalProgress, outcomes: Seq<StepOutcome>)
    requires
        start.done == 0,
        start.failure is None,
        outcomes.len() <= start.steps.len(),
        forall|i: int| 0 <= i < outcomes.len() ==> #[trigger] outcomes[i] == StepOutcome::Done,
    ensures
        run(start, outcomes) == (LocalProgress { done: outcomes.len(), ..start }),
    decreases outcomes.len(),
{
    if outcomes.len() > 0 {
        let fewer = outcomes.drop_last();
        assert forall|i: int| 0 <= i < fewer.len() implies #[trigger] fewer[i]
            == StepOutcome::Done by {
            assert(fewer[i] == outcomes[i]);
        }
        lemma_steps_done(start, fewer);
        assert(outcomes.last() == StepOutcome::Done);
    }
}

} // verus!
