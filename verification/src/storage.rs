//! Setting up the configured storage.

use object_store::local::LocalFileSystem;
use vstd::prelude::*;

use crate::config::{Config, StorageType};
use crate::error::LocalError;
use crate::local_path::LocalPath;

verus! {

/// How setting up the configured storage ended.
#[derive(Debug)]
pub enum StorageSetup<S> {
    /// The retry settings are not valid.
    RetryRejected {
        /// What is wrong with them.
        reason: String,
    },
    /// The directory is not usable as storage, or the cloud service cannot be set up.
    Rejected {
        /// What went wrong.
        reason: String,
    },
    /// The path of the directory could not be resolved.
    Unresolved {
        /// What the file system reported.
        error: LocalError,
    },
    /// The directory is there, under this path.
    Directory {
        /// The directory as an object store.
        file_system: LocalFileSystem,
        /// The path, free of symbolic links and relative steps.
        root: LocalPath,
    },
    /// The cloud service is set up.
    Store(S),
}

impl<S> StorageSetup<S> {
    /// Setting up this configuration can end this way.
    pub open spec fn answers<C, R>(self, config: Config<C, R>) -> bool {
        match self {
            StorageSetup::RetryRejected { .. } => config.retry is Some,
            StorageSetup::Rejected { .. } => true,
            StorageSetup::Unresolved { .. } => config.storage is File,
            StorageSetup::Directory { .. } => config.storage is File,
            StorageSetup::Store(_) => config.storage is Cloud,
        }
    }
}

/// A step of setting up the configured storage.
#[derive(Clone, Copy, Debug, PartialEq, Eq, Structural)]
pub enum SetupStep {
    /// Validate the retry settings.
    ValidateRetry,
    /// Open the directory as storage.
    OpenDirectory,
    /// Resolve the path of the directory.
    ResolveDirectory,
    /// Set up the cloud service, with the retry settings.
    OpenStore,
}

impl SetupStep {
    /// The step is one of those that a configuration calls for.
    pub open spec fn belongs_to<C, R>(self, config: Config<C, R>) -> bool {
        match self {
            SetupStep::ValidateRetry => config.retry is Some,
            SetupStep::OpenDirectory => config.storage is File,
            SetupStep::ResolveDirectory => config.storage is File,
            SetupStep::OpenStore => config.storage is Cloud,
        }
    }
}

/// How a step ended.
#[derive(Debug)]
pub enum SetupOutcome<S> {
    /// The retry settings are valid, or the directory is open.
    Done,
    /// The path of the directory is resolved.
    Resolved {
        /// The directory as an object store.
        file_system: LocalFileSystem,
        /// The path, free of symbolic links and relative steps.
        root: LocalPath,
    },
    /// The cloud service is set up.
    Opened(S),
    /// The path of the directory could not be resolved.
    Unresolved {
        /// What the file system reported.
        error: LocalError,
    },
    /// Another step failed.
    Failed {
        /// What went wrong.
        reason: String,
    },
}

impl<S> SetupOutcome<S> {
    /// A step can end this way.
    pub open spec fn ends(self, step: SetupStep) -> bool {
        match self {
            SetupOutcome::Done => step == SetupStep::ValidateRetry || step
                == SetupStep::OpenDirectory,
            SetupOutcome::Resolved { .. } => step == SetupStep::ResolveDirectory,
            SetupOutcome::Opened(_) => step == SetupStep::OpenStore,
            SetupOutcome::Unresolved { .. } => step == SetupStep::ResolveDirectory,
            SetupOutcome::Failed { .. } => step != SetupStep::ResolveDirectory,
        }
    }
}

/// How far setting up the configured storage is.
#[derive(Debug)]
pub enum SetupProgress<S> {
    /// There is a step to take.
    Next(SetupStep),
    /// It has ended.
    Ended(StorageSetup<S>),
}

/// The step that touches the storage first.
pub open spec fn storage_step<C, R>(config: Config<C, R>) -> SetupStep {
    match config.storage {
        StorageType::File { .. } => SetupStep::OpenDirectory,
        StorageType::Cloud(_) => SetupStep::OpenStore,
    }
}

/// Where setting up the storage starts.
pub open spec fn setup_start<S, C, R>(config: Config<C, R>) -> SetupProgress<S> {
    SetupProgress::Next(
        if config.retry is Some {
            SetupStep::ValidateRetry
        } else {
            storage_step(config)
        },
    )
}

/// Where setting up the storage is after a step has ended.
pub open spec fn setup_after<S, C, R>(
    config: Config<C, R>,
    step: SetupStep,
    outcome: SetupOutcome<S>,
) -> SetupProgress<S> {
    match outcome {
        SetupOutcome::Done => if step == SetupStep::ValidateRetry {
            SetupProgress::Next(storage_step(config))
        } else {
            SetupProgress::Next(SetupStep::ResolveDirectory)
        },
        SetupOutcome::Resolved { file_system, root } => SetupProgress::Ended(
            StorageSetup::Directory { file_system, root },
        ),
        SetupOutcome::Opened(store) => SetupProgress::Ended(StorageSetup::Store(store)),
        SetupOutcome::Unresolved { error } => SetupProgress::Ended(
            StorageSetup::Unresolved { error },
        ),
        SetupOutcome::Failed { reason } => SetupProgress::Ended(
            match step {
                SetupStep::ValidateRetry => StorageSetup::RetryRejected { reason },
                _ => StorageSetup::Rejected { reason },
            },
        ),
    }
}

impl<S> SetupProgress<S> {
    /// The step is one that the configuration calls for, or setting it up can end this way.
    pub open spec fn is_of<C, R>(self, config: Config<C, R>) -> bool {
        match self {
            SetupProgress::Next(step) => step.belongs_to(config),
            SetupProgress::Ended(setup) => setup.answers(config),
        }
    }

    /// Returns the first step. Retry settings are validated before any storage is touched.
    pub fn start<C, R>(config: &Config<C, R>) -> (progress: Self)
        ensures
            progress == setup_start::<S, C, R>(*config),
            progress == SetupProgress::<S>::Next(
                if config.retry is Some {
                    SetupStep::ValidateRetry
                } else {
                    storage_step(*config)
                },
            ),
            progress.is_of(*config),
    {
        if config.retry.is_some() {
            SetupProgress::Next(SetupStep::ValidateRetry)
        } else {
            SetupProgress::Next(Self::first_storage_step(config))
        }
    }

    /// Returns where setting up the storage is after a step has ended. A failure ends it.
    pub fn after<C, R>(config: &Config<C, R>, step: SetupStep, outcome: SetupOutcome<S>) -> (progress:
        Self)
        requires
            step.belongs_to(*config),
            outcome.ends(step),
        ensures
            progress == setup_after(*config, step, outcome),
            progress.is_of(*config),
    {
        match outcome {
            SetupOutcome::Done => match step {
                SetupStep::ValidateRetry => SetupProgress::Next(Self::first_storage_step(config)),
                _ => SetupProgress::Next(SetupStep::ResolveDirectory),
            },
            SetupOutcome::Resolved { file_system, root } => SetupProgress::Ended(
                StorageSetup::Directory { file_system, root },
            ),
            SetupOutcome::Opened(store) => SetupProgress::Ended(StorageSetup::Store(store)),
            SetupOutcome::Unresolved { error } => SetupProgress::Ended(
                StorageSetup::Unresolved { error },
            ),
            SetupOutcome::Failed { reason } => match step {
                SetupStep::ValidateRetry => SetupProgress::Ended(
                    StorageSetup::RetryRejected { reason },
                ),
                _ => SetupProgress::Ended(StorageSetup::Rejected { reason }),
            },
        }
    }

    /// Returns the step that touches the storage first.
    fn first_storage_step<C, R>(config: &Config<C, R>) -> (step: SetupStep)
        ensures
            step == storage_step(*config),
    {
        match &config.storage {
            StorageType::File { .. } => SetupStep::OpenDirectory,
            StorageType::Cloud(_) => SetupStep::OpenStore,
        }
    }
}

/// Setting up the storage is under way: it is in one state after the other, and each state but the
/// first is what the end of the step before it leads to.
pub open spec fn is_setup<S, C, R>(
    config: Config<C, R>,
    states: Seq<SetupProgress<S>>,
    outcomes: Seq<SetupOutcome<S>>,
) -> bool {
    &&& states.len() == outcomes.len() + 1
    &&& states[0] == setup_start::<S, C, R>(config)
    &&& forall|i: int|
        0 <= i < outcomes.len() ==> {
            &&& states[i] matches SetupProgress::Next(step)
            &&& outcome_fits(step, #[trigger] outcomes[i])
            &&& states[i + 1] == setup_after(config, step, outcomes[i])
        }
}

/// A step that is done has what it was taken for: retry settings that are valid, an open directory,
/// a directory with its path, or a cloud service. A step that failed has a reason.
pub open spec fn outcome_fits<S>(step: SetupStep, outcome: SetupOutcome<S>) -> bool {
    match step {
        SetupStep::ValidateRetry => outcome is Done || outcome is Failed,
        SetupStep::OpenDirectory => outcome is Done || outcome is Failed,
        SetupStep::ResolveDirectory => outcome is Resolved || outcome is Unresolved,
        SetupStep::OpenStore => outcome is Opened || outcome is Failed,
    }
}

/// The step failed.
pub open spec fn is_setup_failure<S>(outcome: SetupOutcome<S>) -> bool {
    outcome is Failed || outcome is Unresolved
}

/// Setting up the storage takes each step once and in order: the retry settings are validated
/// first, if there are any; then a local directory is opened and its path resolved, or a cloud
/// service is set up. The first step that fails ends it, with what failed and why. If none fails,
/// it goes on to the last of these steps and then has ended, with the directory and its path, or
/// with the cloud service.
pub proof fn lemma_setup_ends<S, C, R>(
    config: Config<C, R>,
    states: Seq<SetupProgress<S>>,
    outcomes: Seq<SetupOutcome<S>>,
)
    requires
        is_setup(config, states, outcomes),
    ensures
        ({
            let first = if config.retry is Some {
                1int
            } else {
                0int
            };
            let count = first + if config.storage is File {
                2int
            } else {
                1int
            };
            let end = states[outcomes.len() as int];
            &&& outcomes.len() <= count <= 3
            &&& end.is_of(config)
            &&& forall|step: SetupStep, outcome: SetupOutcome<S>|
                #[trigger] outcome_fits(step, outcome) <==> outcome.ends(step)
            &&& forall|i: int|
                0 <= i < states.len() ==> ((#[trigger] states[i]) matches SetupProgress::Next(step)
                    ==> step == if i < first {
                    SetupStep::ValidateRetry
                } else if config.storage is Cloud {
                    SetupStep::OpenStore
                } else if i == first {
                    SetupStep::OpenDirectory
                } else {
                    SetupStep::ResolveDirectory
                })
            &&& forall|i: int, j: int|
                0 <= i < j < states.len() ==> #[trigger] states[i] != #[trigger] states[j]
            &&& forall|i: int|
                0 <= i < outcomes.len() - 1 ==> !is_setup_failure(#[trigger] outcomes[i])
            &&& end is Ended <==> outcomes.len() == count || (outcomes.len() > 0
                && is_setup_failure(outcomes.last()))
            &&& outcomes.len() > 0 ==> match outcomes.last() {
                SetupOutcome::Failed { reason } => end == SetupProgress::Ended(
                    if outcomes.len() == first {
                        StorageSetup::<S>::RetryRejected { reason }
                    } else {
                        StorageSetup::<S>::Rejected { reason }
                    },
                ),
                SetupOutcome::Unresolved { error } => end == SetupProgress::Ended(
                    StorageSetup::<S>::Unresolved { error },
                ),
                SetupOutcome::Resolved { file_system, root } => config.storage is File && end
                    == SetupProgress::Ended(StorageSetup::<S>::Directory { file_system, root }),
                SetupOutcome::Opened(store) => config.storage is Cloud && end
                    == SetupProgress::Ended(StorageSetup::Store(store)),
                SetupOutcome::Done => end is Next,
            }
        }),
{
    let count = outcomes.len();
    if count > 0 {
        assert(outcome_fits(states[0]->Next_0, outcomes[0]));
    }
    if count > 1 {
        assert(outcome_fits(states[1]->Next_0, outcomes[1]));
    }
    if count > 2 {
        assert(outcome_fits(states[2]->Next_0, outcomes[2]));
    }
    if count > 3 {
        assert(outcome_fits(states[3]->Next_0, outcomes[3]));
    }
}

} // verus!
