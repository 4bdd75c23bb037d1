//! Uploads of objects, and what a write of several objects results in.

use vstd::prelude::*;

use crate::error::{ArrowWriterError, LocalError};

verus! {

/// Result statistics for a completed pdata upload.
#[derive(Clone, Copy, Debug, PartialEq, Eq, Structural)]
pub struct WriteStats {
    /// Number of Arrow IPC payload objects written.
    pub objects_written: u64,
    /// Total Arrow IPC bytes written.
    pub bytes_written: u64,
}

/// The bytes of the uploads up to the first one that failed.
pub open spec fn uploaded_bytes(outcomes: Seq<Result<u64, ArrowWriterError>>) -> nat
    decreases outcomes.len(),
{
    if outcomes.len() == 0 {
        0
    } else {
        match outcomes[0] {
            Ok(byte_count) => byte_count as nat + uploaded_bytes(outcomes.skip(1)),
            Err(_) => 0,
        }
    }
}

/// What a write with these uploads results in. If all of them succeeded, their number and their
/// bytes; otherwise the error of the first one that failed.
pub open spec fn is_write_result(
    result: Result<WriteStats, ArrowWriterError>,
    outcomes: Seq<Result<u64, ArrowWriterError>>,
) -> bool {
    match result {
        Ok(stats) => {
            &&& forall|i: int| 0 <= i < outcomes.len() ==> (#[trigger] outcomes[i]) is Ok
            &&& stats.objects_written == outcomes.len()
            &&& stats.bytes_written == uploaded_bytes(outcomes)
        },
        Err(error) => exists|i: int|
            {
                &&& 0 <= i < outcomes.len()
                &&& #[trigger] outcomes[i] == Err::<u64, ArrowWriterError>(error)
                &&& forall|j: int| 0 <= j < i ==> (#[trigger] outcomes[j]) is Ok
            },
    }
}

impl Default for WriteStats {
    fn default() -> (stats: Self)
        ensures
            stats.objects_written == 0,
            stats.bytes_written == 0,
    {
        WriteStats { objects_written: 0, bytes_written: 0 }
    }
}

impl WriteStats {
    /// Adds up uploads in the order in which they ended. The first one that failed makes the whole
    /// write fail.
    ///
    /// # Errors
    ///
    /// Returns the error of the first upload that failed.
    pub fn from_uploads(outcomes: Vec<Result<u64, ArrowWriterError>>) -> (result: Result<
        WriteStats,
        ArrowWriterError,
    >)
        requires
            uploaded_bytes(outcomes@) <= u64::MAX,
        ensures
            is_write_result(result, outcomes@),
    {
        let ghost all = outcomes@;
        let mut ended = outcomes;
        let mut bytes_written: u64 = 0;
        let mut i: usize = 0;
        assert(all.skip(0) =~= all);
        while i < ended.len()
            invariant
                ended@ == all,
                all == outcomes@,
                i <= ended.len(),
                forall|j: int| 0 <= j < i ==> (#[trigger] all[j]) is Ok,
                bytes_written + uploaded_bytes(all.skip(i as int)) == uploaded_bytes(all),
                uploaded_bytes(all) <= u64::MAX,
            decreases ended.len() - i,
        {
            assert(all.skip(i as int).skip(1) =~= all.skip(i + 1));
            assert(all.skip(i as int)[0] == all[i as int]);
            match &ended[i] {
                Ok(byte_count) => {
                    bytes_written += *byte_count;
                },
                Err(_) => {
                    match ended.swap_remove(i) {
                        Ok(_) => {},
                        Err(error) => {
                            assert(all[i as int] == Err::<u64, ArrowWriterError>(error));
                            return Err(error);
                        },
                    }
                },
            }
            i += 1;
        }
        assert(all.skip(i as int) =~= Seq::<Result<u64, ArrowWriterError>>::empty());
        Ok(WriteStats { objects_written: i as u64, bytes_written })
    }
}

/// How writing one object ended.
#[derive(Debug)]
pub enum PutOutcome {
    /// The object is there.
    Stored,
    /// The store did not take the object.
    Rejected {
        /// What the store reported.
        reason: String,
    },
    /// The local file could not be written.
    FileFailed {
        /// The path of the file.
        path: String,
        /// What the file system reported.
        error: LocalError,
    },
    /// The task that wrote the local file did not end.
    TaskFailed {
        /// What the runtime reported.
        reason: String,
    },
}

/// A failure of writing one object, which is not a failure of the pdata.
pub open spec fn is_storage_failure(error: ArrowWriterError) -> bool {
    error is Upload || error is LocalUpload || error is LocalUploadTask
}

/// Returns what the end of writing one object means for the write.
///
/// # Errors
///
/// Returns an error unless the object is there.
pub fn put_result(location: &str, outcome: PutOutcome) -> (result: Result<(), ArrowWriterError>)
    ensures
        match outcome {
            PutOutcome::Stored => result is Ok,
            PutOutcome::Rejected { reason } => result matches Err(
                ArrowWriterError::Upload { location: failed, source },
            ) && failed@ == location@ && source == reason,
            PutOutcome::FileFailed { path, error } => result matches Err(
                ArrowWriterError::LocalUpload { path: failed, source },
            ) && failed == path && source == error,
            PutOutcome::TaskFailed { reason } => result matches Err(
                ArrowWriterError::LocalUploadTask { location: failed, source },
            ) && failed@ == location@ && source == reason,
        },
        result matches Err(error) ==> is_storage_failure(error),
{
    match outcome {
        PutOutcome::Stored => Ok(()),
        PutOutcome::Rejected { reason } => Err(
            ArrowWriterError::Upload { location: location.to_owned(), source: reason },
        ),
        PutOutcome::FileFailed { path, error } => Err(
            ArrowWriterError::LocalUpload { path, source: error },
        ),
        PutOutcome::TaskFailed { reason } => Err(
            ArrowWriterError::LocalUploadTask { location: location.to_owned(), source: reason },
        ),
    }
}

/// The sum of numbers.
pub open spec fn total(numbers: Seq<nat>) -> nat
    decreases numbers.len(),
{
    if numbers.len() == 0 {
        0
    } else {
        total(numbers.drop_last()) + numbers.last()
    }
}

/// The numbers of some objects, in some order: none of them twice.
pub open spec fn is_selection(order: Seq<int>, count: nat) -> bool {
    &&& forall|i: int| 0 <= i < order.len() ==> 0 <= #[trigger] order[i] < count
    &&& forall|i: int, j: int|
        0 <= i < j < order.len() ==> #[trigger] order[i] != #[trigger] order[j]
}

/// The numbers of all objects, in some order: each of them once.
pub open spec fn is_order(order: Seq<int>, count: nat) -> bool {
    order.len() == count && is_selection(order, count)
}

/// Taking a number out of a sum.
proof fn lemma_total_without(numbers: Seq<nat>, at: int)
    requires
        0 <= at < numbers.len(),
    ensures
        total(numbers) == total(numbers.remove(at)) + numbers[at],
    decreases numbers.len(),
{
    if at == numbers.len() - 1 {
        assert(numbers.remove(at) =~= numbers.drop_last());
    } else {
        lemma_total_without(numbers.drop_last(), at);
        assert(numbers.remove(at).drop_last() =~= numbers.drop_last().remove(at));
        assert(numbers.remove(at).last() == numbers.last());
    }
}

/// Some of the numbers add up to no more than all of them, and the order in which all of them are
/// added does not matter.
pub proof fn lemma_total_in_any_order(numbers: Seq<nat>, order: Seq<int>)
    requires
        is_selection(order, numbers.len()),
    ensures
        total(order.map_values(|at: int| numbers[at])) <= total(numbers),
        order.len() == numbers.len() ==> total(order.map_values(|at: int| numbers[at])) == total(
            numbers,
        ),
    decreases order.len(),
{
    let reordered = order.map_values(|at: int| numbers[at]);
    if order.len() > 0 {
        let at = order.last();
        let fewer = numbers.remove(at);
        let shorter = order.drop_last().map_values(
            |i: int|
                if i < at {
                    i
                } else {
                    i - 1
                },
        );
        assert forall|i: int, j: int| 0 <= i < j < shorter.len() implies #[trigger] shorter[i]
            != #[trigger] shorter[j] by {
            assert(order[i] != order[j] && order[i] != at && order[j] != at);
        }
        assert forall|i: int| 0 <= i < shorter.len() implies 0 <= #[trigger] shorter[i]
            < fewer.len() by {
            assert(order[i] != at);
            assert(0 <= order[i] < numbers.len());
        }
        lemma_total_in_any_order(fewer, shorter);
        lemma_total_without(numbers, at);
        let without = shorter.map_values(|i: int| fewer[i]);
        assert forall|i: int| 0 <= i < without.len() implies #[trigger] without[i]
            == reordered.drop_last()[i] by {
            assert(order[i] != at);
            assert(0 <= order[i] < numbers.len());
            assert(fewer[shorter[i]] == numbers[order[i]]);
        }
        assert(without =~= reordered.drop_last());
    }
}

/// The bytes of uploads are no more than those of the objects that were uploaded.
proof fn lemma_uploaded_bound(
    outcomes: Seq<Result<u64, ArrowWriterError>>,
    sizes: Seq<nat>,
)
    requires
        sizes.len() == outcomes.len(),
        forall|i: int|
            0 <= i < outcomes.len() ==> ((#[trigger] outcomes[i]) matches Ok(byte_count)
                ==> byte_count == sizes[i]),
    ensures
        uploaded_bytes(outcomes) <= total(sizes),
    decreases outcomes.len(),
{
    if outcomes.len() > 0 {
        let rest = outcomes.skip(1);
        assert forall|i: int| 0 <= i < rest.len() implies ((#[trigger] rest[i]) matches Ok(
            byte_count,
        ) ==> byte_count == sizes.remove(0)[i]) by {
            assert(rest[i] == outcomes[i + 1]);
        }
        lemma_uploaded_bound(rest, sizes.remove(0));
        lemma_total_without(sizes, 0);
        assert(outcomes[0] is Ok ==> outcomes[0]->Ok_0 == sizes[0]);
    }
}

/// The bytes of uploads of different objects are no more than those of all objects.
pub proof fn lemma_uploaded_within_total(
    sizes: Seq<nat>,
    order: Seq<int>,
    outcomes: Seq<Result<u64, ArrowWriterError>>,
)
    requires
        is_selection(order, sizes.len()),
        outcomes.len() == order.len(),
        forall|i: int|
            0 <= i < outcomes.len() ==> ((#[trigger] outcomes[i]) matches Ok(byte_count)
                ==> byte_count == sizes[order[i]]),
    ensures
        uploaded_bytes(outcomes) <= total(sizes),
{
    lemma_total_in_any_order(sizes, order);
    lemma_uploaded_bound(outcomes, order.map_values(|at: int| sizes[at]));
}

/// The bytes of uploads that all succeeded are the sum of their sizes.
pub proof fn lemma_uploaded_total(outcomes: Seq<Result<u64, ArrowWriterError>>)
    requires
        forall|i: int| 0 <= i < outcomes.len() ==> (#[trigger] outcomes[i]) is Ok,
    ensures
        uploaded_bytes(outcomes) == total(
            outcomes.map_values(|outcome: Result<u64, ArrowWriterError>| outcome->Ok_0 as nat),
        ),
    decreases outcomes.len(),
{
    let sizes = outcomes.map_values(
        |outcome: Result<u64, ArrowWriterError>| outcome->Ok_0 as nat,
    );
    if outcomes.len() > 0 {
        let rest = outcomes.skip(1);
        assert forall|i: int| 0 <= i < rest.len() implies (#[trigger] rest[i]) is Ok by {
            assert(rest[i] == outcomes[i + 1]);
        }
        lemma_uploaded_total(rest);
        lemma_total_without(sizes, 0);
        assert(sizes.remove(0) =~= rest.map_values(
            |outcome: Result<u64, ArrowWriterError>| outcome->Ok_0 as nat,
        ));
        assert(outcomes[0] is Ok);
    }
}

/// A write that succeeded has uploaded every object, in whatever order the uploads ended: there
/// are as many as there are objects, and their bytes are the bytes of all objects.
pub proof fn lemma_write_covers_objects(
    sizes: Seq<nat>,
    order: Seq<int>,
    outcomes: Seq<Result<u64, ArrowWriterError>>,
    stats: WriteStats,
)
    requires
        is_order(order, sizes.len()),
        outcomes.len() == order.len(),
        forall|i: int|
            0 <= i < outcomes.len() ==> ((#[trigger] outcomes[i]) matches Ok(byte_count)
                ==> byte_count == sizes[order[i]]),
        is_write_result(Ok(stats), outcomes),
    ensures
        forall|i: int| 0 <= i < outcomes.len() ==> (#[trigger] outcomes[i]) is Ok,
        stats.objects_written == sizes.len(),
        stats.bytes_written == total(sizes),
{
    lemma_uploaded_total(outcomes);
    lemma_total_in_any_order(sizes, order);
    let uploaded = outcomes.map_values(
        |outcome: Result<u64, ArrowWriterError>| outcome->Ok_0 as nat,
    );
    let reordered = order.map_values(|at: int| sizes[at]);
    assert forall|i: int| 0 <= i < uploaded.len() implies uploaded[i] == #[trigger] reordered[i] by {
        assert(outcomes[i] is Ok);
    }
    assert(uploaded =~= reordered);
}

} // verus!
