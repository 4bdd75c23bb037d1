//! How far the uploads of a pdata batch are and what they result in, said of what happened to them.

use vstd::prelude::*;

use crate::error::ArrowWriterError;
use crate::in_flight::{lemma_complete_write, lemma_uploads_stay_valid, UploadEvent, UploadState};
use crate::objects::{object_sizes, object_views};
use crate::uploads::{is_write_result, total, uploaded_bytes, WriteStats};

verus! {

/// The number of uploads that have started.
pub open spec fn starts_in(events: Seq<UploadEvent>) -> nat
    decreases events.len(),
{
    if events.len() == 0 {
        0
    } else {
        starts_in(events.drop_last()) + if events.last() is Start {
            1nat
        } else {
            0nat
        }
    }
}

/// The objects whose uploads have ended, in the order in which they ended.
pub open spec fn ends_in(events: Seq<UploadEvent>) -> Seq<int>
    decreases events.len(),
{
    if events.len() == 0 {
        Seq::empty()
    } else {
        match events.last() {
            UploadEvent::Start => ends_in(events.drop_last()),
            UploadEvent::End { index, .. } => ends_in(events.drop_last()).push(index),
        }
    }
}

/// The upload of an object failed.
pub open spec fn is_failed_end(event: UploadEvent) -> bool {
    event matches UploadEvent::End { outcome, .. } && outcome is Err
}

/// An upload failed.
pub open spec fn has_failure(events: Seq<UploadEvent>) -> bool {
    exists|i: int| 0 <= i < events.len() && is_failed_end(#[trigger] events[i])
}

/// An upload has failed if one had before, or if the last thing that happened was that.
proof fn lemma_failure_so_far(events: Seq<UploadEvent>)
    requires
        events.len() > 0,
    ensures
        has_failure(events) <==> has_failure(events.drop_last()) || is_failed_end(events.last()),
{
    let before = events.drop_last();
    if has_failure(before) {
        let i = choose|i: int| 0 <= i < before.len() && is_failed_end(#[trigger] before[i]);
        assert(is_failed_end(events[i]));
    }
    if is_failed_end(events.last()) {
        assert(is_failed_end(events[events.len() - 1]));
    }
    if has_failure(events) {
        let i = choose|i: int| 0 <= i < events.len() && is_failed_end(#[trigger] events[i]);
        if i < before.len() {
            assert(is_failed_end(before[i]));
        }
    }
}

/// How far uploads are follows from what happened to them. As long as none has failed, the next
/// object's upload starts whenever there is one and fewer are in flight than may be; the objects
/// are taken in order. An upload is running from its start to its end. The write is over when an
/// upload has failed or all have ended.
pub proof fn lemma_how_far_uploads_are(sizes: Seq<nat>, limit: nat, events: Seq<UploadEvent>)
    requires
        UploadState::start(sizes, limit).allows_all(events),
    ensures
        ({
            let state = UploadState::start(sizes, limit).after_all(events);
            let started = starts_in(events);
            let ended = ends_in(events);
            &&& state.sizes == sizes
            &&& state.started == started
            &&& state.ended == ended
            &&& state.has_failed() <==> has_failure(events)
            &&& state.in_flight() == started - ended.len()
            &&& state.next_upload() == if !has_failure(events) && started < sizes.len() && started
                - ended.len() < limit {
                Some(started as int)
            } else {
                None
            }
            &&& forall|index: int| #[trigger]
                state.is_running(index) <==> 0 <= index < started && !ended.contains(index)
            &&& state.is_over() <==> has_failure(events) || ended.len() == sizes.len()
            &&& state.limit == limit
            &&& state.outcomes.len() == ended.len()
        }),
    decreases events.len(),
{
    if events.len() > 0 {
        lemma_how_far_uploads_are(sizes, limit, events.drop_last());
        lemma_failure_so_far(events);
    }
}

/// Which things can happen next to uploads: one starts if it is to start, and one that is running
/// ends, unless one has failed.
pub proof fn lemma_what_can_happen_to_uploads(
    sizes: Seq<nat>,
    limit: nat,
    events: Seq<UploadEvent>,
    event: UploadEvent,
)
    requires
        UploadState::start(sizes, limit).allows_all(events),
    ensures
        UploadState::start(sizes, limit).allows_all(events.push(event)) <==> match event {
            UploadEvent::Start => !has_failure(events) && starts_in(events) < sizes.len()
                && starts_in(events) - ends_in(events).len() < limit,
            UploadEvent::End { index, .. } => !has_failure(events) && 0 <= index < starts_in(events)
                && !ends_in(events).contains(index),
        },
{
    lemma_how_far_uploads_are(sizes, limit, events);
    assert(events.push(event).drop_last() =~= events);
}

/// The first failure of an upload is the last thing that happens, and makes the write fail with its
/// error. A write without a failure results in the number of all objects and their bytes, and it
/// has uploaded each of them once.
pub proof fn lemma_what_uploads_result_in(
    sizes: Seq<nat>,
    limit: nat,
    events: Seq<UploadEvent>,
    result: Result<WriteStats, ArrowWriterError>,
)
    requires
        limit > 0,
        forall|i: int| 0 <= i < sizes.len() ==> #[trigger] sizes[i] <= u64::MAX,
        UploadState::start(sizes, limit).allows_all(events),
        UploadState::start(sizes, limit).after_all(events).is_over(),
        is_write_result(result, UploadState::start(sizes, limit).after_all(events).outcomes),
    ensures
        result is Ok <==> !has_failure(events),
        has_failure(events) ==> (events.last() matches UploadEvent::End { outcome: Err(error), .. }
            && result == Err::<WriteStats, ArrowWriterError>(error)),
        result matches Ok(stats) ==> {
            &&& stats.objects_written == sizes.len()
            &&& stats.bytes_written == total(sizes)
            &&& ends_in(events).len() == sizes.len()
            &&& forall|i: int, j: int|
                0 <= i < j < sizes.len() ==> #[trigger] ends_in(events)[i]
                    != #[trigger] ends_in(events)[j]
        },
{
    let state = UploadState::start(sizes, limit).after_all(events);
    lemma_how_far_uploads_are(sizes, limit, events);
    lemma_uploads_stay_valid(UploadState::start(sizes, limit), events);
    lemma_complete_write(sizes, limit, events, result);
    if has_failure(events) {
        lemma_how_far_uploads_are(sizes, limit, events.drop_last());
        lemma_failure_so_far(events);
        assert(events.len() > 0);
        let before = UploadState::start(sizes, limit).after_all(events.drop_last());
        assert(before.allows(events.last()));
        assert(!has_failure(events.drop_last()));
        assert(state.outcomes.last() is Err);
        let error = result->Err_0;
        let i = choose|i: int|
            {
                &&& 0 <= i < state.outcomes.len()
                &&& #[trigger] state.outcomes[i] == Err::<u64, ArrowWriterError>(error)
                &&& forall|j: int| 0 <= j < i ==> (#[trigger] state.outcomes[j]) is Ok
            };
        assert(i == state.outcomes.len() - 1);
    }
}

/// What outcomes of uploads make of a write: it succeeds if and only if each of them did, with
/// their number and the sum of their bytes. Otherwise it fails with the error of the first one that
/// did not succeed.
pub proof fn lemma_what_outcomes_make(
    result: Result<WriteStats, ArrowWriterError>,
    outcomes: Seq<Result<u64, ArrowWriterError>>,
)
    requires
        is_write_result(result, outcomes),
    ensures
        result is Ok <==> forall|i: int| 0 <= i < outcomes.len() ==> (#[trigger] outcomes[i]) is Ok,
        result matches Ok(stats) ==> stats.objects_written == outcomes.len() && stats.bytes_written
            == total(
            Seq::new(outcomes.len(), |i: int| outcomes[i]->Ok_0 as nat),
        ),
        result matches Err(error) ==> exists|i: int|
            {
                &&& 0 <= i < outcomes.len()
                &&& #[trigger] outcomes[i] == Err::<u64, ArrowWriterError>(error)
                &&& forall|j: int| 0 <= j < i ==> (#[trigger] outcomes[j]) is Ok
            },
{
    if result is Ok {
        lemma_bytes_add_up(outcomes);
    }
}

/// The bytes of uploads that succeeded add up.
proof fn lemma_bytes_add_up(outcomes: Seq<Result<u64, ArrowWriterError>>)
    requires
        forall|i: int| 0 <= i < outcomes.len() ==> (#[trigger] outcomes[i]) is Ok,
    ensures
        uploaded_bytes(outcomes) == total(
            Seq::new(outcomes.len(), |i: int| outcomes[i]->Ok_0 as nat),
        ),
{
    let sizes = Seq::new(outcomes.len(), |i: int| outcomes[i]->Ok_0 as nat);
    crate::uploads::lemma_uploaded_total(outcomes);
    assert(sizes =~= outcomes.map_values(
        |outcome: Result<u64, ArrowWriterError>| outcome->Ok_0 as nat,
    ));
}

/// What is uploaded of an object is all of its bytes, under its name.
pub proof fn lemma_sizes_are_those_of_the_objects(objects: Seq<(String, Vec<u8>)>)
    ensures
        object_views(objects).len() == objects.len(),
        object_sizes(object_views(objects)).len() == objects.len(),
        forall|i: int|
            0 <= i < objects.len() ==> {
                &&& (#[trigger] object_views(objects)[i]).0 == objects[i].0@
                &&& object_views(objects)[i].1 == objects[i].1@
                &&& object_sizes(object_views(objects))[i] == objects[i].1@.len()
            },
{
}

/// A sum is zero for no numbers, and grows by each number that is added.
pub proof fn lemma_sum_of_numbers(numbers: Seq<nat>, more: nat)
    ensures
        total(Seq::<nat>::empty()) == 0,
        total(numbers.push(more)) == total(numbers) + more,
{
    assert(numbers.push(more).drop_last() =~= numbers);
}

} // verus!
