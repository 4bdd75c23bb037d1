//! Uploading the objects of one pdata batch, several at a time.

use vstd::prelude::*;

use crate::error::ArrowWriterError;
use crate::objects::{object_sizes, object_views};
use crate::uploads::{
    is_order, is_selection, is_write_result, lemma_uploaded_within_total,
    lemma_write_covers_objects, total, WriteStats,
};

verus! {

/// How far the uploads of a pdata batch are: the sizes of the objects, how many uploads may be in
/// flight, how many have started, and those that have ended, in the order in which they ended,
/// with the outcome of each.
pub struct UploadState {
    pub sizes: Seq<nat>,
    pub limit: nat,
    pub started: nat,
    pub ended: Seq<int>,
    pub outcomes: Seq<Result<u64, ArrowWriterError>>,
}

impl UploadState {
    /// No upload has started.
    pub open spec fn start(sizes: Seq<nat>, limit: nat) -> UploadState {
        UploadState { sizes, limit, started: 0, ended: Seq::empty(), outcomes: Seq::empty() }
    }

    /// The number of uploads that have started and not ended.
    pub open spec fn in_flight(self) -> int {
        self.started - self.ended.len()
    }

    /// An upload has failed. It is the last one that is taken note of.
    pub open spec fn has_failed(self) -> bool {
        self.outcomes.len() > 0 && self.outcomes.last() is Err
    }

    /// The write has ended: an upload has failed, or all uploads have ended.
    pub open spec fn is_over(self) -> bool {
        self.has_failed() || self.ended.len() == self.sizes.len()
    }

    /// The object whose upload is to start now, if there is one.
    pub open spec fn next_upload(self) -> Option<int> {
        if !self.has_failed() && self.started < self.sizes.len() && self.in_flight() < self.limit {
            Some(self.started as int)
        } else {
            None
        }
    }

    /// After the next upload has started.
    pub open spec fn after_start(self) -> UploadState {
        if self.next_upload() is Some {
            UploadState { started: self.started + 1, ..self }
        } else {
            self
        }
    }

    /// The upload of an object has started and not ended.
    pub open spec fn is_running(self, index: int) -> bool {
        0 <= index < self.started && !self.ended.contains(index)
    }

    /// After the upload of an object has ended. Once an upload has failed, nothing changes.
    pub open spec fn after_end(self, index: int, outcome: Result<(), ArrowWriterError>) -> UploadState {
        if self.has_failed() {
            self
        } else {
            UploadState {
                ended: self.ended.push(index),
                outcomes: self.outcomes.push(
                    match outcome {
                        Ok(_) => Ok(self.sizes[index] as u64),
                        Err(error) => Err(error),
                    },
                ),
                ..self
            }
        }
    }

    /// The uploads that have ended are different ones of those that have started, no more are in
    /// flight than may be, and each has the outcome of its object.
    pub open spec fn is_valid(self) -> bool {
        &&& self.limit > 0
        &&& self.started <= self.sizes.len()
        &&& is_selection(self.ended, self.started)
        &&& 0 <= self.in_flight() <= self.limit
        &&& self.outcomes.len() == self.ended.len()
        &&& forall|i: int| 0 <= i < self.sizes.len() ==> #[trigger] self.sizes[i] <= u64::MAX
        &&& forall|i: int|
            0 <= i < self.outcomes.len() ==> ((#[trigger] self.outcomes[i]) matches Ok(byte_count)
                ==> byte_count == self.sizes[self.ended[i]])
        &&& forall|i: int|
            0 <= i < self.outcomes.len() - 1 ==> (#[trigger] self.outcomes[i]) is Ok
    }
}

/// While one of the numbers below a bound is missing, there are fewer numbers than the bound.
proof fn lemma_one_is_missing(selection: Seq<int>, count: nat, missing: int)
    requires
        is_selection(selection, count),
        0 <= missing < count,
        !selection.contains(missing),
    ensures
        selection.len() < count,
{
    let more = selection.push(missing);
    assert(more.no_duplicates()) by {
        assert forall|i: int, j: int| 0 <= i < more.len() && 0 <= j < more.len() && i != j implies more[i]
            != more[j] by {
            if i == selection.len() {
                assert(selection.contains(selection[j]));
            } else if j == selection.len() {
                assert(selection.contains(selection[i]));
            } else if i < j {
                assert(selection[i] != selection[j]);
            } else {
                assert(selection[j] != selection[i]);
            }
        }
    }
    more.unique_seq_to_set();
    let range = vstd::set_lib::set_int_range(0, count as int);
    vstd::set_lib::lemma_int_range(0, count as int);
    assert forall|n: int| more.to_set().contains(n) implies range.contains(n) by {
        let i = choose|i: int| 0 <= i < more.len() && more[i] == n;
        if i < selection.len() {
            assert(selection[i] == n);
        }
    }
    vstd::set_lib::lemma_len_subset(more.to_set(), range);
}

/// Starting an upload keeps the state valid.
proof fn lemma_start_keeps_valid(state: UploadState)
    requires
        state.is_valid(),
    ensures
        state.after_start().is_valid(),
{
}

/// Ending an upload that is running keeps the state valid.
proof fn lemma_end_keeps_valid(
    state: UploadState,
    index: int,
    outcome: Result<(), ArrowWriterError>,
)
    requires
        state.is_valid(),
        state.is_running(index),
    ensures
        state.after_end(index, outcome).is_valid(),
{
    let after = state.after_end(index, outcome);
    lemma_one_is_missing(state.ended, state.started, index);
    if !state.has_failed() {
        assert forall|i: int, j: int| 0 <= i < j < after.ended.len() implies #[trigger] after.ended[i]
            != #[trigger] after.ended[j] by {
            if j == state.ended.len() {
                assert(state.ended.contains(state.ended[i]));
            } else {
                assert(state.ended[i] != state.ended[j]);
            }
        }
        assert forall|i: int| 0 <= i < after.outcomes.len() implies ((
        #[trigger] after.outcomes[i]) matches Ok(byte_count) ==> byte_count
            == after.sizes[after.ended[i]]) by {
            if i < state.outcomes.len() {
                assert(after.outcomes[i] == state.outcomes[i]);
            }
        }
        assert forall|i: int| 0 <= i < after.outcomes.len() - 1 implies (
        #[trigger] after.outcomes[i]) is Ok by {
            assert(after.outcomes[i] == state.outcomes[i]);
            if i == state.outcomes.len() - 1 {
                assert(state.outcomes[i] == state.outcomes.last());
            }
        }
    }
}

/// The uploads of a pdata batch that are under way.
#[derive(Debug)]
pub struct PdataUpload {
    sizes: Vec<u64>,
    limit: usize,
    started: usize,
    ended: Vec<usize>,
    outcomes: Vec<Result<u64, ArrowWriterError>>,
}

impl View for PdataUpload {
    type V = UploadState;

    closed spec fn view(&self) -> UploadState {
        UploadState {
            sizes: self.sizes@.map_values(|size: u64| size as nat),
            limit: self.limit as nat,
            started: self.started as nat,
            ended: self.ended@.map_values(|index: usize| index as int),
            outcomes: self.outcomes@,
        }
    }
}

impl PdataUpload {
    /// The state is valid, and the bytes of all objects can be counted.
    pub open spec fn is_well_formed(self) -> bool {
        self@.is_valid() && total(self@.sizes) <= u64::MAX
    }

    /// Starts the uploads of objects, of which some may be in flight at a time.
    pub fn start(objects: &Vec<(String, Vec<u8>)>, max_concurrent_uploads: usize) -> (upload: Self)
        requires
            max_concurrent_uploads > 0,
            total(object_sizes(object_views(objects@))) <= u64::MAX,
        ensures
            upload@ == UploadState::start(
                object_sizes(object_views(objects@)),
                max_concurrent_uploads as nat,
            ),
            upload.is_well_formed(),
    {
        let ghost all = object_sizes(object_views(objects@));
        let mut sizes: Vec<u64> = Vec::new();
        let mut i: usize = 0;
        while i < objects.len()
            invariant
                i <= objects.len(),
                all == object_sizes(object_views(objects@)),
                sizes@.map_values(|size: u64| size as nat) == all.take(i as int),
            decreases objects.len() - i,
        {
            let ghost before = sizes@.map_values(|size: u64| size as nat);
            sizes.push(objects[i].1.len() as u64);
            assert(all[i as int] == object_views(objects@)[i as int].1.len());
            assert(all.take(i + 1) =~= all.take(i as int).push(all[i as int]));
            assert(sizes@.map_values(|size: u64| size as nat) =~= before.push(all[i as int]));
            i += 1;
        }
        assert(all.take(i as int) =~= all);
        let ended: Vec<usize> = Vec::new();
        assert(ended@.map_values(|index: usize| index as int) =~= Seq::<int>::empty());
        PdataUpload {
            sizes,
            limit: max_concurrent_uploads,
            started: 0,
            ended,
            outcomes: Vec::new(),
        }
    }

    /// Returns whether an upload has failed.
    pub fn has_failed(&self) -> (failed: bool)
        ensures
            failed == self@.has_failed(),
    {
        let count = self.outcomes.len();
        count > 0 && self.outcomes[count - 1].is_err()
    }

    /// Returns whether the write has ended.
    pub fn is_over(&self) -> (over: bool)
        ensures
            over == self@.is_over(),
    {
        self.has_failed() || self.ended.len() == self.sizes.len()
    }

    /// Returns whether the upload of an object has started and not ended.
    pub fn is_running(&self, index: usize) -> (running: bool)
        ensures
            running == self@.is_running(index as int),
    {
        let ghost ended = self@.ended;
        let mut i: usize = 0;
        while i < self.ended.len()
            invariant
                i <= self.ended.len(),
                ended == self@.ended,
                forall|k: int| 0 <= k < i ==> #[trigger] ended[k] != index,
            decreases self.ended.len() - i,
        {
            if self.ended[i] == index {
                assert(ended[i as int] == index);
                return false;
            }
            i += 1;
        }
        index < self.started
    }

    /// Starts the next upload, if one is to start now, and returns the number of its object.
    pub fn next_upload(&mut self) -> (index: Option<usize>)
        requires
            old(self).is_well_formed(),
        ensures
            final(self).is_well_formed(),
            final(self)@ == old(self)@.after_start(),
            match (index, old(self)@.next_upload()) {
                (Some(found), Some(next)) => found == next,
                (None, None) => true,
                _ => false,
            },
    {
        proof {
            lemma_start_keeps_valid(self@);
        }
        if !self.has_failed() && self.started < self.sizes.len() && self.started - self.ended.len()
            < self.limit {
            let index = self.started;
            self.started = self.started + 1;
            Some(index)
        } else {
            None
        }
    }

    /// Takes note of how the upload of an object ended. Once an upload has failed, nothing changes.
    pub fn finish(&mut self, index: usize, outcome: Result<(), ArrowWriterError>)
        requires
            old(self).is_well_formed(),
            old(self)@.is_running(index as int),
        ensures
            final(self).is_well_formed(),
            final(self)@ == old(self)@.after_end(index as int, outcome),
    {
        proof {
            lemma_end_keeps_valid(self@, index as int, outcome);
        }
        if !self.has_failed() {
            let outcome = match outcome {
                Ok(_) => Ok(self.sizes[index]),
                Err(error) => Err(error),
            };
            self.ended.push(index);
            self.outcomes.push(outcome);
            assert(self@.ended =~= old(self)@.ended.push(index as int));
            assert(self@.sizes[index as int] == self.sizes@[index as int]);
        }
    }

    /// Returns what the write has resulted in.
    ///
    /// # Errors
    ///
    /// Returns the error of the upload that failed.
    pub fn into_result(self) -> (result: Result<WriteStats, ArrowWriterError>)
        requires
            self.is_well_formed(),
            self@.is_over(),
        ensures
            is_write_result(result, self@.outcomes),
            result is Ok <==> !self@.has_failed(),
            result matches Ok(stats) ==> stats.objects_written == self@.sizes.len()
                && stats.bytes_written == total(self@.sizes),
    {
        proof {
            let state = self@;
            lemma_uploaded_within_total(state.sizes, state.ended, state.outcomes);
            lemma_write_ends(state);
        }
        WriteStats::from_uploads(self.outcomes)
    }
}

/// What a write results in that has ended.
proof fn lemma_write_ends(state: UploadState)
    requires
        state.is_valid(),
        state.is_over(),
    ensures
        forall|result: Result<WriteStats, ArrowWriterError>| #[trigger]
            is_write_result(result, state.outcomes) ==> {
                &&& result is Ok <==> !state.has_failed()
                &&& result matches Ok(stats) ==> stats.objects_written == state.sizes.len()
                    && stats.bytes_written == total(state.sizes)
            },
        !state.has_failed() ==> state.started == state.sizes.len() && is_order(
            state.ended,
            state.sizes.len(),
        ),
{
    assert forall|result: Result<WriteStats, ArrowWriterError>| #[trigger]
        is_write_result(result, state.outcomes) implies {
        &&& result is Ok <==> !state.has_failed()
        &&& result matches Ok(stats) ==> stats.objects_written == state.sizes.len()
            && stats.bytes_written == total(state.sizes)
    } by {
        if let Ok(stats) = result {
            if state.outcomes.len() > 0 {
                assert(state.outcomes[state.outcomes.len() - 1] is Ok);
            }
            lemma_write_covers_objects(state.sizes, state.ended, state.outcomes, stats);
        }
        if let Err(error) = result {
            let i = choose|i: int|
                0 <= i < state.outcomes.len() && #[trigger] state.outcomes[i] == Err::<
                    u64,
                    ArrowWriterError,
                >(error);
            assert(i == state.outcomes.len() - 1);
        }
    }
}

/// The sizes of objects can be counted.
pub proof fn lemma_sizes_fit(objects: Seq<(String, Vec<u8>)>)
    ensures
        forall|i: int|
            0 <= i < object_sizes(object_views(objects)).len() ==> #[trigger] object_sizes(
                object_views(objects),
            )[i] <= u64::MAX,
{
    let sizes = object_sizes(object_views(objects));
    assert forall|i: int| 0 <= i < sizes.len() implies #[trigger] sizes[i] <= u64::MAX by {
        assert(sizes[i] == objects[i].1.len());
    }
}

/// Something that happens to an upload.
pub enum UploadEvent {
    /// The next upload starts.
    Start,
    /// An upload ends.
    End {
        /// The number of the object.
        index: int,
        /// How the upload ended.
        outcome: Result<(), ArrowWriterError>,
    },
}

impl UploadState {
    /// Something can happen now: an upload starts only when one is to start, and only an upload
    /// that is running ends. After a failure nothing happens.
    pub open spec fn allows(self, event: UploadEvent) -> bool {
        match event {
            UploadEvent::Start => self.next_upload() is Some,
            UploadEvent::End { index, .. } => !self.has_failed() && self.is_running(index),
        }
    }

    /// After something has happened.
    pub open spec fn after(self, event: UploadEvent) -> UploadState {
        match event {
            UploadEvent::Start => self.after_start(),
            UploadEvent::End { index, outcome } => self.after_end(index, outcome),
        }
    }

    /// After several things have happened.
    pub open spec fn after_all(self, events: Seq<UploadEvent>) -> UploadState
        decreases events.len(),
    {
        if events.len() == 0 {
            self
        } else {
            self.after_all(events.drop_last()).after(events.last())
        }
    }

    /// Several things can happen, one after the other.
    pub open spec fn allows_all(self, events: Seq<UploadEvent>) -> bool
        decreases events.len(),
    {
        events.len() == 0 || {
            &&& self.allows_all(events.drop_last())
            &&& self.after_all(events.drop_last()).allows(events.last())
        }
    }
}

/// Whatever happens to uploads, their state stays valid.
pub proof fn lemma_uploads_stay_valid(state: UploadState, events: Seq<UploadEvent>)
    requires
        state.is_valid(),
        state.allows_all(events),
    ensures
        state.after_all(events).is_valid(),
        state.after_all(events).sizes == state.sizes,
        state.after_all(events).limit == state.limit,
    decreases events.len(),
{
    if events.len() > 0 {
        let before = state.after_all(events.drop_last());
        lemma_uploads_stay_valid(state, events.drop_last());
        match events.last() {
            UploadEvent::Start => {
                lemma_start_keeps_valid(before);
            },
            UploadEvent::End { index, outcome } => {
                lemma_end_keeps_valid(before, index, outcome);
            },
        }
    }
}

/// A write that is not over goes on: an upload is to start, or one is in flight.
pub proof fn lemma_write_goes_on(state: UploadState)
    requires
        state.is_valid(),
        !state.is_over(),
    ensures
        state.next_upload() is Some || state.in_flight() > 0,
{
}

/// What can happen one after the other can happen up to any point.
proof fn lemma_allows_fewer(state: UploadState, events: Seq<UploadEvent>, count: int)
    requires
        state.allows_all(events),
        0 <= count <= events.len(),
    ensures
        state.allows_all(events.take(count)),
    decreases events.len(),
{
    if count == events.len() {
        assert(events.take(count) =~= events);
    } else {
        lemma_allows_fewer(state, events.drop_last(), count);
        assert(events.drop_last().take(count) =~= events.take(count));
    }
}

/// At every moment of a write, no more uploads have started and not ended than may be in flight.
pub proof fn lemma_uploads_in_flight(sizes: Seq<nat>, limit: nat, events: Seq<UploadEvent>)
    requires
        limit > 0,
        forall|i: int| 0 <= i < sizes.len() ==> #[trigger] sizes[i] <= u64::MAX,
        UploadState::start(sizes, limit).allows_all(events),
    ensures
        forall|count: int|
            0 <= count <= events.len() ==> 0 <= (#[trigger] UploadState::start(
                sizes,
                limit,
            ).after_all(events.take(count))).in_flight() <= limit,
{
    let start = UploadState::start(sizes, limit);
    assert forall|count: int| 0 <= count <= events.len() implies 0 <= (
    #[trigger] UploadState::start(sizes, limit).after_all(events.take(count))).in_flight()
        <= limit by {
        lemma_allows_fewer(start, events, count);
        lemma_uploads_stay_valid(start, events.take(count));
    }
}

/// A write that has ended without a failure has uploaded every object once, and it results in the
/// number of the objects and the bytes of all of them, however many uploads may be in flight.
pub proof fn lemma_complete_write(
    sizes: Seq<nat>,
    limit: nat,
    events: Seq<UploadEvent>,
    result: Result<WriteStats, ArrowWriterError>,
)
    requires
        limit > 0,
        forall|i: int| 0 <= i < sizes.len() ==> #[trigger] sizes[i] <= u64::MAX,
        UploadState::start(sizes, limit).allows_all(events),
        UploadState::start(sizes, limit).after_all(events).is_over(),
        is_write_result(result, UploadState::start(sizes, limit).after_all(events).outcomes),
    ensures
        ({
            let end = UploadState::start(sizes, limit).after_all(events);
            &&& result is Ok <==> !end.has_failed()
            &&& result matches Ok(stats) ==> {
                &&& end.started == sizes.len()
                &&& is_order(end.ended, sizes.len())
                &&& forall|i: int|
                    0 <= i < end.outcomes.len() ==> (#[trigger] end.outcomes[i]) is Ok
                &&& stats.objects_written == sizes.len()
                &&& stats.bytes_written == total(sizes)
            }
        }),
{
    let start = UploadState::start(sizes, limit);
    lemma_uploads_stay_valid(start, events);
    lemma_write_ends(start.after_all(events));
}

} // verus!
