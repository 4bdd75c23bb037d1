//! How pdata batches are answered for, and where a run of the exporter is, said of what happened.

use vstd::prelude::*;

use crate::config::Compression;
use crate::error::ArrowWriterError;
use crate::exporter::{stays, ArrowExporter, ExportAttempt, Message, VerdictView};
use crate::in_flight::{lemma_complete_write, lemma_sizes_fit, UploadEvent, UploadState};
use crate::metrics::Outcome;
use crate::naming::{lemma_one_object_per_payload, populated};
use crate::objects::{is_preparation, object_sizes, object_views};
use crate::payload::{PdataRecords, SignalType};
use crate::pdata_id::PdataId;
use crate::session::{
    all_answers, all_received, answered, is_counted, is_session, lemma_one_answer_for_each_pdata, phase_after,
    Phase, SessionEvent,
};
use crate::uploads::{is_write_result, total, WriteStats};

verus! {

/// A pdata batch is acknowledged if and only if writing it succeeded, whatever was written, and
/// only then it is counted as a success and what was written is counted.
pub proof fn lemma_ack_exactly_after_success(attempt: ExportAttempt)
    ensures
        ({
            let written = attempt matches ExportAttempt::Written { result } && result is Ok;
            &&& attempt.verdict() is Ack <==> written
            &&& attempt.outcome() == Outcome::Success <==> written
            &&& attempt.outcome() == Outcome::Failure <==> !written
            &&& !written ==> attempt.stats().objects_written == 0 && attempt.stats().bytes_written
                == 0
            &&& attempt matches ExportAttempt::Written { result: Ok(stats) } ==> attempt.stats()
                == stats
        }),
{
}

/// A pdata batch that is not acknowledged is refused for good if it could not be converted, if its
/// key is not usable, if its path is not valid or if its rows cannot be encoded. Any other failure
/// is one that submitting the same pdata again may get over. The reason says what failed and ends
/// with the message of the failure.
pub proof fn lemma_which_refusals_are_final(attempt: ExportAttempt)
    ensures
        match attempt {
            ExportAttempt::NotConverted { source } => attempt.verdict() == (VerdictView::Nack {
                permanent: true,
                reason: "failed to convert pdata to OTAP Arrow records: "@ + source@,
            }),
            ExportAttempt::Written { result: Ok(_) } => true,
            ExportAttempt::Written { result: Err(error) } => attempt.verdict() == (
            VerdictView::Nack {
                permanent: match error {
                    ArrowWriterError::ConfigureStorage { .. } => false,
                    ArrowWriterError::InvalidIdempotencyKey { .. } => true,
                    ArrowWriterError::InvalidObjectPath { .. } => true,
                    ArrowWriterError::Encode { .. } => true,
                    ArrowWriterError::Upload { .. } => false,
                    ArrowWriterError::LocalUpload { .. } => false,
                    ArrowWriterError::LocalUploadTask { .. } => false,
                },
                reason: "failed to write Arrow IPC pdata objects: "@ + error.text(),
            }),
        },
{
}

/// Failures of the pdata stay if it is written again, and failures of the storage do not.
pub proof fn lemma_which_failures_stay(error: ArrowWriterError)
    ensures
        stays(error) <==> match error {
            ArrowWriterError::ConfigureStorage { .. } => false,
            ArrowWriterError::InvalidIdempotencyKey { .. } => true,
            ArrowWriterError::InvalidObjectPath { .. } => true,
            ArrowWriterError::Encode { .. } => true,
            ArrowWriterError::Upload { .. } => false,
            ArrowWriterError::LocalUpload { .. } => false,
            ArrowWriterError::LocalUploadTask { .. } => false,
        },
{
}

/// A pdata batch whose uploads have all ended well is acknowledged and counted as a success, with
/// one object for each populated payload and the bytes of all of them; a pdata batch of which an
/// upload failed is not. That holds in whatever order the uploads ended and however many were in
/// flight.
pub proof fn lemma_complete_write_is_acknowledged(
    id: PdataId,
    records: PdataRecords,
    template: Seq<char>,
    compression: Compression,
    objects: Vec<(String, Vec<u8>)>,
    limit: nat,
    events: Seq<UploadEvent>,
    result: Result<WriteStats, ArrowWriterError>,
)
    requires
        is_preparation(Ok(objects), id, records, template, compression),
        limit > 0,
        UploadState::start(object_sizes(object_views(objects@)), limit).allows_all(events),
        UploadState::start(object_sizes(object_views(objects@)), limit).after_all(
            events,
        ).is_over(),
        is_write_result(
            result,
            UploadState::start(object_sizes(object_views(objects@)), limit).after_all(
                events,
            ).outcomes,
        ),
    ensures
        ({
            let attempt = ExportAttempt::Written { result };
            let outcomes = UploadState::start(
                object_sizes(object_views(objects@)),
                limit,
            ).after_all(events).outcomes;
            let all_stored = forall|i: int|
                0 <= i < outcomes.len() ==> (#[trigger] outcomes[i]) is Ok;
            &&& attempt.verdict() is Ack <==> all_stored
            &&& attempt.outcome() == Outcome::Success <==> all_stored
            &&& all_stored ==> attempt.stats().objects_written == populated(records.payloads@)
                && attempt.stats().bytes_written == total(object_sizes(object_views(objects@)))
        }),
{
    lemma_one_object_per_payload(
        records.payloads@,
        template,
        id,
        records.signal,
        compression.codec(),
    );
    lemma_sizes_fit(objects@);
    lemma_complete_write(object_sizes(object_views(objects@)), limit, events, result);
    let outcomes = UploadState::start(object_sizes(object_views(objects@)), limit).after_all(
        events,
    ).outcomes;
    if result is Err {
        let i = choose|i: int| 0 <= i < outcomes.len() && (#[trigger] outcomes[i]) is Err;
        assert(outcomes[i] is Err);
    }
}

/// An attempt is counted once: the counter of its kind of telemetry and its end grows by one, the
/// other five stay as they are, and what was written is added if it succeeded.
pub proof fn lemma_attempt_is_counted_once<C, R>(
    before: ArrowExporter<C, R>,
    after: ArrowExporter<C, R>,
    signal: SignalType,
    attempt: ExportAttempt,
)
    requires
        is_counted(before, after, signal, attempt),
    ensures
        ({
            let written = attempt matches ExportAttempt::Written { result } && result is Ok;
            let end = if written {
                Outcome::Success
            } else {
                Outcome::Failure
            };
            &&& after.pdata_metrics.messages(signal, end) == before.pdata_metrics.messages(
                signal,
                end,
            ) + 1
            &&& forall|other: SignalType, ending: Outcome|
                other != signal || ending != end ==> #[trigger] after.pdata_metrics.messages(
                    other,
                    ending,
                ) == before.pdata_metrics.messages(other, ending)
            &&& attempt matches ExportAttempt::Written { result: Ok(stats) } ==> {
                &&& after.io_metrics.objects_written == before.io_metrics.objects_written
                    + stats.objects_written
                &&& after.io_metrics.bytes_written == before.io_metrics.bytes_written
                    + stats.bytes_written
            }
            &&& !written ==> after.io_metrics == before.io_metrics
            &&& after.config == before.config
        }),
{
}

/// Where a run is follows from the last two things that happened in it. It waits for a message at
/// the start, after a message that concerns no pdata, and after an answer that the pipeline took;
/// it converts a pdata batch that has just come in, and writes one that has just been converted; it
/// answers for one that could not be converted or that was written, with or without success. It has
/// stopped after a shutdown, and failed after a failure of the pipeline.
pub proof fn lemma_where_a_run_is<D, P, E>(events: Seq<SessionEvent<D, P, E>>)
    requires
        is_session(events),
    ensures
        events.len() == 0 ==> phase_after(events) == Phase::<P>::Receiving,
        events.len() > 0 ==> match events.last() {
            SessionEvent::Received(Ok(Message::CollectTelemetry)) => phase_after(events)
                == Phase::<P>::Receiving,
            SessionEvent::Received(Ok(Message::Other)) => phase_after(events)
                == Phase::<P>::Receiving,
            SessionEvent::Received(Ok(Message::Shutdown { .. })) => phase_after(events)
                == Phase::<P>::Stopped,
            SessionEvent::Received(Ok(Message::PData(pdata))) => phase_after(events)
                == Phase::Converting(pdata),
            SessionEvent::Received(Err(_)) => phase_after(events) == Phase::<P>::Failed,
            SessionEvent::Converted(Ok(_)) => events.len() > 1 && (events[events.len() - 2] matches SessionEvent::Received(
                Ok(Message::PData(pdata)),
            ) && phase_after(events) == Phase::Writing(pdata)),
            SessionEvent::Converted(Err(_)) => phase_after(events) == Phase::<P>::Notifying,
            SessionEvent::Written(_) => phase_after(events) == Phase::<P>::Notifying,
            SessionEvent::Notified(Ok(_)) => phase_after(events) == Phase::<P>::Receiving,
            SessionEvent::Notified(Err(_)) => phase_after(events) == Phase::<P>::Failed,
        },
{
    if events.len() > 1 {
        let before = events.drop_last();
        assert(before.last() == events[events.len() - 2]);
        assert(is_session(before));
        assert(phase_after(before) == phase_after(before.drop_last()).after(before.last()));
        assert(phase_after(before.drop_last()).allows(before.last()));
    }
}

/// Which things can happen next in a run: a message comes in, or fails to, while one is waited for;
/// converting, writing and answering end while they are under way; and nothing happens any more
/// once the run has stopped or failed.
pub proof fn lemma_what_can_happen_next<D, P, E>(
    events: Seq<SessionEvent<D, P, E>>,
    event: SessionEvent<D, P, E>,
)
    requires
        is_session(events),
    ensures
        is_session(events.push(event)) <==> match event {
            SessionEvent::Received(_) => phase_after(events) is Receiving,
            SessionEvent::Converted(_) => phase_after(events) is Converting,
            SessionEvent::Written(_) => phase_after(events) is Writing,
            SessionEvent::Notified(_) => phase_after(events) is Notifying,
        },
{
    assert(events.push(event).drop_last() =~= events);
}

/// Each event that ends the work on a pdata batch adds one answer, for the last pdata batch that
/// came in, and no other event adds one. A pdata batch that could not be converted is refused for
/// good. One that was written is acknowledged if and only if the write succeeded.
pub proof fn lemma_which_answer_is_given<D, P, E>(
    events: Seq<SessionEvent<D, P, E>>,
    event: SessionEvent<D, P, E>,
)
    requires
        is_session(events.push(event)),
    ensures
        ({
            let before = all_answers(events);
            let after = all_answers(events.push(event));
            match event {
                SessionEvent::Received(_) => after == before,
                SessionEvent::Converted(Ok(_)) => after == before,
                SessionEvent::Notified(_) => after == before,
                SessionEvent::Converted(Err(_)) => {
                    &&& after.len() == before.len() + 1
                    &&& after.drop_last() == before
                    &&& all_received(events).len() > 0
                    &&& after.last().0 == all_received(events).last()
                    &&& after.last().1 matches VerdictView::Nack { permanent, .. } && permanent
                },
                SessionEvent::Written(result) => {
                    &&& after.len() == before.len() + 1
                    &&& after.drop_last() == before
                    &&& all_received(events).len() > 0
                    &&& after.last().0 == all_received(events).last()
                    &&& after.last().1 is Ack <==> result is Ok
                },
            }
        }),
{
    let longer = events.push(event);
    assert(longer.drop_last() =~= events);
    assert(is_session(events));
    lemma_one_answer_for_each_pdata(events);
    let before = all_answers(events);
    let after = all_answers(longer);
    let given = phase_after(events).answers(event);
    assert(after == before + given);
    if given.len() == 0 {
        assert(after =~= before);
    } else {
        assert(after.drop_last() =~= before);
        let pdata = phase_after(events).unanswered()[0];
        assert(all_received(events) == answered(events) + seq![pdata]);
        assert(all_received(events).last() == pdata);
        assert(after.last() == given[0]);
    }
}

} // verus!
