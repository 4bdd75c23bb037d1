//! A run of the exporter: messages come in one after the other, and each pdata batch is converted,
//! written and answered for before the next message is taken.

use vstd::pervasive::unreached;
use vstd::prelude::*;

use crate::error::ArrowWriterError;
use crate::exporter::{
    export_pdata, Action, ArrowExporter, ExportAttempt, Message, TerminalState, Verdict,
    VerdictView,
};
use crate::metrics::{all_snapshots, MetricSnapshot, Outcome};
use crate::payload::{PdataRecords, SignalType};
use crate::uploads::WriteStats;

verus! {

/// Where a run of the exporter is.
#[derive(Debug)]
pub enum Phase<P> {
    /// The next message is waited for.
    Receiving,
    /// A pdata batch is being converted to Arrow records.
    Converting(P),
    /// The Arrow records of a pdata batch are being written.
    Writing(P),
    /// The pipeline is being told the answer for a pdata batch.
    Notifying,
    /// The exporter has stopped.
    Stopped,
    /// The pipeline has failed.
    Failed,
}

/// Something that happens in a run of the exporter. `E` is a failure of the pipeline.
pub enum SessionEvent<D, P, E> {
    /// A message comes in, or the pipeline fails to hand one out.
    Received(Result<Message<D, P>, E>),
    /// Converting the pdata batch has ended.
    Converted(Result<PdataRecords, String>),
    /// Writing the pdata batch has ended.
    Written(Result<WriteStats, ArrowWriterError>),
    /// The pipeline was told the answer, or failed to take it.
    Notified(Result<(), E>),
}

impl<P> Phase<P> {
    /// The pdata batch that has no answer yet, if there is one.
    pub open spec fn unanswered(self) -> Seq<P> {
        match self {
            Phase::Converting(pdata) => seq![pdata],
            Phase::Writing(pdata) => seq![pdata],
            _ => Seq::empty(),
        }
    }

    /// Something can happen now.
    pub open spec fn allows<D, E>(self, event: SessionEvent<D, P, E>) -> bool {
        match event {
            SessionEvent::Received(_) => self is Receiving,
            SessionEvent::Converted(_) => self is Converting,
            SessionEvent::Written(_) => self is Writing,
            SessionEvent::Notified(_) => self is Notifying,
        }
    }

    /// After something has happened. Only pdata that has been converted is written.
    pub open spec fn after<D, E>(self, event: SessionEvent<D, P, E>) -> Phase<P> {
        match event {
            SessionEvent::Received(Ok(Message::PData(pdata))) => Phase::Converting(pdata),
            SessionEvent::Received(Ok(Message::Shutdown { .. })) => Phase::Stopped,
            SessionEvent::Received(Ok(_)) => Phase::Receiving,
            SessionEvent::Received(Err(_)) => Phase::Failed,
            SessionEvent::Converted(Ok(_)) => match self {
                Phase::Converting(pdata) => Phase::Writing(pdata),
                _ => self,
            },
            SessionEvent::Converted(Err(_)) => Phase::Notifying,
            SessionEvent::Written(_) => Phase::Notifying,
            SessionEvent::Notified(Ok(_)) => Phase::Receiving,
            SessionEvent::Notified(Err(_)) => Phase::Failed,
        }
    }

    /// The answers that are given when something happens, each for a pdata batch.
    pub open spec fn answers<D, E>(self, event: SessionEvent<D, P, E>) -> Seq<(P, VerdictView)> {
        match (self, event) {
            (Phase::Converting(pdata), SessionEvent::Converted(Err(source))) => seq![
                (pdata, (ExportAttempt::NotConverted { source }).verdict()),
            ],
            (Phase::Writing(pdata), SessionEvent::Written(result)) => seq![
                (pdata, (ExportAttempt::Written { result }).verdict()),
            ],
            _ => Seq::empty(),
        }
    }
}

/// The pdata batches that come in when something happens.
pub open spec fn received<D, P, E>(event: SessionEvent<D, P, E>) -> Seq<P> {
    match event {
        SessionEvent::Received(Ok(Message::PData(pdata))) => seq![pdata],
        _ => Seq::empty(),
    }
}

/// Where a run is after several things have happened.
pub open spec fn phase_after<D, P, E>(events: Seq<SessionEvent<D, P, E>>) -> Phase<P>
    decreases events.len(),
{
    if events.len() == 0 {
        Phase::Receiving
    } else {
        phase_after(events.drop_last()).after(events.last())
    }
}

/// Several things can happen in a run, one after the other.
pub open spec fn is_session<D, P, E>(events: Seq<SessionEvent<D, P, E>>) -> bool
    decreases events.len(),
{
    events.len() == 0 || {
        &&& is_session(events.drop_last())
        &&& phase_after(events.drop_last()).allows(events.last())
    }
}

/// The pdata batches that have come in, in order.
pub open spec fn all_received<D, P, E>(events: Seq<SessionEvent<D, P, E>>) -> Seq<P>
    decreases events.len(),
{
    if events.len() == 0 {
        Seq::empty()
    } else {
        all_received(events.drop_last()) + received(events.last())
    }
}

/// The answers that have been given, in order, each for a pdata batch.
pub open spec fn all_answers<D, P, E>(events: Seq<SessionEvent<D, P, E>>) -> Seq<(P, VerdictView)>
    decreases events.len(),
{
    if events.len() == 0 {
        Seq::empty()
    } else {
        all_answers(events.drop_last()) + phase_after(events.drop_last()).answers(events.last())
    }
}

/// The pdata batches that have been answered for, in order.
pub open spec fn answered<D, P, E>(events: Seq<SessionEvent<D, P, E>>) -> Seq<P> {
    all_answers(events).map_values(|answer: (P, VerdictView)| answer.0)
}

/// What there is to do about a message.
#[derive(Debug)]
pub enum Reaction<D, E> {
    /// Report the metrics.
    Report,
    /// Stop.
    Stop(TerminalState<D>),
    /// Convert the pdata batch that has come in.
    Convert,
    /// Nothing.
    Ignore,
    /// Give up: the pipeline has failed.
    Fail(E),
}

/// What there is to do about a pdata batch that converting was tried for.
pub enum ExportStep<P> {
    /// Write the Arrow records.
    Write(PdataRecords),
    /// Tell the pipeline the answer for the pdata batch.
    Notify(P, Verdict),
}

/// A run of the exporter.
#[derive(Debug)]
pub struct Session<P> {
    phase: Phase<P>,
}

impl<P> View for Session<P> {
    type V = Phase<P>;

    closed spec fn view(&self) -> Phase<P> {
        self.phase
    }
}

impl<P> Session<P> {
    /// Starts a run.
    pub fn new() -> (session: Self)
        ensures
            session@ == Phase::<P>::Receiving,
    {
        Session { phase: Phase::Receiving }
    }

    /// Returns where the run is.
    pub fn phase(&self) -> (phase: &Phase<P>)
        ensures
            *phase == self@,
    {
        &self.phase
    }

    /// Takes a message, or the failure to get one, and returns what there is to do about it.
    pub fn receive<C, R, D, E>(
        &mut self,
        exporter: &mut ArrowExporter<C, R>,
        incoming: Result<Message<D, P>, E>,
    ) -> (reaction: Reaction<D, E>)
        requires
            old(self)@ is Receiving,
        ensures
            final(self)@ == old(self)@.after(SessionEvent::Received(incoming)),
            match incoming {
                Ok(Message::CollectTelemetry) => reaction is Report && *final(exporter) == *old(
                    exporter,
                ),
                Ok(Message::Shutdown { deadline }) => {
                    &&& reaction matches Reaction::Stop(state)
                    &&& state.deadline == deadline
                    &&& state.metrics@ == all_snapshots(
                        old(exporter).pdata_metrics,
                        old(exporter).io_metrics,
                    )
                    &&& all_snapshots(final(exporter).pdata_metrics, final(exporter).io_metrics)
                        == Seq::<MetricSnapshot>::empty()
                    &&& final(exporter).config == old(exporter).config
                },
                Ok(Message::PData(_)) => reaction is Convert && *final(exporter) == *old(exporter),
                Ok(Message::Other) => reaction is Ignore && *final(exporter) == *old(exporter),
                Err(error) => reaction == Reaction::<D, E>::Fail(error) && *final(exporter) == *old(
                    exporter,
                ),
            },
    {
        let message = match incoming {
            Ok(message) => message,
            Err(error) => {
                self.phase = Phase::Failed;
                return Reaction::Fail(error);
            },
        };
        match exporter.receive(message) {
            Action::Report => Reaction::Report,
            Action::Stop(state) => {
                self.phase = Phase::Stopped;
                Reaction::Stop(state)
            },
            Action::Export(pdata) => {
                self.phase = Phase::Converting(pdata);
                Reaction::Convert
            },
            Action::Ignore => Reaction::Ignore,
        }
    }

    /// Takes the Arrow records of the pdata batch, or why there are none, and returns what there is
    /// to do next. Pdata that could not be converted is not written: the attempt is counted, and
    /// the answer for it is returned.
    pub fn converted<C, R>(
        &mut self,
        exporter: &mut ArrowExporter<C, R>,
        signal: SignalType,
        conversion: Result<PdataRecords, String>,
    ) -> (step: ExportStep<P>)
        requires
            old(self)@ is Converting,
            conversion is Err ==> old(exporter).pdata_metrics.messages(signal, Outcome::Failure)
                < u64::MAX,
        ensures
            final(self)@ == old(self)@.after(SessionEvent::<(), P, ()>::Converted(conversion)),
            match conversion {
                Ok(records) => step == ExportStep::<P>::Write(records) && *final(exporter) == *old(
                    exporter,
                ),
                Err(source) => {
                    let attempt = ExportAttempt::NotConverted { source };
                    &&& step matches ExportStep::Notify(pdata, verdict)
                    &&& old(self)@ == Phase::Converting(pdata)
                    &&& verdict@ == attempt.verdict()
                    &&& is_counted(*old(exporter), *final(exporter), signal, attempt)
                },
            },
    {
        let mut phase = Phase::Notifying;
        std::mem::swap(&mut phase, &mut self.phase);
        let pdata = match phase {
            Phase::Converting(pdata) => pdata,
            _ => unreached(),
        };
        match conversion {
            Ok(records) => {
                self.phase = Phase::Writing(pdata);
                ExportStep::Write(records)
            },
            Err(source) => {
                let verdict = export_pdata(
                    &mut exporter.pdata_metrics,
                    &mut exporter.io_metrics,
                    signal,
                    ExportAttempt::NotConverted { source },
                );
                ExportStep::Notify(pdata, verdict)
            },
        }
    }

    /// Takes what writing the pdata batch resulted in, counts the attempt, and returns the pdata
    /// batch with the answer for it.
    pub fn written<C, R>(
        &mut self,
        exporter: &mut ArrowExporter<C, R>,
        signal: SignalType,
        result: Result<WriteStats, ArrowWriterError>,
    ) -> (answer: (P, Verdict))
        requires
            old(self)@ is Writing,
            has_room(*old(exporter), signal, ExportAttempt::Written { result }),
        ensures
            final(self)@ == old(self)@.after(SessionEvent::<(), P, ()>::Written(result)),
            old(self)@ == Phase::Writing(answer.0),
            answer.1@ == (ExportAttempt::Written { result }).verdict(),
            is_counted(
                *old(exporter),
                *final(exporter),
                signal,
                ExportAttempt::Written { result },
            ),
    {
        let verdict = export_pdata(
            &mut exporter.pdata_metrics,
            &mut exporter.io_metrics,
            signal,
            ExportAttempt::Written { result },
        );
        let mut phase = Phase::Notifying;
        std::mem::swap(&mut phase, &mut self.phase);
        match phase {
            Phase::Writing(pdata) => (pdata, verdict),
            _ => unreached(),
        }
    }

    /// Takes note of whether the pipeline took the answer. If it did not, the run has failed.
    ///
    /// # Errors
    ///
    /// Returns the failure of the pipeline.
    pub fn notified<E>(&mut self, outcome: Result<(), E>) -> (result: Result<(), E>)
        requires
            old(self)@ is Notifying,
        ensures
            final(self)@ == old(self)@.after(SessionEvent::<(), P, E>::Notified(outcome)),
            result == outcome,
    {
        self.phase = match &outcome {
            Ok(_) => Phase::Receiving,
            Err(_) => Phase::Failed,
        };
        outcome
    }
}

/// The counters have room for an attempt.
pub open spec fn has_room<C, R>(
    exporter: ArrowExporter<C, R>,
    signal: SignalType,
    attempt: ExportAttempt,
) -> bool {
    &&& exporter.pdata_metrics.messages(signal, attempt.outcome()) < u64::MAX
    &&& exporter.io_metrics.objects_written + attempt.stats().objects_written <= u64::MAX
    &&& exporter.io_metrics.bytes_written + attempt.stats().bytes_written <= u64::MAX
}

/// An attempt has been counted: once for its kind of telemetry and its end, with what it has
/// written.
pub open spec fn is_counted<C, R>(
    before: ArrowExporter<C, R>,
    after: ArrowExporter<C, R>,
    signal: SignalType,
    attempt: ExportAttempt,
) -> bool {
    &&& forall|other: SignalType, end: Outcome| #[trigger]
        after.pdata_metrics.messages(other, end) == before.pdata_metrics.messages(other, end)
            + if other == signal && end == attempt.outcome() {
            1int
        } else {
            0int
        }
    &&& after.io_metrics.objects_written == before.io_metrics.objects_written
        + attempt.stats().objects_written
    &&& after.io_metrics.bytes_written == before.io_metrics.bytes_written
        + attempt.stats().bytes_written
    &&& after.config == before.config
}

/// Every pdata batch that has come in has been answered for once, in the order in which they came
/// in, but for the one that is being exported.
proof fn lemma_answers_so_far<D, P, E>(events: Seq<SessionEvent<D, P, E>>)
    requires
        is_session(events),
    ensures
        all_received(events) == answered(events) + phase_after(events).unanswered(),
    decreases events.len(),
{
    if events.len() == 0 {
        assert(all_received(events) =~= answered(events) + phase_after(events).unanswered());
    } else {
        let before = events.drop_last();
        lemma_answers_so_far(before);
        let answers = phase_after(before).answers(events.last());
        assert(answered(events) =~= answered(before) + answers.map_values(
            |answer: (P, VerdictView)| answer.0,
        ));
        assert(all_received(events) =~= answered(events) + phase_after(events).unanswered());
    }
}

/// What happens in a run up to any point is a run.
proof fn lemma_session_up_to<D, P, E>(events: Seq<SessionEvent<D, P, E>>, count: int)
    requires
        is_session(events),
        0 <= count <= events.len(),
    ensures
        is_session(events.take(count)),
    decreases events.len(),
{
    if count == events.len() {
        assert(events.take(count) =~= events);
    } else {
        lemma_session_up_to(events.drop_last(), count);
        assert(events.drop_last().take(count) =~= events.take(count));
    }
}

/// Each event of a run is one that can happen where the run is, and leads on from there.
proof fn lemma_event_allowed<D, P, E>(events: Seq<SessionEvent<D, P, E>>, at: int)
    requires
        is_session(events),
        0 <= at < events.len(),
    ensures
        phase_after(events.take(at)).allows(events[at]),
        phase_after(events.take(at + 1)) == phase_after(events.take(at)).after(events[at]),
{
    lemma_session_up_to(events, at + 1);
    assert(events.take(at + 1).drop_last() =~= events.take(at));
    assert(events.take(at + 1).last() == events[at]);
}

/// Each pdata message gets exactly one answer, in the order in which the messages came in and
/// before the next message is taken: whenever a message comes in, every pdata batch before it has
/// been answered for, and at any time only the one that is being exported has not.
pub proof fn lemma_one_answer_for_each_pdata<D, P, E>(events: Seq<SessionEvent<D, P, E>>)
    requires
        is_session(events),
    ensures
        forall|at: int|
            0 <= at < events.len() && (#[trigger] events[at]) is Received ==> all_received(
                events.take(at),
            ) == answered(events.take(at)),
        all_received(events) == answered(events) + phase_after(events).unanswered(),
{
    lemma_answers_so_far(events);
    assert forall|at: int| 0 <= at < events.len() && (#[trigger] events[at]) is Received implies all_received(
        events.take(at),
    ) == answered(events.take(at)) by {
        lemma_event_allowed(events, at);
        lemma_session_up_to(events, at);
        lemma_answers_so_far(events.take(at));
        assert(answered(events.take(at)) + Seq::<P>::empty() =~= answered(events.take(at)));
    }
}

/// A run ends with a shutdown or a failure of the pipeline and with nothing else: not with a
/// negative answer, and not with a message that concerns no pdata.
pub proof fn lemma_what_ends_a_run<D, P, E>(events: Seq<SessionEvent<D, P, E>>)
    requires
        is_session(events),
        events.len() > 0,
    ensures
        phase_after(events) is Stopped <==> (events.last() matches SessionEvent::Received(
            Ok(message),
        ) && message is Shutdown),
        phase_after(events) is Failed <==> is_failure(events.last()),
        forall|at: int|
            0 <= at < events.len() - 1 ==> !((#[trigger] events[at]) matches SessionEvent::Received(
                Ok(message),
            ) && message is Shutdown) && !is_failure(events[at]),
{
    let before = phase_after(events.drop_last());
    assert(before.allows(events.last()));
    assert forall|at: int| 0 <= at < events.len() - 1 implies !((
    #[trigger] events[at]) matches SessionEvent::Received(Ok(message)) && message is Shutdown)
        && !is_failure(events[at]) by {
        lemma_event_allowed(events, at);
        lemma_event_allowed(events, at + 1);
    }
}

/// The pipeline has failed to hand out a message or to take an answer.
pub open spec fn is_failure<D, P, E>(event: SessionEvent<D, P, E>) -> bool {
    match event {
        SessionEvent::Received(Err(_)) => true,
        SessionEvent::Notified(Err(_)) => true,
        _ => false,
    }
}

/// Pdata is written only after it has been converted, and a message that concerns no pdata causes
/// no answer.
pub proof fn lemma_only_converted_pdata_is_written<D, P, E>(events: Seq<SessionEvent<D, P, E>>)
    requires
        is_session(events),
    ensures
        forall|at: int|
            0 <= at < events.len() && (#[trigger] events[at]) is Written ==> at > 0 && follows_conversion(
                events,
                at,
            ),
        forall|at: int|
            0 <= at < events.len() && ((#[trigger] events[at]) is Received || events[at] is Notified)
                ==> phase_after(events.take(at)).answers(events[at]).len() == 0,
{
    assert forall|at: int| 0 <= at < events.len() && (#[trigger] events[at]) is Written implies at
        > 0 && follows_conversion(events, at) by {
        lemma_event_allowed(events, at);
        if at > 0 {
            lemma_event_allowed(events, at - 1);
        } else {
            assert(events.take(0) =~= Seq::<SessionEvent<D, P, E>>::empty());
        }
    }
}

/// What happened just before was that the pdata batch was converted.
pub open spec fn follows_conversion<D, P, E>(events: Seq<SessionEvent<D, P, E>>, at: int) -> bool {
    events[at - 1] matches SessionEvent::Converted(Ok(_))
}

} // verus!
