//! Arrow IPC object-store exporter: what it does with a message, and how it answers for a pdata
//! batch.

use vstd::prelude::*;
use vstd::string::*;

use crate::config::{Compression, Config};
use crate::error::ArrowWriterError;
use crate::in_flight::{lemma_complete_write, lemma_sizes_fit, UploadEvent, UploadState};
use crate::metrics::{
    all_snapshots, record_pdata_outcome, record_write_metrics, terminal_snapshots,
    ArrowExporterMetrics, ExporterPDataExportMetrics, MetricSnapshot, Outcome,
};
use crate::naming::{lemma_one_object_per_payload, populated};
use crate::objects::{is_preparation, object_sizes, object_views};
use crate::payload::{PdataRecords, SignalType};
use crate::pdata_id::PdataId;
use crate::uploads::{
    is_order, is_storage_failure, is_write_result, total, WriteStats,
};

verus! {

/// URN for the Arrow IPC object-store exporter.
pub const ARROW_EXPORTER_URN: &'static str = "urn:otel:exporter:arrow";

/// Returns the message for a configuration that cannot be read.
pub fn configuration_message(source: &str) -> (message: String)
    ensures
        message@ == "failed to parse Arrow exporter configuration: "@ + source@,
{
    let mut message = "failed to parse Arrow exporter configuration: ".to_owned();
    message.append(source);
    message
}

/// Returns the message for storage that cannot be set up when the exporter starts.
pub fn initialization_message(source: &ArrowWriterError) -> (message: String)
    ensures
        message@ == "failed to initialize Arrow exporter storage: "@ + source.text(),
{
    let mut message = "failed to initialize Arrow exporter storage: ".to_owned();
    let reason = source.message();
    message.append(reason.as_str());
    message
}

/// A failure that stays if the same pdata batch is written again.
pub open spec fn stays(error: ArrowWriterError) -> bool {
    error is InvalidIdempotencyKey || error is InvalidObjectPath || error is Encode
}

/// Returns whether a failure stays if the same pdata batch is written again.
pub fn is_permanent(error: &ArrowWriterError) -> (permanent: bool)
    ensures
        permanent == stays(*error),
{
    match error {
        ArrowWriterError::InvalidIdempotencyKey { .. } => true,
        ArrowWriterError::InvalidObjectPath { .. } => true,
        ArrowWriterError::Encode { .. } => true,
        _ => false,
    }
}

/// How far exporting a pdata batch got.
#[derive(Debug)]
pub enum ExportAttempt {
    /// The pdata could not be converted to Arrow records.
    NotConverted {
        /// What went wrong.
        source: String,
    },
    /// The Arrow records were written, or writing them failed.
    Written {
        /// What the write resulted in.
        result: Result<WriteStats, ArrowWriterError>,
    },
}

/// The answer for a pdata batch.
#[derive(Debug, PartialEq, Eq)]
pub enum Verdict {
    /// The pdata is acknowledged.
    Ack,
    /// The pdata is not acknowledged.
    Nack {
        /// Whether submitting the same pdata again is of no use.
        permanent: bool,
        /// Why it is not acknowledged.
        reason: String,
    },
}

/// The answer for a pdata batch, with its reason as a sequence.
pub enum VerdictView {
    /// The pdata is acknowledged.
    Ack,
    /// The pdata is not acknowledged.
    Nack {
        /// Whether submitting the same pdata again is of no use.
        permanent: bool,
        /// Why it is not acknowledged.
        reason: Seq<char>,
    },
}

impl View for Verdict {
    type V = VerdictView;

    open spec fn view(&self) -> VerdictView {
        match *self {
            Verdict::Ack => VerdictView::Ack,
            Verdict::Nack { permanent, reason } => VerdictView::Nack { permanent, reason: reason@ },
        }
    }
}

impl ExportAttempt {
    /// How the attempt is counted.
    pub open spec fn outcome(self) -> Outcome {
        match self {
            ExportAttempt::Written { result: Ok(_) } => Outcome::Success,
            _ => Outcome::Failure,
        }
    }

    /// What the attempt has written.
    pub open spec fn stats(self) -> WriteStats {
        match self {
            ExportAttempt::Written { result: Ok(stats) } => stats,
            _ => WriteStats { objects_written: 0, bytes_written: 0 },
        }
    }

    /// The answer for the pdata batch.
    pub open spec fn verdict(self) -> VerdictView {
        match self {
            ExportAttempt::NotConverted { source } => VerdictView::Nack {
                permanent: true,
                reason: "failed to convert pdata to OTAP Arrow records: "@ + source@,
            },
            ExportAttempt::Written { result: Ok(_) } => VerdictView::Ack,
            ExportAttempt::Written { result: Err(error) } => VerdictView::Nack {
                permanent: stays(error),
                reason: "failed to write Arrow IPC pdata objects: "@ + error.text(),
            },
        }
    }
}

/// Counts an attempt to export a pdata batch, and returns the answer for the pdata batch.
pub fn export_pdata(
    pdata_metrics: &mut ExporterPDataExportMetrics,
    io_metrics: &mut ArrowExporterMetrics,
    signal: SignalType,
    attempt: ExportAttempt,
) -> (verdict: Verdict)
    requires
        old(pdata_metrics).messages(signal, attempt.outcome()) < u64::MAX,
        old(io_metrics).objects_written + attempt.stats().objects_written <= u64::MAX,
        old(io_metrics).bytes_written + attempt.stats().bytes_written <= u64::MAX,
    ensures
        verdict@ == attempt.verdict(),
        verdict is Ack <==> (attempt matches ExportAttempt::Written { result: Ok(_) }),
        verdict matches Verdict::Nack { permanent, .. } ==> (permanent <==> match attempt {
            ExportAttempt::NotConverted { .. } => true,
            ExportAttempt::Written { result } => result matches Err(error) && (error
                is InvalidIdempotencyKey || error is InvalidObjectPath || error is Encode),
        }),
        forall|other: SignalType, end: Outcome| #[trigger]
            final(pdata_metrics).messages(other, end) == old(pdata_metrics).messages(other, end)
                + if other == signal && end == attempt.outcome() {
                1int
            } else {
                0int
            },
        final(io_metrics).objects_written == old(io_metrics).objects_written
            + attempt.stats().objects_written,
        final(io_metrics).bytes_written == old(io_metrics).bytes_written
            + attempt.stats().bytes_written,
{
    match attempt {
        ExportAttempt::NotConverted { source } => {
            record_pdata_outcome(pdata_metrics, signal, Outcome::Failure);
            let mut reason = "failed to convert pdata to OTAP Arrow records: ".to_owned();
            reason.append(source.as_str());
            Verdict::Nack { permanent: true, reason }
        },
        ExportAttempt::Written { result: Ok(stats) } => {
            record_write_metrics(io_metrics, stats);
            record_pdata_outcome(pdata_metrics, signal, Outcome::Success);
            Verdict::Ack
        },
        ExportAttempt::Written { result: Err(error) } => {
            record_pdata_outcome(pdata_metrics, signal, Outcome::Failure);
            let mut reason = "failed to write Arrow IPC pdata objects: ".to_owned();
            let source = error.message();
            reason.append(source.as_str());
            Verdict::Nack { permanent: is_permanent(&error), reason }
        },
    }
}

/// What is handed over when the exporter stops.
#[derive(Debug)]
pub struct TerminalState<D> {
    /// The time by which the exporter has to stop.
    pub deadline: D,
    /// The metrics that have not been reported.
    pub metrics: Vec<MetricSnapshot>,
}

impl<D> TerminalState<D> {
    /// Returns whether there are no metrics to hand over.
    pub fn is_empty(&self) -> (empty: bool)
        ensures
            empty == (self.metrics@.len() == 0),
    {
        self.metrics.len() == 0
    }

    /// Returns the metrics.
    pub fn into_metrics(self) -> (metrics: Vec<MetricSnapshot>)
        ensures
            metrics == self.metrics,
    {
        self.metrics
    }
}

/// A message to the exporter. `D` is a point in time, and `P` a pdata batch.
#[derive(Debug)]
pub enum Message<D, P> {
    /// The metrics are to be reported.
    CollectTelemetry,
    /// The exporter is to stop.
    Shutdown {
        /// The time by which it has to stop.
        deadline: D,
    },
    /// A pdata batch is to be exported.
    PData(P),
    /// A message that does not concern the exporter.
    Other,
}

/// What the exporter does about a message.
#[derive(Debug)]
pub enum Action<D, P> {
    /// Report the metrics.
    Report,
    /// Stop.
    Stop(TerminalState<D>),
    /// Export a pdata batch.
    Export(P),
    /// Nothing.
    Ignore,
}

/// Exports each pdata batch as standalone Arrow IPC objects.
#[derive(Debug)]
pub struct ArrowExporter<C, R> {
    /// The configuration.
    pub config: Config<C, R>,
    /// The number of export attempts.
    pub pdata_metrics: ExporterPDataExportMetrics,
    /// What was written.
    pub io_metrics: ArrowExporterMetrics,
}

impl<C, R> ArrowExporter<C, R> {
    /// Creates an exporter that has not exported anything.
    pub fn new(config: Config<C, R>) -> (exporter: Self)
        ensures
            exporter.config == config,
            forall|signal: SignalType, outcome: Outcome| #[trigger]
                exporter.pdata_metrics.messages(signal, outcome) == 0,
            exporter.io_metrics == (ArrowExporterMetrics { objects_written: 0, bytes_written: 0 }),
    {
        ArrowExporter {
            config,
            pdata_metrics: ExporterPDataExportMetrics::default(),
            io_metrics: ArrowExporterMetrics::default(),
        }
    }

    /// Hands over the metrics that have not been reported. What is handed over once is not handed
    /// over again.
    pub fn terminal_state<D>(&mut self, deadline: D) -> (state: TerminalState<D>)
        ensures
            state.deadline == deadline,
            state.metrics@ == all_snapshots(old(self).pdata_metrics, old(self).io_metrics),
            all_snapshots(final(self).pdata_metrics, final(self).io_metrics) == Seq::<
                MetricSnapshot,
            >::empty(),
            final(self).config == old(self).config,
    {
        let metrics = terminal_snapshots(&mut self.pdata_metrics, &mut self.io_metrics);
        TerminalState { deadline, metrics }
    }

    /// Returns what to do about a message. The metrics change only when the exporter is to stop.
    pub fn receive<D, P>(&mut self, message: Message<D, P>) -> (action: Action<D, P>)
        ensures
            match message {
                Message::CollectTelemetry => action is Report && *final(self) == *old(self),
                Message::Shutdown { deadline } => {
                    &&& action matches Action::Stop(state)
                    &&& state.deadline == deadline
                    &&& state.metrics@ == all_snapshots(
                        old(self).pdata_metrics,
                        old(self).io_metrics,
                    )
                    &&& all_snapshots(final(self).pdata_metrics, final(self).io_metrics) == Seq::<
                        MetricSnapshot,
                    >::empty()
                    &&& final(self).config == old(self).config
                },
                Message::PData(pdata) => action == Action::<D, P>::Export(pdata) && *final(self)
                    == *old(self),
                Message::Other => action is Ignore && *final(self) == *old(self),
            },
    {
        match message {
            Message::CollectTelemetry => Action::Report,
            Message::Shutdown { deadline } => Action::Stop(self.terminal_state(deadline)),
            Message::PData(pdata) => Action::Export(pdata),
            Message::Other => Action::Ignore,
        }
    }
}

/// Pdata is acknowledged only after every populated payload has been uploaded, in whatever order
/// the uploads ended and however many were in flight. What is then counted as written is one
/// object for each populated payload, and the bytes of all of them.
pub proof fn lemma_ack_after_every_upload(
    id: PdataId,
    records: PdataRecords,
    template: Seq<char>,
    compression: Compression,
    objects: Vec<(String, Vec<u8>)>,
    limit: nat,
    events: Seq<UploadEvent>,
    result: Result<WriteStats, ArrowWriterError>,
)
    requires
        is_preparation(Ok(objects), id, records, template, compression),
        limit > 0,
        UploadState::start(object_sizes(object_views(objects@)), limit).allows_all(events),
        UploadState::start(object_sizes(object_views(objects@)), limit).after_all(
            events,
        ).is_over(),
        is_write_result(
            result,
            UploadState::start(object_sizes(object_views(objects@)), limit).after_all(
                events,
            ).outcomes,
        ),
        (ExportAttempt::Written { result }).verdict() is Ack,
    ensures
        ({
            let end = UploadState::start(object_sizes(object_views(objects@)), limit).after_all(
                events,
            );
            &&& is_order(end.ended, objects@.len())
            &&& forall|i: int| 0 <= i < end.outcomes.len() ==> (#[trigger] end.outcomes[i]) is Ok
        }),
        (ExportAttempt::Written { result }).stats().objects_written == populated(records.payloads@),
        (ExportAttempt::Written { result }).stats().bytes_written == total(
            object_sizes(object_views(objects@)),
        ),
{
    lemma_one_object_per_payload(
        records.payloads@,
        template,
        id,
        records.signal,
        compression.codec(),
    );
    lemma_sizes_fit(objects@);
    lemma_complete_write(object_sizes(object_views(objects@)), limit, events, result);
}

/// A storage failure is answered with a negative acknowledgement that is not permanent, so that
/// the same pdata can be submitted again.
pub proof fn lemma_storage_failure_is_transient(
    outcomes: Seq<Result<u64, ArrowWriterError>>,
    error: ArrowWriterError,
)
    requires
        is_write_result(Err(error), outcomes),
        forall|i: int|
            0 <= i < outcomes.len() ==> ((#[trigger] outcomes[i]) matches Err(failure)
                ==> is_storage_failure(failure)),
    ensures
        (ExportAttempt::Written { result: Err(error) }).verdict() == (VerdictView::Nack {
            permanent: false,
            reason: "failed to write Arrow IPC pdata objects: "@ + error.text(),
        }),
{
}

/// A pdata batch that cannot be prepared is answered with a negative acknowledgement that is
/// permanent.
pub proof fn lemma_unusable_pdata_is_permanent(
    id: PdataId,
    records: PdataRecords,
    template: Seq<char>,
    compression: Compression,
    error: ArrowWriterError,
)
    requires
        is_preparation(Err(error), id, records, template, compression),
    ensures
        (ExportAttempt::Written { result: Err(error) }).verdict() == (VerdictView::Nack {
            permanent: true,
            reason: "failed to write Arrow IPC pdata objects: "@ + error.text(),
        }),
{
}

} // verus!
