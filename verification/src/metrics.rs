//! Metrics of the exporter.

use vstd::prelude::*;

use crate::payload::{signal_name, signal_text, SignalType};
use crate::text::same_text;
use crate::uploads::WriteStats;

verus! {

/// How exporting a pdata batch ended.
#[derive(Clone, Copy, Debug, PartialEq, Eq, Structural)]
pub enum Outcome {
    /// Every child object was written.
    Success,
    /// Conversion or writing failed.
    Failure,
}

/// The name of an outcome as an attribute of a metric.
pub open spec fn outcome_text(outcome: Outcome) -> Seq<char> {
    match outcome {
        Outcome::Success => "success"@,
        Outcome::Failure => "failure"@,
    }
}

/// Arrow exporter object-write metrics.
#[derive(Clone, Copy, Debug, PartialEq, Eq, Structural)]
pub struct ArrowExporterMetrics {
    /// Number of Arrow IPC objects written by completed pdata exports.
    pub objects_written: u64,
    /// Number of Arrow IPC bytes written by completed pdata exports.
    pub bytes_written: u64,
}

impl Default for ArrowExporterMetrics {
    fn default() -> (metrics: Self)
        ensures
            metrics == (ArrowExporterMetrics { objects_written: 0, bytes_written: 0 }),
    {
        ArrowExporterMetrics { objects_written: 0, bytes_written: 0 }
    }
}

/// The number of export attempts for one kind of telemetry.
#[derive(Clone, Copy, Debug, PartialEq, Eq, Structural)]
pub struct OutcomeCounts {
    /// Attempts that succeeded.
    pub success: u64,
    /// Attempts that failed.
    pub failure: u64,
}

/// The number of completed pdata export attempts, by the kind of telemetry and by how they ended.
/// Replayed pdata is counted as another attempt.
#[derive(Clone, Copy, Debug, PartialEq, Eq, Structural)]
pub struct ExporterPDataExportMetrics {
    /// Attempts to export log records.
    pub logs: OutcomeCounts,
    /// Attempts to export metrics.
    pub metrics: OutcomeCounts,
    /// Attempts to export spans.
    pub traces: OutcomeCounts,
}

impl ExporterPDataExportMetrics {
    /// The attempts of one kind that ended in one way.
    pub open spec fn messages(self, signal: SignalType, outcome: Outcome) -> u64 {
        let counts = match signal {
            SignalType::Logs => self.logs,
            SignalType::Metrics => self.metrics,
            SignalType::Traces => self.traces,
        };
        match outcome {
            Outcome::Success => counts.success,
            Outcome::Failure => counts.failure,
        }
    }

    /// Returns the attempts of one kind that ended in one way.
    pub fn message_count(&self, signal: SignalType, outcome: Outcome) -> (messages: u64)
        ensures
            messages == self.messages(signal, outcome),
    {
        let counts = match signal {
            SignalType::Logs => self.logs,
            SignalType::Metrics => self.metrics,
            SignalType::Traces => self.traces,
        };
        match outcome {
            Outcome::Success => counts.success,
            Outcome::Failure => counts.failure,
        }
    }
}

impl Default for ExporterPDataExportMetrics {
    fn default() -> (metrics: Self)
        ensures
            forall|signal: SignalType, outcome: Outcome| #[trigger]
                metrics.messages(signal, outcome) == 0,
    {
        let counts = OutcomeCounts { success: 0, failure: 0 };
        ExporterPDataExportMetrics { logs: counts, metrics: counts, traces: counts }
    }
}

/// Counts a pdata export attempt.
pub fn record_pdata_outcome(
    metrics: &mut ExporterPDataExportMetrics,
    signal: SignalType,
    outcome: Outcome,
)
    requires
        old(metrics).messages(signal, outcome) < u64::MAX,
    ensures
        forall|other: SignalType, end: Outcome| #[trigger]
            final(metrics).messages(other, end) == old(metrics).messages(other, end) + if other
                == signal && end == outcome {
                1int
            } else {
                0int
            },
{
    let counts = match signal {
        SignalType::Logs => metrics.logs,
        SignalType::Metrics => metrics.metrics,
        SignalType::Traces => metrics.traces,
    };
    let counts = match outcome {
        Outcome::Success => OutcomeCounts { success: counts.success + 1, failure: counts.failure },
        Outcome::Failure => OutcomeCounts { success: counts.success, failure: counts.failure + 1 },
    };
    match signal {
        SignalType::Logs => {
            metrics.logs = counts;
        },
        SignalType::Metrics => {
            metrics.metrics = counts;
        },
        SignalType::Traces => {
            metrics.traces = counts;
        },
    }
}

/// Adds a completed write to the metrics.
pub fn record_write_metrics(metrics: &mut ArrowExporterMetrics, stats: WriteStats)
    requires
        old(metrics).objects_written + stats.objects_written <= u64::MAX,
        old(metrics).bytes_written + stats.bytes_written <= u64::MAX,
    ensures
        final(metrics).objects_written == old(metrics).objects_written + stats.objects_written,
        final(metrics).bytes_written == old(metrics).bytes_written + stats.bytes_written,
{
    if stats.objects_written > 0 {
        metrics.objects_written = metrics.objects_written + stats.objects_written;
    }
    if stats.bytes_written > 0 {
        metrics.bytes_written = metrics.bytes_written + stats.bytes_written;
    }
}

/// The values of a metric set at one time.
#[derive(Clone, Copy, Debug, PartialEq, Eq, Structural)]
pub enum MetricSnapshot {
    /// Export attempts of one kind of telemetry that ended in one way.
    PdataExports {
        /// The kind of telemetry.
        signal: SignalType,
        /// How the attempts ended.
        outcome: Outcome,
        /// The number of attempts.
        messages: u64,
    },
    /// What was written.
    ObjectWrites {
        /// The metrics.
        metrics: ArrowExporterMetrics,
    },
}

impl MetricSnapshot {
    /// The name of the metric set.
    pub open spec fn set_name(self) -> Seq<char> {
        match self {
            MetricSnapshot::PdataExports { .. } => "exporter.pdata.exports"@,
            MetricSnapshot::ObjectWrites { .. } => "otap.exporter.arrow"@,
        }
    }

    /// The value of an attribute, if the snapshot has it.
    pub open spec fn attribute(self, key: Seq<char>) -> Option<Seq<char>> {
        match self {
            MetricSnapshot::PdataExports { signal, outcome, .. } => if key == "signal"@ {
                Some(signal_text(signal))
            } else if key == "outcome"@ {
                Some(outcome_text(outcome))
            } else {
                None
            },
            MetricSnapshot::ObjectWrites { .. } => None,
        }
    }

    /// Returns the name of the metric set.
    pub fn name(&self) -> (name: &'static str)
        ensures
            name@ == self.set_name(),
    {
        match self {
            MetricSnapshot::PdataExports { .. } => "exporter.pdata.exports",
            MetricSnapshot::ObjectWrites { .. } => "otap.exporter.arrow",
        }
    }

    /// Returns the value of an attribute, if the snapshot has it.
    pub fn measurement_attribute_value(&self, key: &str) -> (value: Option<&'static str>)
        ensures
            match (value, self.attribute(key@)) {
                (Some(text), Some(expected)) => text@ == expected,
                (None, None) => true,
                _ => false,
            },
    {
        match self {
            MetricSnapshot::PdataExports { signal, outcome, .. } => if same_text(key, "signal") {
                Some(signal_name(*signal))
            } else if same_text(key, "outcome") {
                match outcome {
                    Outcome::Success => Some("success"),
                    Outcome::Failure => Some("failure"),
                }
            } else {
                None
            },
            MetricSnapshot::ObjectWrites { .. } => None,
        }
    }

    /// Returns the values of the metrics, in the order in which the set has them.
    pub fn get_metrics(&self) -> (values: Vec<u64>)
        ensures
            match *self {
                MetricSnapshot::PdataExports { messages, .. } => values@ == seq![messages],
                MetricSnapshot::ObjectWrites { metrics } => values@ == seq![
                    metrics.objects_written,
                    metrics.bytes_written,
                ],
            },
    {
        let mut values: Vec<u64> = Vec::new();
        match self {
            MetricSnapshot::PdataExports { messages, .. } => {
                values.push(*messages);
            },
            MetricSnapshot::ObjectWrites { metrics } => {
                values.push(metrics.objects_written);
                values.push(metrics.bytes_written);
            },
        }
        values
    }
}

/// The snapshot of a counter of attempts, unless it is zero.
pub open spec fn counted(
    metrics: ExporterPDataExportMetrics,
    signal: SignalType,
    outcome: Outcome,
) -> Seq<MetricSnapshot> {
    let messages = metrics.messages(signal, outcome);
    if messages > 0 {
        seq![MetricSnapshot::PdataExports { signal, outcome, messages }]
    } else {
        Seq::empty()
    }
}

/// The snapshots of all counters of attempts that are not zero.
pub open spec fn pdata_snapshots(metrics: ExporterPDataExportMetrics) -> Seq<MetricSnapshot> {
    counted(metrics, SignalType::Logs, Outcome::Success) + counted(
        metrics,
        SignalType::Logs,
        Outcome::Failure,
    ) + counted(metrics, SignalType::Metrics, Outcome::Success) + counted(
        metrics,
        SignalType::Metrics,
        Outcome::Failure,
    ) + counted(metrics, SignalType::Traces, Outcome::Success) + counted(
        metrics,
        SignalType::Traces,
        Outcome::Failure,
    )
}

/// Something was written.
pub open spec fn needs_flush(metrics: ArrowExporterMetrics) -> bool {
    metrics.objects_written > 0 || metrics.bytes_written > 0
}

/// The snapshots of everything that was counted: the attempts, and what was written, if anything
/// was.
pub open spec fn all_snapshots(
    attempts: ExporterPDataExportMetrics,
    writes: ArrowExporterMetrics,
) -> Seq<MetricSnapshot> {
    pdata_snapshots(attempts) + if needs_flush(writes) {
        seq![MetricSnapshot::ObjectWrites { metrics: writes }]
    } else {
        Seq::empty()
    }
}

/// Adds the snapshot of a counter of attempts, unless it is zero.
fn add_counted(
    snapshots: &mut Vec<MetricSnapshot>,
    metrics: &ExporterPDataExportMetrics,
    signal: SignalType,
    outcome: Outcome,
)
    ensures
        final(snapshots)@ == old(snapshots)@ + counted(*metrics, signal, outcome),
{
    let messages = metrics.message_count(signal, outcome);
    if messages > 0 {
        snapshots.push(MetricSnapshot::PdataExports { signal, outcome, messages });
    }
    assert(snapshots@ =~= old(snapshots)@ + counted(*metrics, signal, outcome));
}

/// Hands out the snapshots of everything that was counted, and starts counting anew.
pub fn terminal_snapshots(
    attempts: &mut ExporterPDataExportMetrics,
    writes: &mut ArrowExporterMetrics,
) -> (snapshots: Vec<MetricSnapshot>)
    ensures
        snapshots@ == all_snapshots(*old(attempts), *old(writes)),
        all_snapshots(*final(attempts), *final(writes)) == Seq::<MetricSnapshot>::empty(),
        forall|signal: SignalType, outcome: Outcome| #[trigger]
            final(attempts).messages(signal, outcome) == 0,
        !needs_flush(*final(writes)),
        final(writes).objects_written == 0,
        final(writes).bytes_written == 0,
{
    let mut snapshots: Vec<MetricSnapshot> = Vec::new();
    add_counted(&mut snapshots, attempts, SignalType::Logs, Outcome::Success);
    add_counted(&mut snapshots, attempts, SignalType::Logs, Outcome::Failure);
    add_counted(&mut snapshots, attempts, SignalType::Metrics, Outcome::Success);
    add_counted(&mut snapshots, attempts, SignalType::Metrics, Outcome::Failure);
    add_counted(&mut snapshots, attempts, SignalType::Traces, Outcome::Success);
    add_counted(&mut snapshots, attempts, SignalType::Traces, Outcome::Failure);
    assert(snapshots@ =~= pdata_snapshots(*attempts));
    if writes.objects_written > 0 || writes.bytes_written > 0 {
        snapshots.push(MetricSnapshot::ObjectWrites { metrics: *writes });
    }
    assert(snapshots@ =~= all_snapshots(*attempts, *writes));
    *attempts = ExporterPDataExportMetrics::default();
    *writes = ArrowExporterMetrics::default();
    assert(all_snapshots(*attempts, *writes) =~= Seq::<MetricSnapshot>::empty());
    snapshots
}

impl MetricSnapshot {
    /// Where the counters stand among the snapshots.
    pub open spec fn rank(self) -> int {
        match self {
            MetricSnapshot::PdataExports { signal, outcome, .. } => rank(signal, outcome),
            MetricSnapshot::ObjectWrites { .. } => 6,
        }
    }

    /// Two snapshots are of the same counter, whatever its value.
    pub open spec fn same_counter(self, other: MetricSnapshot) -> bool {
        match (self, other) {
            (
                MetricSnapshot::PdataExports { signal, outcome, .. },
                MetricSnapshot::PdataExports { signal: other_signal, outcome: other_outcome, .. },
            ) => signal == other_signal && outcome == other_outcome,
            (MetricSnapshot::ObjectWrites { .. }, MetricSnapshot::ObjectWrites { .. }) => true,
            _ => false,
        }
    }

    /// The snapshot has the value of its counter.
    pub open spec fn is_of(
        self,
        attempts: ExporterPDataExportMetrics,
        writes: ArrowExporterMetrics,
    ) -> bool {
        match self {
            MetricSnapshot::PdataExports { signal, outcome, messages } => messages
                == attempts.messages(signal, outcome) && messages > 0,
            MetricSnapshot::ObjectWrites { metrics } => metrics == writes && needs_flush(writes),
        }
    }
}

/// Where the counters of attempts stand among the snapshots.
pub open spec fn rank(signal: SignalType, outcome: Outcome) -> int {
    let first = match signal {
        SignalType::Logs => 0int,
        SignalType::Metrics => 2,
        SignalType::Traces => 4,
    };
    match outcome {
        Outcome::Success => first,
        Outcome::Failure => first + 1,
    }
}

/// The snapshots are those of the counters below a rank that are not zero, in order.
#[verifier::opaque]
spec fn are_snapshots(
    snapshots: Seq<MetricSnapshot>,
    attempts: ExporterPDataExportMetrics,
    writes: ArrowExporterMetrics,
    below: int,
) -> bool {
    &&& forall|i: int|
        0 <= i < snapshots.len() ==> (#[trigger] snapshots[i]).is_of(attempts, writes)
            && snapshots[i].rank() < below
    &&& forall|i: int, j: int|
        0 <= i < j < snapshots.len() ==> (#[trigger] snapshots[i]).rank() < (
        #[trigger] snapshots[j]).rank()
    &&& forall|signal: SignalType, outcome: Outcome|
        rank(signal, outcome) < below && (#[trigger] attempts.messages(signal, outcome)) > 0
            ==> snapshots.contains(
            MetricSnapshot::PdataExports {
                signal,
                outcome,
                messages: attempts.messages(signal, outcome),
            },
        )
}

/// The snapshots up to a counter and that of the counter.
proof fn lemma_counter_added(
    snapshots: Seq<MetricSnapshot>,
    attempts: ExporterPDataExportMetrics,
    writes: ArrowExporterMetrics,
    signal: SignalType,
    outcome: Outcome,
)
    requires
        are_snapshots(snapshots, attempts, writes, rank(signal, outcome)),
    ensures
        are_snapshots(
            snapshots + counted(attempts, signal, outcome),
            attempts,
            writes,
            rank(signal, outcome) + 1,
        ),
{
    reveal(are_snapshots);
    let longer = snapshots + counted(attempts, signal, outcome);
    assert forall|other: SignalType, end: Outcome|
        rank(other, end) < rank(signal, outcome) + 1 && (#[trigger] attempts.messages(other, end))
            > 0 implies longer.contains(
        MetricSnapshot::PdataExports {
            signal: other,
            outcome: end,
            messages: attempts.messages(other, end),
        },
    ) by {
        let snapshot = MetricSnapshot::PdataExports {
            signal: other,
            outcome: end,
            messages: attempts.messages(other, end),
        };
        if rank(other, end) < rank(signal, outcome) {
            assert(snapshots.contains(snapshot));
            let k = choose|k: int| 0 <= k < snapshots.len() && snapshots[k] == snapshot;
            assert(longer[k] == snapshot);
        } else {
            assert(other == signal && end == outcome);
            assert(longer[snapshots.len() as int] == snapshot);
        }
    }
}

/// The snapshots of the counters of attempts are those that are not zero, in order.
proof fn lemma_pdata_snapshots(attempts: ExporterPDataExportMetrics, writes: ArrowExporterMetrics)
    ensures
        are_snapshots(pdata_snapshots(attempts), attempts, writes, 6),
{
    let none = Seq::<MetricSnapshot>::empty();
    let logs = counted(attempts, SignalType::Logs, Outcome::Success);
    assert(are_snapshots(none, attempts, writes, 0)) by {
        reveal(are_snapshots);
    }
    lemma_counter_added(none, attempts, writes, SignalType::Logs, Outcome::Success);
    assert(none + logs =~= logs);
    lemma_counter_added(logs, attempts, writes, SignalType::Logs, Outcome::Failure);
    let logs = logs + counted(attempts, SignalType::Logs, Outcome::Failure);
    lemma_counter_added(logs, attempts, writes, SignalType::Metrics, Outcome::Success);
    let metrics = logs + counted(attempts, SignalType::Metrics, Outcome::Success);
    lemma_counter_added(metrics, attempts, writes, SignalType::Metrics, Outcome::Failure);
    let metrics = metrics + counted(attempts, SignalType::Metrics, Outcome::Failure);
    lemma_counter_added(metrics, attempts, writes, SignalType::Traces, Outcome::Success);
    let traces = metrics + counted(attempts, SignalType::Traces, Outcome::Success);
    lemma_counter_added(traces, attempts, writes, SignalType::Traces, Outcome::Failure);
}

/// Nothing that was counted is lost or handed out twice: the snapshots hold each counter that is
/// not zero once, with its value, and nothing else.
pub proof fn lemma_snapshots_hold_every_counter(
    attempts: ExporterPDataExportMetrics,
    writes: ArrowExporterMetrics,
)
    ensures
        ({
            let snapshots = all_snapshots(attempts, writes);
            &&& forall|signal: SignalType, outcome: Outcome|
                (#[trigger] attempts.messages(signal, outcome)) > 0 ==> snapshots.contains(
                    MetricSnapshot::PdataExports {
                        signal,
                        outcome,
                        messages: attempts.messages(signal, outcome),
                    },
                )
            &&& needs_flush(writes) ==> snapshots.contains(
                MetricSnapshot::ObjectWrites { metrics: writes },
            )
            &&& forall|i: int|
                0 <= i < snapshots.len() ==> (#[trigger] snapshots[i]).is_of(attempts, writes)
            &&& forall|i: int, j: int|
                0 <= i < j < snapshots.len() ==> !(#[trigger] snapshots[i]).same_counter(
                    #[trigger] snapshots[j],
                )
        }),
{
    lemma_pdata_snapshots(attempts, writes);
    reveal(are_snapshots);
    let exports = pdata_snapshots(attempts);
    let snapshots = all_snapshots(attempts, writes);
    assert forall|signal: SignalType, outcome: Outcome|
        (#[trigger] attempts.messages(signal, outcome)) > 0 implies snapshots.contains(
        MetricSnapshot::PdataExports {
            signal,
            outcome,
            messages: attempts.messages(signal, outcome),
        },
    ) by {
        let snapshot = MetricSnapshot::PdataExports {
            signal,
            outcome,
            messages: attempts.messages(signal, outcome),
        };
        assert(rank(signal, outcome) < 6);
        assert(exports.contains(snapshot));
        let k = choose|k: int| 0 <= k < exports.len() && exports[k] == snapshot;
        assert(snapshots[k] == snapshot);
    }
    if needs_flush(writes) {
        assert(snapshots[exports.len() as int] == (MetricSnapshot::ObjectWrites {
            metrics: writes,
        }));
    }
    assert forall|i: int| 0 <= i < snapshots.len() implies (#[trigger] snapshots[i]).is_of(
        attempts,
        writes,
    ) by {
        if i < exports.len() {
            assert(snapshots[i] == exports[i]);
        }
    }
    assert forall|i: int, j: int| 0 <= i < j < snapshots.len() implies !(
    #[trigger] snapshots[i]).same_counter(#[trigger] snapshots[j]) by {
        assert(snapshots[i] == exports[i]);
        if j < exports.len() {
            assert(snapshots[j] == exports[j]);
        }
    }
}

} // verus!
