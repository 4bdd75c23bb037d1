//! What the metrics of the exporter hold and how they are handed out, said of their fields.

use vstd::prelude::*;

use crate::metrics::{
    all_snapshots, lemma_snapshots_hold_every_counter, ArrowExporterMetrics,
    ExporterPDataExportMetrics, MetricSnapshot, Outcome,
};
use crate::payload::SignalType;

verus! {

/// Attempts are counted by the kind of telemetry and by how they ended, each in a field of its own.
pub proof fn lemma_counters_of_attempts(metrics: ExporterPDataExportMetrics)
    ensures
        metrics.messages(SignalType::Logs, Outcome::Success) == metrics.logs.success,
        metrics.messages(SignalType::Logs, Outcome::Failure) == metrics.logs.failure,
        metrics.messages(SignalType::Metrics, Outcome::Success) == metrics.metrics.success,
        metrics.messages(SignalType::Metrics, Outcome::Failure) == metrics.metrics.failure,
        metrics.messages(SignalType::Traces, Outcome::Success) == metrics.traces.success,
        metrics.messages(SignalType::Traces, Outcome::Failure) == metrics.traces.failure,
{
}

/// What is handed out holds each counter of attempts that is not zero, with its value, and what was
/// written if anything was. It holds nothing else and nothing twice.
pub proof fn lemma_what_is_handed_out(
    attempts: ExporterPDataExportMetrics,
    writes: ArrowExporterMetrics,
)
    ensures
        ({
            let snapshots = all_snapshots(attempts, writes);
            &&& forall|signal: SignalType, outcome: Outcome, messages: u64|
                #[trigger] snapshots.contains(
                    MetricSnapshot::PdataExports { signal, outcome, messages },
                ) <==> messages > 0 && messages == attempts.messages(signal, outcome)
            &&& forall|metrics: ArrowExporterMetrics|
                #[trigger] snapshots.contains(MetricSnapshot::ObjectWrites { metrics }) <==> metrics
                    == writes && (writes.objects_written > 0 || writes.bytes_written > 0)
            &&& forall|i: int, j: int|
                0 <= i < j < snapshots.len() ==> #[trigger] snapshots[i] != #[trigger] snapshots[j]
        }),
{
    lemma_snapshots_hold_every_counter(attempts, writes);
    let snapshots = all_snapshots(attempts, writes);
    assert forall|signal: SignalType, outcome: Outcome, messages: u64|
        #[trigger] snapshots.contains(
            MetricSnapshot::PdataExports { signal, outcome, messages },
        ) <==> messages > 0 && messages == attempts.messages(signal, outcome) by {
        let snapshot = MetricSnapshot::PdataExports { signal, outcome, messages };
        if snapshots.contains(snapshot) {
            let i = choose|i: int| 0 <= i < snapshots.len() && snapshots[i] == snapshot;
            assert(snapshots[i].is_of(attempts, writes));
        }
        if attempts.messages(signal, outcome) > 0 {
            assert(snapshots.contains(
                MetricSnapshot::PdataExports {
                    signal,
                    outcome,
                    messages: attempts.messages(signal, outcome),
                },
            ));
        }
    }
    assert forall|metrics: ArrowExporterMetrics|
        #[trigger] snapshots.contains(MetricSnapshot::ObjectWrites { metrics }) <==> metrics
            == writes && (writes.objects_written > 0 || writes.bytes_written > 0) by {
        let snapshot = MetricSnapshot::ObjectWrites { metrics };
        if snapshots.contains(snapshot) {
            let i = choose|i: int| 0 <= i < snapshots.len() && snapshots[i] == snapshot;
            assert(snapshots[i].is_of(attempts, writes));
        }
    }
    assert forall|i: int, j: int| 0 <= i < j < snapshots.len() implies #[trigger] snapshots[i]
        != #[trigger] snapshots[j] by {
        assert(!snapshots[i].same_counter(snapshots[j]));
    }
}

/// Snapshots are named after their metric set, and those of attempts say which kind of telemetry
/// they are of and how the attempts ended.
pub proof fn lemma_names_of_snapshots(snapshot: MetricSnapshot, key: Seq<char>)
    ensures
        match snapshot {
            MetricSnapshot::PdataExports { signal, outcome, .. } => {
                &&& snapshot.set_name() == "exporter.pdata.exports"@
                &&& key == "signal"@ ==> snapshot.attribute(key) == Some(
                    match signal {
                        SignalType::Logs => "logs"@,
                        SignalType::Metrics => "metrics"@,
                        SignalType::Traces => "traces"@,
                    },
                )
                &&& key == "outcome"@ ==> snapshot.attribute(key) == Some(
                    match outcome {
                        Outcome::Success => "success"@,
                        Outcome::Failure => "failure"@,
                    },
                )
                &&& key != "signal"@ && key != "outcome"@ ==> snapshot.attribute(key) is None
            },
            MetricSnapshot::ObjectWrites { .. } => {
                &&& snapshot.set_name() == "otap.exporter.arrow"@
                &&& snapshot.attribute(key) is None
            },
        },
{
    reveal_strlit("signal");
    reveal_strlit("outcome");
    assert("signal"@[0] != "outcome"@[0]);
}

} // verus!
