use arrow_exporter::config::{Compression, Config, StorageType};
use arrow_exporter::error::{ArrowWriterError, LocalError, LocalErrorKind};
use arrow_exporter::exporter::{
    configuration_message, export_pdata, initialization_message, is_permanent, Action,
    ArrowExporter, ExportAttempt, Message, Verdict, ARROW_EXPORTER_URN,
};
use arrow_exporter::metrics::{
    record_pdata_outcome, record_write_metrics, ArrowExporterMetrics, ExporterPDataExportMetrics,
    MetricSnapshot, Outcome,
};
use arrow_exporter::payload::{PayloadType, PdataRecords, SignalType};
use arrow_exporter::pdata_id::PdataId;
use arrow_exporter::session::{ExportStep, Phase, Reaction, Session};
use arrow_exporter::template::ObjectPathTemplate;
use arrow_exporter::uploads::WriteStats;
use std::time::Instant;

fn exporter() -> ArrowExporter<(), ()> {
    ArrowExporter {
        config: Config {
            storage: StorageType::File {
                base_uri: "/tmp/arrow-files".to_string(),
            },
            retry: None,
            fsync: true,
            compression: Compression::default(),
            object_path_template: ObjectPathTemplate::default(),
        },
        pdata_metrics: ExporterPDataExportMetrics::default(),
        io_metrics: ArrowExporterMetrics::default(),
    }
}

/// Scenario: Successful and failed pdata exports update Arrow exporter metrics before shutdown.
/// Guarantees: Terminal handoff contains signal outcomes plus completed object and byte totals.
#[test]
fn terminal_state_hands_off_export_metrics() {
    let mut exporter = exporter();
    record_pdata_outcome(
        &mut exporter.pdata_metrics,
        SignalType::Traces,
        Outcome::Success,
    );
    record_pdata_outcome(
        &mut exporter.pdata_metrics,
        SignalType::Logs,
        Outcome::Failure,
    );
    record_write_metrics(
        &mut exporter.io_metrics,
        WriteStats {
            objects_written: 3,
            bytes_written: 2_048,
        },
    );

    let deadline = Instant::now();
    let snapshots = exporter.terminal_state(deadline).into_metrics();

    assert_eq!(snapshots.len(), 3);
    assert!(snapshots.iter().any(|snapshot| {
        snapshot.name() == "exporter.pdata.exports"
            && snapshot.measurement_attribute_value("signal") == Some("traces")
            && snapshot.measurement_attribute_value("outcome") == Some("success")
            && snapshot.get_metrics() == [1]
    }));
    assert!(snapshots.iter().any(|snapshot| {
        snapshot.name() == "exporter.pdata.exports"
            && snapshot.measurement_attribute_value("signal") == Some("logs")
            && snapshot.measurement_attribute_value("outcome") == Some("failure")
            && snapshot.get_metrics() == [1]
    }));
    assert!(snapshots.iter().any(|snapshot| {
        snapshot.name() == "otap.exporter.arrow" && snapshot.get_metrics() == [3, 2_048]
    }));
    assert!(exporter.terminal_state(deadline).is_empty());
}

#[test]
fn snapshots_leave_out_counters_that_are_zero() {
    let mut exporter = exporter();
    assert!(exporter.terminal_state(()).is_empty());
    for _ in 0..2 {
        record_pdata_outcome(
            &mut exporter.pdata_metrics,
            SignalType::Metrics,
            Outcome::Success,
        );
    }
    assert_eq!(
        exporter
            .pdata_metrics
            .message_count(SignalType::Metrics, Outcome::Success),
        2
    );
    let state = exporter.terminal_state(7u8);
    assert_eq!(state.deadline, 7);
    assert_eq!(
        state.metrics,
        vec![MetricSnapshot::PdataExports {
            signal: SignalType::Metrics,
            outcome: Outcome::Success,
            messages: 2
        }]
    );
    assert_eq!(
        state.metrics[0].measurement_attribute_value("signal"),
        Some("metrics")
    );
    assert_eq!(state.metrics[0].measurement_attribute_value("other"), None);
}

fn attempt(exporter: &mut ArrowExporter<(), ()>, attempt: ExportAttempt) -> Verdict {
    export_pdata(
        &mut exporter.pdata_metrics,
        &mut exporter.io_metrics,
        SignalType::Logs,
        attempt,
    )
}

#[test]
fn completed_writes_are_acknowledged_and_counted() {
    let mut exporter = exporter();
    let verdict = attempt(
        &mut exporter,
        ExportAttempt::Written {
            result: Ok(WriteStats {
                objects_written: 2,
                bytes_written: 100,
            }),
        },
    );
    assert_eq!(verdict, Verdict::Ack);
    let verdict = attempt(
        &mut exporter,
        ExportAttempt::Written {
            result: Ok(WriteStats {
                objects_written: 0,
                bytes_written: 0,
            }),
        },
    );
    assert_eq!(verdict, Verdict::Ack);
    assert_eq!(
        exporter.io_metrics,
        ArrowExporterMetrics {
            objects_written: 2,
            bytes_written: 100
        }
    );
    assert_eq!(exporter.pdata_metrics.logs.success, 2);
    assert_eq!(exporter.pdata_metrics.logs.failure, 0);
}

#[test]
fn pdata_that_cannot_be_converted_is_refused_for_good() {
    let mut exporter = exporter();
    let verdict = attempt(
        &mut exporter,
        ExportAttempt::NotConverted {
            source: "no records".to_string(),
        },
    );
    assert_eq!(
        verdict,
        Verdict::Nack {
            permanent: true,
            reason: "failed to convert pdata to OTAP Arrow records: no records".to_string()
        }
    );
    assert_eq!(exporter.pdata_metrics.logs.failure, 1);
    assert_eq!(exporter.io_metrics, ArrowExporterMetrics::default());
}

fn failures() -> Vec<(ArrowWriterError, bool)> {
    let reason = || "reason".to_string();
    vec![
        (
            ArrowWriterError::ConfigureStorage { source: reason() },
            false,
        ),
        (
            ArrowWriterError::InvalidIdempotencyKey {
                idempotency_key: PdataId { value: 0 },
            },
            true,
        ),
        (
            ArrowWriterError::InvalidObjectPath {
                path: "a//b".to_string(),
                source: reason(),
            },
            true,
        ),
        (
            ArrowWriterError::Encode {
                payload_type: PayloadType::new("LOGS", "Logs").expect("payload type"),
                source: reason(),
            },
            true,
        ),
        (
            ArrowWriterError::Upload {
                location: "a".to_string(),
                source: reason(),
            },
            false,
        ),
        (
            ArrowWriterError::LocalUpload {
                path: "a".to_string(),
                source: LocalError {
                    kind: LocalErrorKind::Other,
                    message: reason(),
                },
            },
            false,
        ),
        (
            ArrowWriterError::LocalUploadTask {
                location: "a".to_string(),
                source: reason(),
            },
            false,
        ),
    ]
}

#[test]
fn failures_of_storage_are_transient_and_failures_of_pdata_permanent() {
    for (error, permanent) in failures() {
        assert_eq!(is_permanent(&error), permanent);
        let reason = format!("failed to write Arrow IPC pdata objects: {}", error.message());
        let mut exporter = exporter();
        let verdict = attempt(&mut exporter, ExportAttempt::Written { result: Err(error) });
        assert_eq!(verdict, Verdict::Nack { permanent, reason });
        assert_eq!(exporter.pdata_metrics.logs.failure, 1);
        assert_eq!(exporter.pdata_metrics.logs.success, 0);
    }
}

#[test]
fn messages_lead_to_actions() {
    let mut exporter = exporter();
    record_write_metrics(
        &mut exporter.io_metrics,
        WriteStats {
            objects_written: 1,
            bytes_written: 9,
        },
    );
    assert!(matches!(
        exporter.receive::<u8, &str>(Message::CollectTelemetry),
        Action::Report
    ));
    assert!(matches!(
        exporter.receive::<u8, &str>(Message::PData("pdata")),
        Action::Export("pdata")
    ));
    assert!(matches!(
        exporter.receive::<u8, &str>(Message::Other),
        Action::Ignore
    ));
    assert_eq!(exporter.io_metrics.bytes_written, 9);
    match exporter.receive::<u8, &str>(Message::Shutdown { deadline: 5 }) {
        Action::Stop(state) => {
            assert_eq!(state.deadline, 5);
            assert_eq!(state.metrics.len(), 1);
        }
        _ => panic!("the exporter stops"),
    }
    assert_eq!(exporter.io_metrics, ArrowExporterMetrics::default());
}

fn records() -> PdataRecords {
    PdataRecords {
        signal: SignalType::Traces,
        payloads: Vec::new(),
    }
}

#[test]
fn every_pdata_batch_is_answered_before_the_next_message() {
    let mut exporter = exporter();
    let mut session: Session<&str> = Session::new();
    let mut answers = Vec::new();
    for (pdata, failure) in [("first", Some("no records")), ("second", None)] {
        assert!(matches!(
            session.receive::<_, _, u8, ()>(&mut exporter, Ok(Message::CollectTelemetry)),
            Reaction::Report
        ));
        assert!(matches!(
            session.receive::<_, _, u8, ()>(&mut exporter, Ok(Message::Other)),
            Reaction::Ignore
        ));
        assert!(matches!(session.phase(), Phase::Receiving));
        assert!(matches!(
            session.receive::<_, _, u8, ()>(&mut exporter, Ok(Message::PData(pdata))),
            Reaction::Convert
        ));
        assert!(matches!(session.phase(), Phase::Converting(found) if *found == pdata));
        let conversion = match failure {
            Some(source) => Err(source.to_string()),
            None => Ok(records()),
        };
        let answer = match session.converted(&mut exporter, SignalType::Traces, conversion) {
            ExportStep::Notify(pdata, verdict) => (pdata, verdict),
            ExportStep::Write(written) => {
                assert_eq!(written.signal, SignalType::Traces);
                assert!(matches!(session.phase(), Phase::Writing(found) if *found == pdata));
                let stats = WriteStats {
                    objects_written: 1,
                    bytes_written: 8,
                };
                session.written(&mut exporter, SignalType::Traces, Ok(stats))
            }
        };
        answers.push(answer);
        assert!(matches!(session.phase(), Phase::Notifying));
        assert_eq!(session.notified::<()>(Ok(())), Ok(()));
    }
    assert_eq!(
        answers,
        vec![
            (
                "first",
                Verdict::Nack {
                    permanent: true,
                    reason: "failed to convert pdata to OTAP Arrow records: no records".to_string()
                }
            ),
            ("second", Verdict::Ack),
        ]
    );
    let shutdown = Ok::<_, ()>(Message::Shutdown { deadline: 3u8 });
    match session.receive(&mut exporter, shutdown) {
        Reaction::Stop(state) => {
            assert_eq!(state.deadline, 3);
            assert_eq!(state.metrics.len(), 3);
        }
        _ => panic!("the exporter stops"),
    }
    assert!(matches!(session.phase(), Phase::Stopped));
}

#[test]
fn failures_of_the_pipeline_end_a_run() {
    let mut exporter = exporter();
    let mut session: Session<&str> = Session::new();
    assert!(matches!(
        session.receive::<_, _, u8, &str>(&mut exporter, Err("closed")),
        Reaction::Fail("closed")
    ));
    assert!(matches!(session.phase(), Phase::Failed));

    let mut session: Session<&str> = Session::new();
    let message = Ok::<_, ()>(Message::<u8, &str>::PData("pdata"));
    assert!(matches!(
        session.receive(&mut exporter, message),
        Reaction::Convert
    ));
    let conversion = Err("no records".to_string());
    assert!(matches!(
        session.converted(&mut exporter, SignalType::Logs, conversion),
        ExportStep::Notify("pdata", Verdict::Nack { permanent: true, .. })
    ));
    assert_eq!(session.notified(Err("closed")), Err("closed"));
    assert!(matches!(session.phase(), Phase::Failed));
    assert_eq!(exporter.pdata_metrics.logs.failure, 1);
}

#[test]
fn new_exporters_have_counted_nothing() {
    let mut exporter = ArrowExporter::new(exporter().config);
    assert!(exporter.config.fsync);
    assert!(exporter.terminal_state(()).is_empty());
}

#[test]
fn messages_for_the_operator_name_the_cause() {
    assert_eq!(ARROW_EXPORTER_URN, "urn:otel:exporter:arrow");
    assert_eq!(
        configuration_message("missing field `storage`"),
        "failed to parse Arrow exporter configuration: missing field `storage`"
    );
    assert_eq!(
        initialization_message(&ArrowWriterError::ConfigureStorage {
            source: "no bucket".to_string()
        }),
        "failed to initialize Arrow exporter storage: \
         failed to configure Arrow IPC object storage: no bucket"
    );
}
