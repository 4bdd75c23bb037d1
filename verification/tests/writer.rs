use std::future::Future;
use std::io::{Cursor, Write};
use std::path::{Path as FilePath, PathBuf};
use std::sync::atomic::{AtomicBool, Ordering};
use std::sync::Arc;

use arrow::array::{ArrayRef, DictionaryArray, Int8Array, StringArray, UInt16Array};
use arrow::datatypes::Int8Type;
use arrow::record_batch::RecordBatch;
use arrow_exporter::config::{Compression, Config, StorageType};
use arrow_exporter::error::{ArrowWriterError, LocalError, LocalErrorKind};
use arrow_exporter::ipc::encode_payload;
use arrow_exporter::local::{LocalStep, StepOutcome};
use arrow_exporter::local_path::LocalPath;
use arrow_exporter::objects::{payload_location, pdata_timestamp, prepare_objects};
use arrow_exporter::payload::{
    signal_name, PayloadBatch, PayloadSlot, PayloadType, PdataRecords, SignalType,
};
use arrow_exporter::pdata_id::PdataId;
use arrow_exporter::storage::{SetupOutcome, SetupProgress, SetupStep, StorageSetup};
use arrow_exporter::template::ObjectPathTemplate;
use arrow_exporter::uploads::{put_result, PutOutcome, WriteStats};
use arrow_exporter::writer::{
    ArrowWriter, LocalWriteTarget, WriteTarget, DEFAULT_MAX_CONCURRENT_UPLOADS,
};
use arrow_ipc::reader::FileReader;
use futures::stream::FuturesUnordered;
use futures::{StreamExt, TryStreamExt};
use object_store::local::LocalFileSystem;
use object_store::memory::InMemory;
use object_store::path::Path;
use object_store::{ObjectMeta, ObjectStore, ObjectStoreExt};
use sha2::{Digest, Sha256};
use tempfile::NamedTempFile;
use uuid::Uuid;

const EXAMPLE_ID: &str = "019f9bd8-0446-78f0-b8b9-c662301b9876";

fn block_on<F: Future>(future: F) -> F::Output {
    tokio::runtime::Builder::new_current_thread()
        .build()
        .expect("create runtime")
        .block_on(future)
}

fn pdata_id(id: Uuid) -> PdataId {
    PdataId {
        value: id.as_u128(),
    }
}

fn numbers(column: &str, values: Vec<u16>) -> RecordBatch {
    let array: ArrayRef = Arc::new(UInt16Array::from(values));
    RecordBatch::try_from_iter([(column, array)]).expect("create record batch")
}

fn slot(stable: &str, label: &str, batch: Option<RecordBatch>) -> PayloadSlot {
    PayloadSlot {
        payload_type: PayloadType::new(stable, label).expect("payload type"),
        batch: batch.map(|batch| PayloadBatch { batch }),
    }
}

fn logs(payloads: Vec<PayloadSlot>) -> PdataRecords {
    PdataRecords {
        signal: SignalType::Logs,
        payloads,
    }
}

fn test_records() -> PdataRecords {
    logs(vec![
        slot("LOGS", "Logs", Some(numbers("id", vec![0, 1]))),
        slot("LOG_ATTRS", "LogAttrs", Some(numbers("parent_id", vec![0, 1]))),
        slot("RESOURCE_ATTRS", "ResourceAttrs", Some(numbers("parent_id", vec![0, 1]))),
        slot("SCOPE_ATTRS", "ScopeAttrs", Some(numbers("parent_id", vec![0, 1]))),
    ])
}

fn expected_objects(idempotency_key: PdataId, records: &PdataRecords) -> Vec<(String, Vec<u8>)> {
    prepare_objects(
        idempotency_key,
        records,
        &ObjectPathTemplate::default(),
        Compression::default(),
    )
    .expect("prepare expected objects")
}

/// An object store that refuses one object once, or none.
struct TestStore {
    inner: InMemory,
    failed: AtomicBool,
    path_fragment: Option<&'static str>,
}

impl TestStore {
    fn new(path_fragment: Option<&'static str>) -> Self {
        TestStore {
            inner: InMemory::new(),
            failed: AtomicBool::new(false),
            path_fragment,
        }
    }

    async fn put(&self, location: &Path, payload: Vec<u8>) -> Result<(), String> {
        if let Some(fragment) = self.path_fragment {
            if location.as_ref().contains(fragment) && !self.failed.swap(true, Ordering::SeqCst) {
                return Err("injected upload failure".to_string());
            }
        }
        self.inner
            .put(location, payload.into())
            .await
            .map(|_| ())
            .map_err(|error| error.to_string())
    }

    async fn list(&self) -> Vec<ObjectMeta> {
        self.inner
            .list(None)
            .try_collect::<Vec<_>>()
            .await
            .expect("list objects")
    }
}

async fn upload(
    writer: &ArrowWriter<Arc<TestStore>>,
    idempotency_key: PdataId,
    records: &PdataRecords,
) -> Result<WriteStats, ArrowWriterError> {
    let store = match writer.target() {
        WriteTarget::ObjectStore(store) => store,
        WriteTarget::Local(_) => panic!("the writer writes to an object store"),
    };
    let objects = writer.write_pdata(idempotency_key, records)?;
    let mut uploads = writer.start_upload(&objects);
    let mut in_flight = FuturesUnordered::new();
    while !uploads.is_over() {
        while let Some(index) = uploads.next_upload() {
            let (location, payload) = objects[index].clone();
            in_flight.push(async move {
                let path = Path::parse(&location).expect("object path");
                let outcome = match store.put(&path, payload).await {
                    Ok(()) => PutOutcome::Stored,
                    Err(reason) => PutOutcome::Rejected { reason },
                };
                (index, put_result(&location, outcome))
            });
        }
        assert!(in_flight.len() <= writer.max_concurrent_uploads());
        let (index, outcome) = in_flight.next().await.expect("an upload in flight");
        assert!(uploads.is_running(index));
        uploads.finish(index, outcome);
        assert!(!uploads.is_running(index) || uploads.has_failed());
    }
    uploads.into_result()
}

fn decode(bytes: Vec<u8>) -> Vec<RecordBatch> {
    FileReader::try_new(Cursor::new(bytes), None)
        .expect("open Arrow IPC file")
        .map(|batch| batch.expect("decode batch"))
        .collect()
}

/// Scenario: An OTAP pdata payload is encoded as a standalone Arrow IPC file.
/// Guarantees: The public checksum method covers exactly the bytes prepared for upload.
#[test]
fn calculates_sha256_for_each_payload() {
    let records = test_records();
    let writer = ArrowWriter::new(Arc::new(InMemory::new()));
    let objects = expected_objects(pdata_id(Uuid::now_v7()), &records);

    for (i, slot) in records.payloads.iter().enumerate() {
        let batch = slot.batch.as_ref().expect("populated payload");
        let encoded = encode_payload(batch, Compression::Zstd).expect("encode compressed payload");
        let expected: [u8; 32] = Sha256::digest(&encoded).into();
        let actual = writer
            .calculate_payload_sha256(batch)
            .expect("calculate payload SHA-256");

        assert_eq!(actual, expected);
        assert_eq!(objects[i].1, encoded);
    }
}

/// Scenario: The same repetitive Arrow batch is encoded with default and disabled compression.
/// Guarantees: Zstandard is readable and reduces bytes while `none` remains a valid opt-out.
#[test]
fn supports_default_zstd_and_optional_uncompressed_ipc() {
    let source = numbers("id", vec![7u16; 16_384]);
    let batch = PayloadBatch {
        batch: source.clone(),
    };
    let compressed =
        encode_payload(&batch, Compression::default()).expect("encode compressed payload");
    let uncompressed =
        encode_payload(&batch, Compression::Uncompressed).expect("encode uncompressed payload");

    assert!(compressed.len() < uncompressed.len());
    for encoded in [compressed, uncompressed] {
        let mut reader =
            FileReader::try_new(Cursor::new(encoded), None).expect("open Arrow IPC file");
        assert_eq!(
            reader.next().expect("one batch").expect("decode batch"),
            source
        );
        assert!(reader.next().is_none());
    }
}

/// Scenario: One pdata batch contains several OTAP Arrow payloads.
/// Guarantees: Every populated payload becomes a deterministic standalone Arrow IPC object.
#[test]
fn writes_each_pdata_payload_as_an_arrow_file() {
    let idempotency_key = Uuid::now_v7();
    let records = test_records();
    let expected = expected_objects(pdata_id(idempotency_key), &records);
    let object_store = Arc::new(TestStore::new(None));
    let writer = ArrowWriter::new(object_store.clone());

    block_on(async {
        let stats = upload(&writer, pdata_id(idempotency_key), &records)
            .await
            .expect("write pdata payloads");
        let objects = object_store.list().await;

        assert_eq!(expected.len(), 4);
        assert_eq!(stats.objects_written, expected.len() as u64);
        assert_eq!(
            stats.bytes_written,
            expected
                .iter()
                .map(|(_, payload)| payload.len() as u64)
                .sum::<u64>()
        );
        assert_eq!(objects.len(), expected.len());

        for (location, expected_bytes) in expected {
            let bytes = object_store
                .inner
                .get(&Path::parse(&location).expect("object path"))
                .await
                .expect("get uploaded payload")
                .bytes()
                .await
                .expect("read uploaded payload");

            assert_eq!(bytes, expected_bytes);
            assert!(location.contains("/signal=logs/"));
            assert!(location.ends_with(&format!("{idempotency_key}.arrow")));

            let reader =
                FileReader::try_new(Cursor::new(bytes), None).expect("open uploaded Arrow file");
            assert_eq!(reader.count(), 1);
        }
    });
}

/// Scenario: Pdata contains a payload using the production OTAP logs schema.
/// Guarantees: Exported Arrow IPC decodes to the same OTAP record batch and pdata path.
#[test]
fn writes_actual_otap_logs_payload() {
    let source = numbers("id", vec![0, 1]);
    let records = logs(vec![slot("LOGS", "Logs", Some(source.clone()))]);
    let idempotency_key = Uuid::now_v7();
    let object_store = Arc::new(TestStore::new(None));
    let writer = ArrowWriter::new(object_store.clone());

    block_on(async {
        let stats = upload(&writer, pdata_id(idempotency_key), &records)
            .await
            .expect("write OTAP logs payload");
        let objects = object_store.list().await;

        assert_eq!(stats.objects_written, 1);
        assert_eq!(objects.len(), 1);
        assert!(objects[0].location.as_ref().contains("payload=logs/"));
        assert!(objects[0]
            .location
            .as_ref()
            .ends_with(&format!("{idempotency_key}.arrow")));

        let bytes = object_store
            .inner
            .get(&objects[0].location)
            .await
            .expect("get OTAP logs object")
            .bytes()
            .await
            .expect("read OTAP logs object");
        let mut reader =
            FileReader::try_new(Cursor::new(bytes), None).expect("open OTAP logs Arrow file");
        let decoded = reader
            .next()
            .expect("one Arrow batch")
            .expect("decode OTAP logs batch");

        assert_eq!(decoded, source);
        assert!(reader.next().is_none());
    });
}

/// Scenario: One payload upload fails after a pdata write has started.
/// Guarantees: Retrying converges to one complete object per deterministic pdata path.
#[test]
fn retry_after_partial_failure_completes_the_same_pdata_objects() {
    let idempotency_key = pdata_id(Uuid::now_v7());
    let records = test_records();
    let expected_count = expected_objects(idempotency_key, &records).len();
    let failing_store = Arc::new(TestStore::new(Some("payload=log_attrs")));
    let writer = ArrowWriter::new(failing_store.clone());

    block_on(async {
        let first_result = upload(&writer, idempotency_key, &records).await;
        assert!(matches!(first_result, Err(ArrowWriterError::Upload { .. })));
        let retry_stats = upload(&writer, idempotency_key, &records)
            .await
            .expect("retry write");
        let objects = failing_store.list().await;

        assert_eq!(objects.len(), expected_count);
        assert_eq!(retry_stats.objects_written, expected_count as u64);
    });
}

/// Scenario: A caller supplies an identity that is not UUIDv7.
/// Guarantees: The writer refuses to publish objects without a time-sortable pdata identity.
#[test]
fn rejects_non_uuidv7_idempotency_keys() {
    let object_store = Arc::new(TestStore::new(None));
    let writer = ArrowWriter::new(object_store.clone());

    block_on(async {
        let result = upload(&writer, pdata_id(Uuid::new_v4()), &test_records()).await;

        assert!(matches!(
            result,
            Err(ArrowWriterError::InvalidIdempotencyKey { .. })
        ));
        assert!(object_store.list().await.is_empty());
    });
}

/// Scenario: A path template uses every supported partition placeholder.
/// Guarantees: Values are rendered from the pdata UUIDv7 timestamp in UTC.
#[test]
fn renders_configured_object_path_template() {
    let idempotency_key = Uuid::parse_str(EXAMPLE_ID).expect("parse UUIDv7");
    let object_store = Arc::new(TestStore::new(None));
    let template = ObjectPathTemplate::parse(
        "[year]-[month]-[day]/hour=[hour]/minute=[minute]/signal=[signal]/\
         payload=[payload]/[pdata_id].arrow",
    )
    .expect("parse path template");
    let writer = ArrowWriter::new(object_store.clone()).with_object_path_template(template);
    let records = logs(vec![slot("LOGS", "Logs", Some(numbers("id", vec![0])))]);

    block_on(async {
        let _ = upload(&writer, pdata_id(idempotency_key), &records)
            .await
            .expect("write pdata");
        let objects = object_store.list().await;

        assert_eq!(objects.len(), 1);
        assert_eq!(
            objects[0].location.as_ref(),
            "2026-07-26/hour=00/minute=34/signal=logs/payload=logs/\
             019f9bd8-0446-78f0-b8b9-c662301b9876.arrow"
        );
    });
}

fn local_path(path: &FilePath) -> LocalPath {
    LocalPath {
        components: path
            .components()
            .map(|component| component.as_os_str().as_encoded_bytes().to_vec())
            .collect(),
        display: path.display().to_string(),
    }
}

fn path_buf(names: &[Vec<u8>]) -> PathBuf {
    names
        .iter()
        .map(|name| String::from_utf8(name.clone()).expect("name"))
        .collect()
}

/// Creates the directory of an object by way of another object in it.
fn create_parent(file_system: &LocalFileSystem, location: &str) -> Result<(), String> {
    let parent = location.rsplit_once('/').expect("parent").0;
    let marker = Path::parse(format!("{parent}/marker")).expect("object path");
    block_on(async {
        file_system.put(&marker, Vec::new().into()).await?;
        file_system.delete(&marker).await
    })
    .map_err(|error| error.to_string())
}

fn write_local(
    file_system: &LocalFileSystem,
    target: &LocalWriteTarget,
    location: &str,
    payload: &[u8],
) -> Result<(), LocalError> {
    let file = target.destination(location).expect("path of the object");
    let mut write = target.write_local_object(&file, true)?;
    let destination = path_buf(&file.components);
    let parent = file.parent().expect("parent");
    let directory = path_buf(&parent.components);
    assert_eq!(destination.parent(), Some(directory.as_path()));
    let mut staged: Option<NamedTempFile> = None;
    while let Some(step) = write.next_step() {
        let done = match step {
            LocalStep::CreateParent => create_parent(file_system, location),
            LocalStep::Stage => tempfile::Builder::new()
                .prefix(path_buf(&file.staging_path()).file_name().expect("file name"))
                .rand_bytes(0)
                .tempfile_in(&directory)
                .map(|file| staged = Some(file))
                .map_err(|error| error.to_string()),
            LocalStep::WritePayload => staged
                .as_mut()
                .expect("temporary file")
                .write_all(payload)
                .map_err(|error| error.to_string()),
            LocalStep::SyncFile => staged
                .as_mut()
                .expect("temporary file")
                .as_file()
                .sync_all()
                .map_err(|error| error.to_string()),
            LocalStep::Install => staged
                .take()
                .expect("temporary file")
                .persist(&destination)
                .map(|_| ())
                .map_err(|error| error.to_string()),
            LocalStep::SyncDirectory { depth } => {
                assert!(path_buf(&parent.components[..depth]).is_dir());
                Ok(())
            }
        };
        write.advance(match done {
            Ok(()) => StepOutcome::Done,
            Err(message) => StepOutcome::Failed {
                error: LocalError {
                    kind: LocalErrorKind::Other,
                    message,
                },
            },
        });
    }
    assert_eq!(write.has_staged_file(), staged.is_some());
    write.result().expect("the write has ended")
}

/// Scenario: One pdata batch is written twice using default configured local storage.
/// Guarantees: Durable local files remain valid Arrow IPC and retries replace every payload.
#[test]
fn writes_pdata_objects_to_the_local_filesystem() {
    let idempotency_key = pdata_id(Uuid::now_v7());
    let records = test_records();
    let expected = expected_objects(idempotency_key, &records);
    let output_directory = tempfile::tempdir().expect("create output directory");
    let base_uri = output_directory.path().to_string_lossy().into_owned();
    let config: Config<(), ()> = Config {
        storage: StorageType::File {
            base_uri: base_uri.clone(),
        },
        retry: None,
        fsync: true,
        compression: Compression::default(),
        object_path_template: ObjectPathTemplate::default(),
    };
    let root = output_directory
        .path()
        .canonicalize()
        .expect("resolve output directory");
    let file_system = LocalFileSystem::new_with_prefix(&root).expect("open output directory");
    let setup: StorageSetup<()> = StorageSetup::Directory {
        file_system: LocalFileSystem::new_with_prefix(&base_uri).expect("open output directory"),
        root: local_path(&root),
    };
    let writer = ArrowWriter::from_config(&config, setup).expect("create configured writer");
    let target = match writer.target() {
        WriteTarget::Local(target) => target,
        WriteTarget::ObjectStore(_) => panic!("the writer writes to a directory"),
    };
    assert!(target.fsync);

    let write = || {
        let mut outcomes = Vec::new();
        for (location, payload) in writer
            .write_pdata(idempotency_key, &records)
            .expect("prepare objects")
        {
            let outcome = match write_local(&file_system, target, &location, &payload) {
                Ok(()) => PutOutcome::Stored,
                Err(error) => PutOutcome::FileFailed {
                    path: location.clone(),
                    error,
                },
            };
            outcomes.push(put_result(&location, outcome).map(|_| payload.len() as u64));
        }
        WriteStats::from_uploads(outcomes)
    };
    let stats = write().expect("write pdata payloads");
    let retry_stats = write().expect("rewrite pdata payloads");

    assert_eq!(stats.objects_written, expected.len() as u64);
    assert_eq!(retry_stats.objects_written, expected.len() as u64);
    for (location, expected_bytes) in expected {
        let path = output_directory.path().join(&location);
        let bytes = block_on(async {
            file_system
                .get(&Path::parse(&location).expect("object path"))
                .await
                .expect("read Arrow file directly")
                .bytes()
                .await
                .expect("read Arrow file directly")
        });

        assert_eq!(bytes, expected_bytes);
        let reader = FileReader::try_new(Cursor::new(bytes), None).expect("open local Arrow file");
        assert_eq!(reader.count(), 1);
        let siblings = path
            .parent()
            .expect("parent")
            .read_dir()
            .expect("read directory")
            .count();
        assert_eq!(siblings, 1);
    }
}

#[test]
fn default_template_names_objects_as_documented() {
    let id = pdata_id(Uuid::parse_str(EXAMPLE_ID).expect("parse UUIDv7"));
    let records = PdataRecords {
        signal: SignalType::Traces,
        payloads: vec![
            slot("RESOURCE_ATTRS", "ResourceAttrs", None),
            slot("SPANS", "Spans", Some(numbers("id", vec![1]))),
        ],
    };
    let objects = expected_objects(id, &records);

    assert_eq!(objects.len(), 1);
    assert_eq!(
        objects[0].0,
        "otap/v1/signal=traces/payload=spans/date=2026-07-26/hour=00/\
         019f9bd8-0446-78f0-b8b9-c662301b9876.arrow"
    );
    assert_eq!(decode(objects[0].1.clone()), vec![numbers("id", vec![1])]);
}

#[test]
fn payloads_without_rows_are_skipped_and_order_is_kept() {
    let id = pdata_id(Uuid::now_v7());
    let records = logs(vec![
        slot("LOGS", "Logs", Some(numbers("id", vec![3]))),
        slot("LOG_ATTRS", "LogAttrs", None),
        slot("SCOPE_ATTRS", "ScopeAttrs", Some(numbers("parent_id", vec![4]))),
    ]);
    let objects = expected_objects(id, &records);

    assert_eq!(objects.len(), 2);
    assert!(objects[0].0.contains("/payload=logs/"));
    assert!(objects[1].0.contains("/payload=scope_attrs/"));
    assert_eq!(decode(objects[0].1.clone()), vec![numbers("id", vec![3])]);
    assert_eq!(decode(objects[1].1.clone()), vec![numbers("parent_id", vec![4])]);
    assert!(expected_objects(id, &logs(Vec::new())).is_empty());
}

#[test]
fn preparing_twice_gives_the_same_objects() {
    let id = pdata_id(Uuid::now_v7());
    assert_eq!(
        expected_objects(id, &test_records()),
        expected_objects(id, &test_records())
    );
}

#[test]
fn different_pdata_and_payloads_have_different_paths() {
    let template = ObjectPathTemplate::parse("[date][year]/[payload]x[pdata_id].arrow")
        .expect("accept template");
    let mut paths = Vec::new();
    for id in [
        Uuid::parse_str(EXAMPLE_ID).expect("parse UUIDv7"),
        Uuid::parse_str("019f9bd8-0446-78f0-b8b9-c662301b9877").expect("parse UUIDv7"),
        Uuid::parse_str("ffffffff-ffff-7fff-bfff-ffffffffffff").expect("parse UUIDv7"),
    ] {
        let objects = prepare_objects(
            pdata_id(id),
            &test_records(),
            &template,
            Compression::Uncompressed,
        )
        .expect("prepare objects");
        paths.extend(objects.into_iter().map(|(path, _)| path));
    }
    assert_eq!(paths.len(), 12);
    paths.sort();
    paths.dedup();
    assert_eq!(paths.len(), 12);
}

#[test]
fn creation_time_is_read_from_the_key() {
    let id = Uuid::parse_str(EXAMPLE_ID).expect("parse UUIDv7");
    let time = pdata_timestamp(pdata_id(id)).expect("read time");

    assert_eq!(
        (time.year, time.month, time.day, time.hour, time.minute),
        (2026, 7, 26, 0, 34)
    );
    let (seconds, nanos) = id.get_timestamp().expect("timestamp").to_unix();
    assert_eq!((time.seconds, time.nanos), (seconds as i64, nanos));

    let first = Uuid::parse_str("00000000-0000-7000-8000-000000000000").expect("parse UUIDv7");
    let time = pdata_timestamp(pdata_id(first)).expect("read time");
    assert_eq!(
        (time.year, time.month, time.day, time.hour, time.minute),
        (1970, 1, 1, 0, 0)
    );
}

#[test]
fn years_beyond_four_digits_are_written_out() {
    let last = pdata_id(
        Uuid::parse_str("ffffffff-ffff-7fff-bfff-ffffffffffff").expect("parse UUIDv7"),
    );
    let time = pdata_timestamp(last).expect("read time");
    let payload_type = PayloadType::new("SPANS", "Spans").expect("payload type");
    let template =
        ObjectPathTemplate::parse("[date]/[year]/[signal].arrow").expect("accept template");
    let location = payload_location(&template, last, SignalType::Traces, &payload_type, &time)
        .expect("object path");

    assert_eq!(location, "+10889-08-02/10889/traces.arrow");
}

#[test]
fn keys_of_other_versions_are_named_in_the_error() {
    let id = Uuid::parse_str("6b1f2f0e-5a0c-4d0e-9f4f-0123456789ab").expect("parse UUIDv4");
    let error = pdata_timestamp(pdata_id(id)).expect_err("reject key");

    assert!(matches!(
        error,
        ArrowWriterError::InvalidIdempotencyKey { idempotency_key } if idempotency_key == pdata_id(id)
    ));
    assert_eq!(
        error.message(),
        "pdata idempotency key 6b1f2f0e-5a0c-4d0e-9f4f-0123456789ab has no valid UUIDv7 timestamp"
    );
}

fn unencodable() -> RecordBatch {
    let inner: DictionaryArray<Int8Type> = DictionaryArray::try_new(
        Int8Array::from(vec![0, 0]),
        Arc::new(StringArray::from(vec!["a"])),
    )
    .expect("inner dictionary");
    let outer: DictionaryArray<Int8Type> =
        DictionaryArray::try_new(Int8Array::from(vec![1, 0]), Arc::new(inner))
            .expect("outer dictionary");
    let array: ArrayRef = Arc::new(outer);
    RecordBatch::try_from_iter([("nested", array)]).expect("create record batch")
}

#[test]
fn rows_that_cannot_be_encoded_are_named_in_the_error() {
    let id = pdata_id(Uuid::now_v7());
    let records = logs(vec![
        slot("LOGS", "Logs", Some(numbers("id", vec![0]))),
        slot("LOG_ATTRS", "LogAttrs", Some(unencodable())),
        slot("SCOPE_ATTRS", "ScopeAttrs", Some(numbers("parent_id", vec![4]))),
    ]);
    let error = prepare_objects(
        id,
        &records,
        &ObjectPathTemplate::default(),
        Compression::Zstd,
    )
    .expect_err("reject rows");

    assert!(error
        .message()
        .starts_with("failed to encode pdata payload LogAttrs as Arrow IPC: "));
    assert!(matches!(
        error,
        ArrowWriterError::Encode { payload_type, .. } if payload_type.as_str_name() == "LOG_ATTRS"
    ));

    let writer = ArrowWriter::new(());
    let batch = PayloadBatch {
        batch: unencodable(),
    };
    assert!(writer.calculate_payload_sha256(&batch).is_err());
}

#[test]
fn settings_of_a_writer_are_changed_one_by_one() {
    let writer = ArrowWriter::new("store");
    assert_eq!(writer.max_concurrent_uploads(), DEFAULT_MAX_CONCURRENT_UPLOADS);
    assert!(matches!(writer.target(), WriteTarget::ObjectStore("store")));

    let batch = PayloadBatch {
        batch: numbers("id", vec![7u16; 16_384]),
    };
    let compressed = writer.calculate_payload_sha256(&batch).expect("digest");
    let writer = writer
        .with_max_concurrent_uploads(3)
        .with_compression(Compression::Uncompressed);
    assert_eq!(writer.max_concurrent_uploads(), 3);
    let uncompressed = writer.calculate_payload_sha256(&batch).expect("digest");
    assert_ne!(compressed, uncompressed);
    let encoded = encode_payload(&batch, Compression::Uncompressed).expect("encode");
    let expected: [u8; 32] = Sha256::digest(&encoded).into();
    assert_eq!(uncompressed, expected);
}

fn file_config(fsync: bool, retry: Option<u8>) -> Config<String, u8> {
    Config {
        storage: StorageType::File {
            base_uri: "data".to_string(),
        },
        retry,
        fsync,
        compression: Compression::Uncompressed,
        object_path_template: ObjectPathTemplate::parse("[pdata_id].arrow")
            .expect("accept template"),
    }
}

#[test]
fn storage_that_cannot_be_set_up_is_an_error() {
    let setup: StorageSetup<()> = StorageSetup::RetryRejected {
        reason: "too many retries".to_string(),
    };
    let error = ArrowWriter::from_config(&file_config(true, Some(1)), setup)
        .err()
        .expect("reject retry settings");
    assert_eq!(
        error.message(),
        "failed to configure Arrow IPC object storage: too many retries"
    );

    let setup: StorageSetup<()> = StorageSetup::Rejected {
        reason: "no such directory".to_string(),
    };
    let error = ArrowWriter::from_config(&file_config(true, None), setup)
        .err()
        .expect("reject directory");
    assert!(matches!(error, ArrowWriterError::ConfigureStorage { .. }));

    let setup: StorageSetup<()> = StorageSetup::Unresolved {
        error: LocalError {
            kind: LocalErrorKind::PermissionDenied,
            message: "permission denied".to_string(),
        },
    };
    let error = ArrowWriter::from_config(&file_config(true, None), setup)
        .err()
        .expect("reject directory");
    assert!(matches!(
        &error,
        ArrowWriterError::LocalUpload { source, .. } if source.kind == LocalErrorKind::PermissionDenied
    ));
    assert_eq!(
        error.message(),
        "failed to write local Arrow IPC object data: permission denied"
    );
}

fn next(progress: SetupProgress<&'static str>) -> SetupStep {
    match progress {
        SetupProgress::Next(step) => step,
        SetupProgress::Ended(_) => panic!("there is a step to take"),
    }
}

#[test]
fn storage_is_set_up_step_by_step() {
    let config = file_config(true, Some(1));
    let step = next(SetupProgress::start(&config));
    assert_eq!(step, SetupStep::ValidateRetry);
    let step = next(SetupProgress::after(&config, step, SetupOutcome::Done));
    assert_eq!(step, SetupStep::OpenDirectory);
    let step = next(SetupProgress::after(&config, step, SetupOutcome::Done));
    assert_eq!(step, SetupStep::ResolveDirectory);
    let root = || local_path(FilePath::new("/data"));
    let outcome: SetupOutcome<()> = SetupOutcome::Resolved {
        file_system: LocalFileSystem::new(),
        root: root(),
    };
    assert!(matches!(
        SetupProgress::after(&config, step, outcome),
        SetupProgress::Ended(StorageSetup::Directory { root: found, .. }) if found == root()
    ));

    let config: Config<String, u8> = Config {
        storage: StorageType::Cloud("bucket".to_string()),
        ..file_config(true, None)
    };
    let step = next(SetupProgress::start(&config));
    assert_eq!(step, SetupStep::OpenStore);
    assert!(matches!(
        SetupProgress::after(&config, step, SetupOutcome::Opened("client")),
        SetupProgress::Ended(StorageSetup::Store("client"))
    ));
}

#[test]
fn failed_steps_end_the_setup() {
    let failure = || SetupOutcome::Failed {
        reason: "broken".to_string(),
    };
    let config = file_config(true, Some(1));
    let setup = |step: SetupStep| match SetupProgress::<()>::after(&config, step, failure()) {
        SetupProgress::Ended(setup) => setup,
        SetupProgress::Next(_) => panic!("the setup has ended"),
    };
    assert!(matches!(
        setup(SetupStep::ValidateRetry),
        StorageSetup::RetryRejected { reason } if reason == "broken"
    ));
    assert!(matches!(
        setup(SetupStep::OpenDirectory),
        StorageSetup::Rejected { reason } if reason == "broken"
    ));
    let unresolved: SetupOutcome<()> = SetupOutcome::Unresolved {
        error: LocalError {
            kind: LocalErrorKind::NotFound,
            message: "gone".to_string(),
        },
    };
    assert!(matches!(
        SetupProgress::after(&config, SetupStep::ResolveDirectory, unresolved),
        SetupProgress::Ended(StorageSetup::Unresolved { error })
            if error.kind == LocalErrorKind::NotFound && error.message == "gone"
    ));
}

#[test]
fn configured_writers_keep_their_settings() {
    let setup: StorageSetup<()> = StorageSetup::Directory {
        file_system: LocalFileSystem::new(),
        root: local_path(FilePath::new("/data")),
    };
    let writer =
        ArrowWriter::from_config(&file_config(false, None), setup).expect("create writer");
    assert!(matches!(
        writer.target(),
        WriteTarget::Local(target)
            if target.root == local_path(FilePath::new("/data")) && !target.fsync
    ));
    assert_eq!(writer.max_concurrent_uploads(), 8);

    let config: Config<String, u8> = Config {
        storage: StorageType::Cloud("bucket".to_string()),
        ..file_config(true, None)
    };
    let writer =
        ArrowWriter::from_config(&config, StorageSetup::Store("client")).expect("create writer");
    assert!(matches!(writer.target(), WriteTarget::ObjectStore("client")));
    let id = Uuid::now_v7();
    let objects = writer
        .write_pdata(pdata_id(id), &test_records())
        .expect("prepare objects");
    assert_eq!(objects[0].0, format!("{id}.arrow"));
    assert_eq!(
        objects[0].1,
        encode_payload(
            test_records().payloads[0].batch.as_ref().expect("rows"),
            Compression::Uncompressed
        )
        .expect("encode")
    );
}

#[test]
fn failed_puts_become_errors() {
    assert!(put_result("a.arrow", PutOutcome::Stored).is_ok());
    let error = put_result(
        "a.arrow",
        PutOutcome::Rejected {
            reason: "timeout".to_string(),
        },
    )
    .expect_err("failed put");
    assert_eq!(
        error.message(),
        "failed to upload Arrow IPC object a.arrow: timeout"
    );
    let error = put_result(
        "a.arrow",
        PutOutcome::FileFailed {
            path: "/data/a.arrow".to_string(),
            error: LocalError {
                kind: LocalErrorKind::Other,
                message: "disk full".to_string(),
            },
        },
    )
    .expect_err("failed put");
    assert_eq!(
        error.message(),
        "failed to write local Arrow IPC object /data/a.arrow: disk full"
    );
    let error = put_result(
        "a.arrow",
        PutOutcome::TaskFailed {
            reason: "task was cancelled".to_string(),
        },
    )
    .expect_err("failed put");
    assert_eq!(
        error.message(),
        "local Arrow IPC upload task failed for a.arrow: task was cancelled"
    );
    let error = ArrowWriterError::InvalidObjectPath {
        path: "a//b".to_string(),
        source: "empty".to_string(),
    };
    assert_eq!(
        error.message(),
        "object path template produced invalid path a//b: empty"
    );
}

#[test]
fn uploads_are_added_up_until_one_fails() {
    assert_eq!(
        WriteStats::from_uploads(vec![Ok(10), Ok(0), Ok(32)]).ok(),
        Some(WriteStats {
            objects_written: 3,
            bytes_written: 42
        })
    );
    assert_eq!(
        WriteStats::from_uploads(Vec::new()).ok(),
        Some(WriteStats::default())
    );
    let failure = |reason: &str| {
        put_result(
            "a.arrow",
            PutOutcome::Rejected {
                reason: reason.to_string(),
            },
        )
        .map(|_| 1u64)
    };
    let error = WriteStats::from_uploads(vec![Ok(1), failure("first"), failure("second"), Ok(2)])
        .expect_err("failed write");
    assert_eq!(
        error.message(),
        "failed to upload Arrow IPC object a.arrow: first"
    );
}

fn local_target() -> LocalWriteTarget {
    LocalWriteTarget {
        file_system: LocalFileSystem::new(),
        root: local_path(FilePath::new("/")),
        fsync: true,
    }
}

#[test]
fn files_stand_at_the_root_and_the_location() {
    let target = local_target();
    for location in ["a.arrow", "otap/v1/hour=00/größe %2e?#x.arrow", "x/..y/z#1.arrow"] {
        let path = target.destination(location).expect("file");
        assert_eq!(path, local_path(&FilePath::new("/").join(location)));
        let write = target.write_local_object(&path, true).expect("start write");
        assert_eq!(write.next_step(), Some(LocalStep::CreateParent));
    }

    let directory = tempfile::tempdir().expect("create directory");
    let root = directory.path().canonicalize().expect("resolve directory");
    let target = LocalWriteTarget {
        file_system: LocalFileSystem::new_with_prefix(&root).expect("open directory"),
        root: local_path(&root),
        fsync: true,
    };
    let path = target.destination("a/b.arrow").expect("file");
    assert_eq!(path, local_path(&root.join("a").join("b.arrow")));
}

#[test]
fn every_file_stands_below_the_root() {
    let directory = tempfile::tempdir().expect("create directory");
    let root = directory.path().canonicalize().expect("resolve directory");
    let target = LocalWriteTarget {
        file_system: LocalFileSystem::new_with_prefix(&root).expect("open directory"),
        root: local_path(&root),
        fsync: true,
    };
    for location in ["C|/a:b.arrow", "a\\..\\b.arrow", "a:b/c|d.arrow"] {
        let path = target.destination(location).expect("file");
        assert!(path.components.starts_with(&target.root.components));
        let mut write = target.write_local_object(&path, true).expect("start write");
        while write.next_step().is_some() {
            write.advance(StepOutcome::Done);
        }
        assert_eq!(write.result(), Some(Ok(())));
    }
}

#[test]
fn names_kept_for_other_files_have_no_file() {
    let error = local_target()
        .destination("a/b#12")
        .expect_err("no file for the name");
    assert!(matches!(
        &error,
        ArrowWriterError::Upload { location, .. } if location == "a/b#12"
    ));
    assert!(error.message().contains("a/b#12"));
    for location in ["a/b#", "a/b#x1", "a#12/b", "b#1#2"] {
        assert!(local_target().destination(location).is_ok(), "{location}");
    }
}

#[test]
fn no_more_uploads_are_in_flight_than_may_be() {
    let objects: Vec<(String, Vec<u8>)> = (0u8..5)
        .map(|i| (format!("{i}.arrow"), vec![0; usize::from(i)]))
        .collect();
    let mut results = Vec::new();
    for limit in [1, 2, 8] {
        let writer = ArrowWriter::new(()).with_max_concurrent_uploads(limit);
        let mut upload = writer.start_upload(&objects);
        let mut running = Vec::new();
        while !upload.is_over() {
            while let Some(index) = upload.next_upload() {
                running.push(index);
            }
            assert!(!running.is_empty() && running.len() <= limit);
            let index = running.pop().expect("an upload in flight");
            assert!(upload.is_running(index));
            upload.finish(index, Ok(()));
            assert!(!upload.is_running(index));
        }
        assert!(!upload.has_failed());
        results.push(upload.into_result().expect("write"));
    }
    assert_eq!(
        results,
        vec![
            WriteStats {
                objects_written: 5,
                bytes_written: 10
            };
            3
        ]
    );
}

#[test]
fn failed_uploads_end_a_write() {
    let objects: Vec<(String, Vec<u8>)> = (0u8..3)
        .map(|i| (format!("{i}.arrow"), vec![0; 4]))
        .collect();
    let mut upload = ArrowWriter::new(())
        .with_max_concurrent_uploads(2)
        .start_upload(&objects);
    assert_eq!(upload.next_upload(), Some(0));
    assert_eq!(upload.next_upload(), Some(1));
    assert_eq!(upload.next_upload(), None);
    let failure = put_result(
        "1.arrow",
        PutOutcome::Rejected {
            reason: "timeout".to_string(),
        },
    );
    upload.finish(1, failure);
    assert!(upload.has_failed() && upload.is_over());
    assert_eq!(upload.next_upload(), None);
    upload.finish(0, Ok(()));
    assert_eq!(
        upload.into_result().expect_err("failed write").message(),
        "failed to upload Arrow IPC object 1.arrow: timeout"
    );
}

#[test]
fn payload_types_have_identifiers_as_names() {
    let payload_type = PayloadType::new("LOG_ATTRS", "LogAttrs").expect("payload type");
    assert_eq!(payload_type.as_str_name(), "LOG_ATTRS");
    assert_eq!(payload_type.label(), "LogAttrs");
    assert_eq!(payload_type.clone(), payload_type);
    assert!(PayloadType::new("", "Empty").is_none());
    assert!(PayloadType::new("../x", "Path").is_none());
    assert!(PayloadType::new("a-b", "Hyphen").is_none());
    assert_eq!(signal_name(SignalType::Logs), "logs");
    assert_eq!(signal_name(SignalType::Metrics), "metrics");
    assert_eq!(signal_name(SignalType::Traces), "traces");
}
