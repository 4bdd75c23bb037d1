//! The writer of pdata: its settings, where it writes to, and what a write results in.

use object_store::local::LocalFileSystem;
use vstd::prelude::*;

use crate::config::{Compression, Config, StorageType};
use crate::error::{ArrowWriterError, LocalError};
use crate::file_system::{
    file_path, file_system_root, is_file_location, is_plain_location, location_names,
    path_to_filesystem,
};
use crate::in_flight::{
    lemma_complete_write, lemma_sizes_fit, PdataUpload, UploadEvent, UploadState,
};
use crate::ipc::{calculate_sha256, encode_payload, encoded, sha256};
use crate::local::{no_parent, LocalProgress, LocalWrite};
use crate::local_path::LocalPath;
use crate::object_path::{is_location, segments};
use crate::objects::{
    are_locations, is_preparation, object_sizes, object_views, prepare_objects,
};
use crate::payload::{PayloadBatch, PdataRecords};
use crate::pdata_id::PdataId;
use crate::storage::StorageSetup;
use crate::template::{ObjectPathTemplate, DEFAULT_OBJECT_PATH_TEMPLATE};
use crate::uploads::{is_write_result, total, WriteStats};

verus! {

/// Default maximum number of payload uploads in flight for one pdata batch.
pub const DEFAULT_MAX_CONCURRENT_UPLOADS: usize = 8;

/// A local directory that objects are written to.
#[derive(Debug)]
pub struct LocalWriteTarget {
    /// The directory as an object store.
    pub file_system: LocalFileSystem,
    /// The directory, free of symbolic links and relative steps.
    pub root: LocalPath,
    /// Whether files and directories are synced before a write is reported as done.
    pub fsync: bool,
}

impl LocalWriteTarget {
    /// Returns the file of an object.
    ///
    /// # Errors
    ///
    /// Returns an error if the object has no file.
    pub fn destination(&self, location: &str) -> (result: Result<LocalPath, ArrowWriterError>)
        requires
            is_location(location@),
        ensures
            match (result, file_path(self.file_system, location@)) {
                (Ok(path), Ok(file)) => path@ == file,
                (Err(ArrowWriterError::Upload { location: failed, source }), Err(reason)) => {
                    failed@ == location@ && source@ == reason
                },
                _ => false,
            },
            result is Ok ==> is_file_location(location@),
            is_file_location(location@) && file_system_root(self.file_system).len() > 0 ==> result
                is Ok,
            result is Ok ==> file_system_root(self.file_system).is_prefix_of(
                result->Ok_0@.components,
            ),
            result is Ok && file_system_root(self.file_system).len() > 0 && !location@.contains('\\')
                ==> result->Ok_0@.components.len() == file_system_root(self.file_system).len()
                + segments(location@).len(),
            result is Ok && is_plain_location(location@) ==> result->Ok_0@.components
                == file_system_root(self.file_system) + location_names(location@),
    {
        match path_to_filesystem(&self.file_system, location) {
            Ok(path) => Ok(path),
            Err(source) => Err(ArrowWriterError::Upload { location: location.to_owned(), source }),
        }
    }

    /// Starts writing an object to a file below the directory.
    ///
    /// # Errors
    ///
    /// Returns an error if the destination has no parent.
    pub fn write_local_object(
        &self,
        destination: &LocalPath,
        sync_directories: bool,
    ) -> (result: Result<LocalWrite, LocalError>)
        ensures
            match (result, destination@.parent()) {
                (Ok(write), Some(directory)) => write@ == LocalProgress::start(
                    self.root@,
                    directory,
                    self.fsync,
                    sync_directories,
                ),
                (Err(error), None) => error@ == no_parent(destination@.display),
                _ => false,
            },
    {
        LocalWrite::start(&self.root, destination, self.fsync, sync_directories)
    }
}

/// Where objects are written to: an object store that `S` stands for, or a local directory.
#[derive(Debug)]
pub enum WriteTarget<S> {
    /// An object store.
    ObjectStore(S),
    /// A local directory.
    Local(LocalWriteTarget),
}

/// The settings of a writer.
pub struct WriterSettings<S> {
    pub target: WriteTarget<S>,
    pub max_concurrent_uploads: nat,
    pub compression: Compression,
    pub template: Seq<char>,
}

/// Writes OTAP pdata payloads to standalone Arrow IPC objects.
pub struct ArrowWriter<S> {
    target: WriteTarget<S>,
    max_concurrent_uploads: usize,
    compression: Compression,
    object_path_template: ObjectPathTemplate,
}

impl<S> View for ArrowWriter<S> {
    type V = WriterSettings<S>;

    closed spec fn view(&self) -> WriterSettings<S> {
        WriterSettings {
            target: self.target,
            max_concurrent_uploads: self.max_concurrent_uploads as nat,
            compression: self.compression,
            template: self.object_path_template@,
        }
    }
}

impl<S> ArrowWriter<S> {
    /// At least one upload can be in flight.
    #[verifier::type_invariant]
    spec fn can_upload(self) -> bool {
        self.max_concurrent_uploads > 0
    }

    /// Creates a writer using bounded concurrent payload uploads.
    pub fn new(object_store: S) -> (writer: Self)
        ensures
            writer@ == (WriterSettings {
                target: WriteTarget::ObjectStore(object_store),
                max_concurrent_uploads: DEFAULT_MAX_CONCURRENT_UPLOADS as nat,
                compression: Compression::Zstd,
                template: DEFAULT_OBJECT_PATH_TEMPLATE@,
            }),
            writer@.max_concurrent_uploads == 8,
    {
        ArrowWriter {
            target: WriteTarget::ObjectStore(object_store),
            max_concurrent_uploads: DEFAULT_MAX_CONCURRENT_UPLOADS,
            compression: Compression::default(),
            object_path_template: ObjectPathTemplate::default(),
        }
    }

    /// Creates a writer for the configured local or cloud storage backend.
    ///
    /// Configured local storage uses atomic staged files and honors [`Config::fsync`]. Other
    /// storage backends use their object-store put operation.
    ///
    /// # Errors
    ///
    /// Returns an error if the configured storage backend could not be set up.
    pub fn from_config<C, R>(config: &Config<C, R>, setup: StorageSetup<S>) -> (result: Result<
        Self,
        ArrowWriterError,
    >)
        requires
            setup.answers(*config),
        ensures
            match setup {
                StorageSetup::RetryRejected { reason } => result == Err::<Self, ArrowWriterError>(
                    ArrowWriterError::ConfigureStorage { source: reason },
                ),
                StorageSetup::Rejected { reason } => result == Err::<Self, ArrowWriterError>(
                    ArrowWriterError::ConfigureStorage { source: reason },
                ),
                StorageSetup::Unresolved { error } => result matches Err(
                    ArrowWriterError::LocalUpload { path, source },
                ) && config.storage matches StorageType::File { base_uri } && path@ == base_uri@
                    && source == error,
                StorageSetup::Directory { file_system, root } => result matches Ok(writer)
                    && writer@ == (WriterSettings {
                    target: WriteTarget::<S>::Local(
                        LocalWriteTarget { file_system, root, fsync: config.fsync },
                    ),
                    max_concurrent_uploads: DEFAULT_MAX_CONCURRENT_UPLOADS as nat,
                    compression: config.compression,
                    template: config.object_path_template@,
                }),
                StorageSetup::Store(store) => result matches Ok(writer) && writer@ == (
                WriterSettings {
                    target: WriteTarget::ObjectStore(store),
                    max_concurrent_uploads: DEFAULT_MAX_CONCURRENT_UPLOADS as nat,
                    compression: config.compression,
                    template: config.object_path_template@,
                }),
            },
            result matches Ok(writer) ==> writer@.max_concurrent_uploads == 8,
            result is Ok <==> setup is Directory || setup is Store,
    {
        let target = match setup {
            StorageSetup::RetryRejected { reason } => {
                return Err(ArrowWriterError::ConfigureStorage { source: reason });
            },
            StorageSetup::Rejected { reason } => {
                return Err(ArrowWriterError::ConfigureStorage { source: reason });
            },
            StorageSetup::Unresolved { error } => match &config.storage {
                StorageType::File { base_uri } => {
                    return Err(
                        ArrowWriterError::LocalUpload { path: base_uri.clone(), source: error },
                    );
                },
                StorageType::Cloud(_) => {
                    return Err(ArrowWriterError::ConfigureStorage { source: error.message });
                },
            },
            StorageSetup::Directory { file_system, root } => WriteTarget::Local(
                LocalWriteTarget { file_system, root, fsync: config.fsync },
            ),
            StorageSetup::Store(store) => WriteTarget::ObjectStore(store),
        };
        Ok(
            ArrowWriter {
                target,
                max_concurrent_uploads: DEFAULT_MAX_CONCURRENT_UPLOADS,
                compression: config.compression,
                object_path_template: config.object_path_template.clone(),
            },
        )
    }

    /// Overrides the maximum number of payload uploads in flight per pdata batch.
    pub fn with_max_concurrent_uploads(self, max_concurrent_uploads: usize) -> (writer: Self)
        requires
            max_concurrent_uploads > 0,
        ensures
            writer@ == (WriterSettings {
                max_concurrent_uploads: max_concurrent_uploads as nat,
                ..self@
            }),
    {
        ArrowWriter {
            target: self.target,
            max_concurrent_uploads,
            compression: self.compression,
            object_path_template: self.object_path_template,
        }
    }

    /// Overrides the object path template.
    pub fn with_object_path_template(self, object_path_template: ObjectPathTemplate) -> (writer:
        Self)
        ensures
            writer@ == (WriterSettings { template: object_path_template@, ..self@ }),
    {
        proof {
            use_type_invariant(&self);
        }
        ArrowWriter {
            target: self.target,
            max_concurrent_uploads: self.max_concurrent_uploads,
            compression: self.compression,
            object_path_template,
        }
    }

    /// Overrides Arrow IPC record-batch buffer compression.
    pub fn with_compression(self, compression: Compression) -> (writer: Self)
        ensures
            writer@ == (WriterSettings { compression, ..self@ }),
    {
        proof {
            use_type_invariant(&self);
        }
        ArrowWriter {
            target: self.target,
            max_concurrent_uploads: self.max_concurrent_uploads,
            compression,
            object_path_template: self.object_path_template,
        }
    }

    /// Returns where objects are written to.
    pub fn target(&self) -> (target: &WriteTarget<S>)
        ensures
            *target == self@.target,
    {
        &self.target
    }

    /// Returns the maximum number of payload uploads in flight per pdata batch.
    pub fn max_concurrent_uploads(&self) -> (max_concurrent_uploads: usize)
        ensures
            max_concurrent_uploads == self@.max_concurrent_uploads,
            max_concurrent_uploads > 0,
    {
        proof {
            use_type_invariant(&*self);
        }
        self.max_concurrent_uploads
    }

    /// Calculates SHA-256 over a payload's standalone Arrow IPC encoding.
    ///
    /// The digest covers exactly the bytes that [`write_pdata`](Self::write_pdata) prepares for
    /// the payload.
    ///
    /// # Errors
    ///
    /// Returns an error if Arrow IPC encoding fails.
    pub fn calculate_payload_sha256(&self, batch: &PayloadBatch) -> (result: Result<
        [u8; 32],
        String,
    >)
        ensures
            match (result, encoded(*batch, self@.compression.codec())) {
                (Ok(digest), Ok(bytes)) => digest@ == sha256(bytes),
                (Err(message), Err(text)) => message@ == text,
                _ => false,
            },
    {
        match encode_payload(batch, self.compression) {
            Ok(bytes) => Ok(calculate_sha256(bytes.as_slice())),
            Err(message) => Err(message),
        }
    }

    /// Prepares the objects of one pdata batch for upload: one for every populated Arrow payload.
    ///
    /// With the default template each object key has this form:
    ///
    /// ```text
    /// otap/v1/signal=<signal>/payload=<payload>/date=<YYYY-MM-DD>/hour=<HH>/
    ///   <uuidv7>.arrow
    /// ```
    ///
    /// The date and hour are derived from the pdata UUIDv7 creation timestamp. They are intended
    /// for partition pruning, not as telemetry event timestamps.
    ///
    /// The write is complete when every object has been uploaded, for which
    /// [`start_upload`](Self::start_upload) says which upload is to start when.
    ///
    /// # Errors
    ///
    /// Returns an error if the pdata key is not UUIDv7 or a payload cannot be encoded.
    pub fn write_pdata(&self, idempotency_key: PdataId, records: &PdataRecords) -> (result: Result<
        Vec<(String, Vec<u8>)>,
        ArrowWriterError,
    >)
        ensures
            is_preparation(
                result,
                idempotency_key,
                *records,
                self@.template,
                self@.compression,
            ),
            result matches Ok(objects) ==> are_locations(object_views(objects@)),
    {
        prepare_objects(
            idempotency_key,
            records,
            &self.object_path_template,
            self.compression,
        )
    }

    /// Starts the uploads of prepared objects. As many may be in flight at a time as the writer is
    /// set to.
    pub fn start_upload(&self, objects: &Vec<(String, Vec<u8>)>) -> (upload: PdataUpload)
        requires
            total(object_sizes(object_views(objects@))) <= u64::MAX,
        ensures
            upload@ == UploadState::start(
                object_sizes(object_views(objects@)),
                self@.max_concurrent_uploads,
            ),
            upload.is_well_formed(),
    {
        proof {
            use_type_invariant(&*self);
        }
        PdataUpload::start(objects, self.max_concurrent_uploads)
    }
}

/// How many uploads may be in flight makes no difference to what is written: writers that differ
/// in that number only upload the same objects under the same names, and when every upload
/// succeeds they report the same statistics.
pub proof fn lemma_limit_makes_no_difference<S>(
    left: WriterSettings<S>,
    right: WriterSettings<S>,
    id: PdataId,
    records: PdataRecords,
    left_objects: Vec<(String, Vec<u8>)>,
    right_objects: Vec<(String, Vec<u8>)>,
    left_events: Seq<UploadEvent>,
    right_events: Seq<UploadEvent>,
    left_result: Result<WriteStats, ArrowWriterError>,
    right_result: Result<WriteStats, ArrowWriterError>,
)
    requires
        left.max_concurrent_uploads > 0,
        right.max_concurrent_uploads > 0,
        right == (WriterSettings {
            max_concurrent_uploads: right.max_concurrent_uploads,
            ..left
        }),
        is_preparation(Ok(left_objects), id, records, left.template, left.compression),
        is_preparation(Ok(right_objects), id, records, right.template, right.compression),
        is_complete_write(left_objects@, left.max_concurrent_uploads, left_events, left_result),
        is_complete_write(right_objects@, right.max_concurrent_uploads, right_events, right_result),
    ensures
        object_views(left_objects@) == object_views(right_objects@),
        left_result is Ok,
        right_result is Ok,
        left_result->Ok_0 == right_result->Ok_0,
{
    lemma_sizes_fit(left_objects@);
    lemma_sizes_fit(right_objects@);
    lemma_complete_write(
        object_sizes(object_views(left_objects@)),
        left.max_concurrent_uploads,
        left_events,
        left_result,
    );
    lemma_complete_write(
        object_sizes(object_views(right_objects@)),
        right.max_concurrent_uploads,
        right_events,
        right_result,
    );
}

/// The uploads of objects, of which some may be in flight at a time, have all succeeded, with this
/// result.
pub open spec fn is_complete_write(
    objects: Seq<(String, Vec<u8>)>,
    limit: nat,
    events: Seq<UploadEvent>,
    result: Result<WriteStats, ArrowWriterError>,
) -> bool {
    let start = UploadState::start(object_sizes(object_views(objects)), limit);
    &&& start.allows_all(events)
    &&& start.after_all(events).is_over()
    &&& !start.after_all(events).has_failed()
    &&& is_write_result(result, start.after_all(events).outcomes)
}

} // verus!
