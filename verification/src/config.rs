//! Configuration for the Arrow IPC object-store exporter.

use vstd::prelude::*;
use vstd::string::*;

use crate::ipc::IpcCodec;
use crate::template::{template_error, ObjectPathTemplate, DEFAULT_OBJECT_PATH_TEMPLATE};
use crate::text::same_text;

verus! {

/// Compression applied to Arrow IPC record-batch buffers.
#[derive(Clone, Copy, Debug, PartialEq, Eq, Structural)]
pub enum Compression {
    /// Write uncompressed Arrow IPC buffers.
    Uncompressed,
    /// Compress Arrow IPC buffers with Zstandard.
    Zstd,
}

impl Compression {
    /// The codec that is handed to the Arrow IPC writer.
    pub open spec fn codec(self) -> Option<IpcCodec> {
        match self {
            Compression::Uncompressed => None,
            Compression::Zstd => Some(IpcCodec::Zstd),
        }
    }

    /// The name of the setting.
    pub open spec fn setting(self) -> Seq<char> {
        match self {
            Compression::Uncompressed => "none"@,
            Compression::Zstd => "zstd"@,
        }
    }

    /// Returns the codec that is handed to the Arrow IPC writer.
    pub fn ipc_type(self) -> (codec: Option<IpcCodec>)
        ensures
            codec == self.codec(),
    {
        match self {
            Compression::Uncompressed => None,
            Compression::Zstd => Some(IpcCodec::Zstd),
        }
    }

    /// Returns the compression that a setting names: `none` or `zstd`.
    pub fn from_setting(setting: &str) -> (named: Option<Compression>)
        ensures
            match named {
                Some(compression) => compression.setting() == setting@,
                None => forall|compression: Compression|
                    #[trigger] compression.setting() != setting@,
            },
    {
        if same_text(setting, "none") {
            Some(Compression::Uncompressed)
        } else if same_text(setting, "zstd") {
            Some(Compression::Zstd)
        } else {
            None
        }
    }
}

impl Default for Compression {
    fn default() -> (compression: Self)
        ensures
            compression == Compression::Zstd,
    {
        Compression::Zstd
    }
}

/// Destination of the objects: a local directory, or a cloud service that `C` describes.
#[derive(Clone, Debug, PartialEq, Eq)]
pub enum StorageType<C> {
    /// A directory of the local file system.
    File {
        /// The directory.
        base_uri: String,
    },
    /// A cloud service.
    Cloud(C),
}

/// Configuration for the Arrow object-store exporter. `C` describes a cloud service, and `R`
/// describes how requests to it are repeated.
#[derive(Clone, Debug, PartialEq, Eq)]
pub struct Config<C, R> {
    /// Destination for standalone Arrow IPC pdata payload objects.
    pub storage: StorageType<C>,
    /// Optional retry settings for cloud-backed object storage.
    pub retry: Option<R>,
    /// Whether local files and supported directory entries are synced before success.
    ///
    /// This setting only applies when the storage is a local directory.
    pub fsync: bool,
    /// Compression applied to Arrow IPC record-batch buffers.
    pub compression: Compression,
    /// Template used to construct each Arrow IPC object path.
    pub object_path_template: ObjectPathTemplate,
}

/// Whether local files are synced before a write is reported as done, unless the configuration
/// says otherwise.
pub fn default_fsync() -> (fsync: bool)
    ensures
        fsync,
{
    true
}

/// Why the settings are rejected, if they are: the compression has no such name, or the object
/// path template is not accepted.
pub open spec fn settings_error(compression: Option<Seq<char>>, template: Option<Seq<char>>) -> Option<
    Seq<char>,
> {
    let template_fault = match template {
        Some(text) => template_error(text),
        None => None,
    };
    match compression {
        Some(name) => if name == "none"@ || name == "zstd"@ {
            template_fault
        } else {
            Some("unknown variant `"@ + name + "`, expected `none` or `zstd`"@)
        },
        None => template_fault,
    }
}

/// The characters of a setting, if it is there.
pub open spec fn setting_text(setting: Option<&str>) -> Option<Seq<char>> {
    match setting {
        Some(text) => Some(text@),
        None => None,
    }
}

impl<C, R> Config<C, R> {
    /// Creates a configuration from the settings that an operator has made. Settings that are not
    /// made have their defaults: files are synced, buffers are compressed with Zstandard, and
    /// objects are named by the default template.
    ///
    /// # Errors
    ///
    /// Returns an error if the compression is unknown or the template is not accepted.
    pub fn from_settings(
        storage: StorageType<C>,
        retry: Option<R>,
        fsync: Option<bool>,
        compression: Option<&str>,
        object_path_template: Option<&str>,
    ) -> (created: Result<Self, String>)
        ensures
            match created {
                Ok(config) => {
                    &&& settings_error(
                        setting_text(compression),
                        setting_text(object_path_template),
                    ) is None
                    &&& config.storage == storage
                    &&& config.retry == retry
                    &&& config.fsync == (fsync != Some(false))
                    &&& match compression {
                        Some(name) => config.compression.setting() == name@,
                        None => config.compression == Compression::Zstd,
                    }
                    &&& match object_path_template {
                        Some(template) => config.object_path_template@ == template@,
                        None => config.object_path_template@ == DEFAULT_OBJECT_PATH_TEMPLATE@,
                    }
                },
                Err(message) => settings_error(
                    setting_text(compression),
                    setting_text(object_path_template),
                ) == Some(message@),
            },
    {
        let compression = match compression {
            Some(name) => match Compression::from_setting(name) {
                Some(compression) => compression,
                None => {
                    proof {
                        assert(Compression::Uncompressed.setting() != name@);
                        assert(Compression::Zstd.setting() != name@);
                    }
                    let mut message = "unknown variant `".to_owned();
                    message.append(name);
                    message.append("`, expected `none` or `zstd`");
                    return Err(message);
                },
            },
            None => Compression::default(),
        };
        let object_path_template = match object_path_template {
            Some(template) => match ObjectPathTemplate::parse(template) {
                Ok(parsed) => parsed,
                Err(message) => {
                    return Err(message);
                },
            },
            None => ObjectPathTemplate::default(),
        };
        let fsync = match fsync {
            Some(fsync) => fsync,
            None => default_fsync(),
        };
        Ok(Config { storage, retry, fsync, compression, object_path_template })
    }
}

} // verus!
