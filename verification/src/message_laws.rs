//! What failures and settings are called.

use vstd::prelude::*;

use crate::config::{settings_error, Compression};
use crate::error::ArrowWriterError;
use crate::ipc::IpcCodec;
use crate::path_laws::{lemma_uuid_read, number_in_hex};
use crate::template::template_error;

verus! {

/// The message of a failure says what failed, what it is about, and ends with the message of what
/// went wrong underneath, if there is one.
pub proof fn lemma_failures_say_what_went_wrong(error: ArrowWriterError)
    ensures
        match error {
            ArrowWriterError::ConfigureStorage { source } => error.text()
                == "failed to configure Arrow IPC object storage: "@ + source@,
            ArrowWriterError::InvalidIdempotencyKey { idempotency_key } => exists|key: Seq<char>|
                {
                    &&& error.text() == "pdata idempotency key "@ + key
                        + " has no valid UUIDv7 timestamp"@
                    &&& key.len() == 36
                    &&& #[trigger] number_in_hex(key) == idempotency_key.value
                },
            ArrowWriterError::InvalidObjectPath { path, source } => error.text()
                == "object path template produced invalid path "@ + path@ + ": "@ + source@,
            ArrowWriterError::Encode { payload_type, source } => error.text()
                == "failed to encode pdata payload "@ + payload_type@.label + " as Arrow IPC: "@
                + source@,
            ArrowWriterError::Upload { location, source } => error.text()
                == "failed to upload Arrow IPC object "@ + location@ + ": "@ + source@,
            ArrowWriterError::LocalUpload { path, source } => error.text()
                == "failed to write local Arrow IPC object "@ + path@ + ": "@ + source.message@,
            ArrowWriterError::LocalUploadTask { location, source } => error.text()
                == "local Arrow IPC upload task failed for "@ + location@ + ": "@ + source@,
        },
{
    if let ArrowWriterError::InvalidIdempotencyKey { idempotency_key } = error {
        lemma_uuid_read(idempotency_key.value);
    }
}

/// The setting `none` stands for no codec, and `zstd` for Zstandard.
pub proof fn lemma_names_of_compressions(compression: Compression)
    ensures
        compression == Compression::Uncompressed ==> compression.setting() == "none"@
            && compression.codec() is None,
        compression == Compression::Zstd ==> compression.setting() == "zstd"@
            && compression.codec() == Some(IpcCodec::Zstd),
        "none"@ != "zstd"@,
{
    reveal_strlit("none");
    reveal_strlit("zstd");
    assert("none"@[0] != "zstd"@[0]);
}

/// Settings are accepted if and only if the compression is `none`, `zstd` or left out and the
/// template is accepted or left out. A compression with another name is refused with that name,
/// and a template that is not accepted with what is wrong with it.
pub proof fn lemma_which_settings_are_accepted(
    compression: Option<Seq<char>>,
    template: Option<Seq<char>>,
)
    ensures
        ({
            let known = compression matches Some(name) ==> name == "none"@ || name == "zstd"@;
            let fault = match template {
                Some(text) => template_error(text),
                None => None,
            };
            &&& known ==> settings_error(compression, template) == fault
            &&& !known ==> settings_error(compression, template) == Some(
                "unknown variant `"@ + compression->0 + "`, expected `none` or `zstd`"@,
            )
        }),
{
}

} // verus!
