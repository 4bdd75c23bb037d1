//! Encoding of payloads as Arrow IPC files, and the checksum of such files.

use arrow_ipc::writer::{FileWriter, IpcWriteOptions};
use sha2::{Digest, Sha256};
use vstd::prelude::*;

use crate::config::Compression;
use crate::payload::PayloadBatch;

verus! {

/// A codec for the buffers of an Arrow IPC file.
#[derive(Clone, Copy, Debug, PartialEq, Eq, Structural)]
pub enum IpcCodec {
    /// Zstandard.
    Zstd,
}

/// What an Arrow IPC file is made of.
pub struct IpcContents {
    /// The rows whose schema the file starts with.
    pub schema_of: PayloadBatch,
    /// The codec of the buffers, if they are compressed.
    pub codec: Option<IpcCodec>,
    /// The batches that have been written.
    pub batches: Seq<PayloadBatch>,
}

/// `arrow_ipc::writer::FileWriter`: an Arrow IPC file that is being written to memory.
#[verifier::external_type_specification]
#[verifier::external_body]
#[verifier::reject_recursive_types(W)]
pub struct ExFileWriter<W>(FileWriter<W>);

/// What has been written to an Arrow IPC file.
pub uninterp spec fn ipc_contents(writer: FileWriter<Vec<u8>>) -> IpcContents;

/// The message of the error that opening an Arrow IPC file for rows of some schema returns, if it
/// returns one.
pub uninterp spec fn ipc_open_error(schema_of: PayloadBatch, codec: Option<IpcCodec>) -> Option<Seq<char>>;

/// The message of the error that writing a batch to an Arrow IPC file returns, if it returns one.
pub uninterp spec fn ipc_write_error(contents: IpcContents, batch: PayloadBatch) -> Option<Seq<char>>;

/// The bytes of a finished Arrow IPC file, or the message of the error that finishing it returns.
pub uninterp spec fn ipc_finished(contents: IpcContents) -> Result<Seq<u8>, Seq<char>>;

/// The SHA-256 digest of bytes.
pub uninterp spec fn sha256(bytes: Seq<u8>) -> Seq<u8>;

/// `arrow_ipc::writer::FileWriter::try_new_with_options`, for the schema of a batch and the
/// default `arrow_ipc::writer::IpcWriteOptions` with a codec, which
/// `arrow_ipc::writer::IpcWriteOptions::try_with_compression` always takes: opens a file in
/// memory that holds no batches yet. Whether it fails depends on the schema and the codec alone.
#[verifier::external_body]
fn open_ipc_file(schema_of: &PayloadBatch, codec: Option<IpcCodec>) -> (opened: Result<
    FileWriter<Vec<u8>>,
    String,
>)
    ensures
        opened is Ok <==> ipc_open_error(*schema_of, codec) is None,
        opened matches Ok(writer) ==> ipc_contents(writer) == (IpcContents {
            schema_of: *schema_of,
            codec,
            batches: Seq::empty(),
        }),
        opened matches Err(message) ==> ipc_open_error(*schema_of, codec) == Some(message@),
{
    let codec = codec.map(|codec| match codec { IpcCodec::Zstd => arrow_ipc::CompressionType::ZSTD });
    let schema = schema_of.batch.schema();
    IpcWriteOptions::default()
        .try_with_compression(codec)
        .and_then(|options| FileWriter::try_new_with_options(Vec::new(), &schema, options))
        .map_err(|error| error.to_string())
}

/// `arrow_ipc::writer::FileWriter::write`: adds a batch to the end of the file. Whether it fails
/// depends on the batch and on what has been written before; what a file holds after a failure
/// is left open.
#[verifier::external_body]
fn write_batch(writer: &mut FileWriter<Vec<u8>>, batch: &PayloadBatch) -> (written: Result<(), String>)
    ensures
        written is Ok <==> ipc_write_error(ipc_contents(*old(writer)), *batch) is None,
        written is Ok ==> ipc_contents(*final(writer)) == (IpcContents {
            batches: ipc_contents(*old(writer)).batches.push(*batch),
            ..ipc_contents(*old(writer))
        }),
        written matches Err(message) ==> ipc_write_error(ipc_contents(*old(writer)), *batch)
            == Some(message@),
{
    writer.write(&batch.batch).map_err(|error| error.to_string())
}

/// `arrow_ipc::writer::FileWriter::finish` and `arrow_ipc::writer::FileWriter::into_inner`:
/// completes the file and hands out its bytes, which depend on what has been written alone.
#[verifier::external_body]
fn finish_ipc_file(writer: FileWriter<Vec<u8>>) -> (finished: Result<Vec<u8>, String>)
    ensures
        match finished {
            Ok(bytes) => ipc_finished(ipc_contents(writer)) == Ok::<Seq<u8>, Seq<char>>(bytes@),
            Err(message) => ipc_finished(ipc_contents(writer)) == Err::<Seq<u8>, Seq<char>>(
                message@,
            ),
        },
{
    let mut writer = writer;
    writer.finish().and_then(|_| writer.into_inner()).map_err(|error| error.to_string())
}

/// `sha2::Sha256::digest`: the digest of the bytes, which depends on the bytes alone.
#[verifier::external_body]
pub(crate) fn calculate_sha256(bytes: &[u8]) -> (digest: [u8; 32])
    ensures
        digest@ == sha256(bytes@),
{
    Sha256::digest(bytes).into()
}

/// The Arrow IPC file that holds one batch and nothing else, or the message of the first error.
pub open spec fn encoded(batch: PayloadBatch, codec: Option<IpcCodec>) -> Result<Seq<u8>, Seq<char>> {
    let empty = IpcContents { schema_of: batch, codec, batches: Seq::empty() };
    let full = IpcContents { schema_of: batch, codec, batches: seq![batch] };
    if let Some(message) = ipc_open_error(batch, codec) {
        Err(message)
    } else if let Some(message) = ipc_write_error(empty, batch) {
        Err(message)
    } else {
        ipc_finished(full)
    }
}

/// Encodes a payload as a standalone Arrow IPC file.
pub fn encode_payload(batch: &PayloadBatch, compression: Compression) -> (result: Result<
    Vec<u8>,
    String,
>)
    ensures
        match result {
            Ok(bytes) => encoded(*batch, compression.codec()) == Ok::<Seq<u8>, Seq<char>>(bytes@),
            Err(message) => encoded(*batch, compression.codec()) == Err::<Seq<u8>, Seq<char>>(
                message@,
            ),
        },
{
    let mut writer = match open_ipc_file(batch, compression.ipc_type()) {
        Ok(writer) => writer,
        Err(message) => {
            return Err(message);
        },
    };
    match write_batch(&mut writer, batch) {
        Ok(_) => {},
        Err(message) => {
            return Err(message);
        },
    }
    assert(ipc_contents(writer).batches =~= seq![*batch]);
    finish_ipc_file(writer)
}

} // verus!
