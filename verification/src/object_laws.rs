//! What preparing a pdata batch results in, said of its key and its payloads.

use vstd::prelude::*;

use crate::config::Compression;
use crate::error::ArrowWriterError;
use crate::ipc::{encoded, ipc_finished, ipc_open_error, ipc_write_error, IpcCodec, IpcContents};
use crate::naming::{lemma_one_object_per_payload, populated};
use crate::objects::{is_preparation, location_text, object_views, pdata_time, prepared};
use crate::payload::{PayloadBatch, PayloadSlot, PdataRecords, SignalType};
use crate::pdata_id::PdataId;

verus! {

/// A payload becomes an Arrow IPC file whose schema is its own, which holds its rows and nothing
/// else, and whose buffers are compressed as the setting says: with Zstandard, or not at all. If a
/// step of writing the file fails, the message is that of the first one that does.
pub proof fn lemma_file_holds_the_payload(batch: PayloadBatch, compression: Compression)
    ensures
        ({
            let codec = if compression == Compression::Zstd {
                Some(IpcCodec::Zstd)
            } else {
                None
            };
            let empty = IpcContents { schema_of: batch, codec, batches: Seq::empty() };
            let full = IpcContents { schema_of: batch, codec, batches: seq![batch] };
            let file = encoded(batch, compression.codec());
            &&& compression.codec() == codec
            &&& ipc_open_error(batch, codec) matches Some(message) ==> file == Err::<
                Seq<u8>,
                Seq<char>,
            >(message)
            &&& ipc_open_error(batch, codec) is None ==> {
                &&& ipc_write_error(empty, batch) matches Some(message) ==> file == Err::<
                    Seq<u8>,
                    Seq<char>,
                >(message)
                &&& ipc_write_error(empty, batch) is None ==> file == ipc_finished(full)
            }
        }),
{
}

/// A slot that has rows which can be encoded, or no rows.
pub open spec fn can_be_encoded(slot: PayloadSlot, codec: Option<IpcCodec>) -> bool {
    slot.batch matches Some(batch) ==> encoded(batch, codec) is Ok
}

/// A slot has rows that cannot be encoded, with this message.
pub open spec fn fails_with(slot: PayloadSlot, codec: Option<IpcCodec>, message: Seq<char>) -> bool {
    slot.batch matches Some(batch) && encoded(batch, codec) == Err::<Seq<u8>, Seq<char>>(message)
}

/// Preparing payloads fails only with the first one that cannot be encoded.
proof fn lemma_first_failure(
    slots: Seq<PayloadSlot>,
    template: Seq<char>,
    id: PdataId,
    signal: SignalType,
    codec: Option<IpcCodec>,
)
    ensures
        prepared(slots, template, id, signal, codec) is Ok <==> forall|k: int|
            0 <= k < slots.len() ==> can_be_encoded(#[trigger] slots[k], codec),
        prepared(slots, template, id, signal, codec) matches Err(failure) ==> exists|k: int|
            {
                &&& 0 <= k < slots.len()
                &&& fails_with(#[trigger] slots[k], codec, failure.1)
                &&& failure.0 == slots[k].payload_type@
                &&& forall|j: int| 0 <= j < k ==> can_be_encoded(#[trigger] slots[j], codec)
            },
    decreases slots.len(),
{
    if slots.len() > 0 {
        let shorter = slots.drop_last();
        let last = slots.len() - 1;
        lemma_first_failure(shorter, template, id, signal, codec);
        assert forall|k: int| 0 <= k < last implies shorter[k] == #[trigger] slots[k] by {}
        match prepared(shorter, template, id, signal, codec) {
            Err(failure) => {
                let k = choose|k: int|
                    {
                        &&& 0 <= k < shorter.len()
                        &&& fails_with(#[trigger] shorter[k], codec, failure.1)
                        &&& failure.0 == shorter[k].payload_type@
                        &&& forall|j: int|
                            0 <= j < k ==> can_be_encoded(#[trigger] shorter[j], codec)
                    };
                assert(fails_with(slots[k], codec, failure.1));
                assert forall|j: int| 0 <= j < k implies can_be_encoded(
                    #[trigger] slots[j],
                    codec,
                ) by {
                    assert(can_be_encoded(shorter[j], codec));
                }
                assert(!can_be_encoded(slots[k], codec));
            },
            Ok(_) => {
                assert forall|j: int| 0 <= j < last implies can_be_encoded(
                    #[trigger] slots[j],
                    codec,
                ) by {
                    assert(can_be_encoded(shorter[j], codec));
                }
                if let Err(failure) = prepared(slots, template, id, signal, codec) {
                    assert(fails_with(slots[last], codec, failure.1));
                    assert(!can_be_encoded(slots[last], codec));
                } else {
                    assert(can_be_encoded(slots[last], codec));
                }
            },
        }
    }
}

/// Preparing a pdata batch of any kind of telemetry succeeds if and only if the key is a UUID of
/// version 7 and the rows of every populated payload can be encoded. A key of another version is
/// refused as such, whatever the payloads are. Otherwise the failure is that of the first payload
/// that cannot be encoded, with its type and the message of its encoding. There is no other
/// failure.
pub proof fn lemma_when_preparation_succeeds(
    result: Result<Vec<(String, Vec<u8>)>, ArrowWriterError>,
    id: PdataId,
    records: PdataRecords,
    template: Seq<char>,
    compression: Compression,
)
    requires
        is_preparation(result, id, records, template, compression),
    ensures
        ({
            let version = (id.value as int / 0x1000_0000_0000_0000_0000) % 16;
            let codec = if compression == Compression::Zstd {
                Some(IpcCodec::Zstd)
            } else {
                None
            };
            let slots = records.payloads@;
            &&& result is Ok <==> version == 7 && forall|k: int|
                0 <= k < slots.len() ==> can_be_encoded(#[trigger] slots[k], codec)
            &&& version != 7 <==> result == Err::<Vec<(String, Vec<u8>)>, ArrowWriterError>(
                ArrowWriterError::InvalidIdempotencyKey { idempotency_key: id },
            )
            &&& result matches Err(error) ==> if version != 7 {
                error is InvalidIdempotencyKey
            } else {
                error is Encode
            }
            &&& result matches Err(ArrowWriterError::Encode { payload_type, source })
                ==> exists|k: int|
                {
                    &&& 0 <= k < slots.len()
                    &&& fails_with(#[trigger] slots[k], codec, source@)
                    &&& payload_type@ == slots[k].payload_type@
                    &&& forall|j: int| 0 <= j < k ==> can_be_encoded(#[trigger] slots[j], codec)
                }
        }),
{
    lemma_first_failure(
        records.payloads@,
        template,
        id,
        records.signal,
        compression.codec(),
    );
}

/// A pdata batch that is prepared has one object for each populated payload, in the order of the
/// payloads and nothing besides. Each is named by the template, the key, the kind of telemetry and
/// the payload type, and holds the Arrow IPC file of the rows.
pub proof fn lemma_which_objects_are_prepared(
    objects: Vec<(String, Vec<u8>)>,
    id: PdataId,
    records: PdataRecords,
    template: Seq<char>,
    compression: Compression,
)
    requires
        is_preparation(Ok(objects), id, records, template, compression),
    ensures
        ({
            let slots = records.payloads@;
            &&& objects@.len() == populated(slots)
            &&& forall|k: int|
                0 <= k < slots.len() ==> ((#[trigger] slots[k]).batch matches Some(batch) ==> {
                    let at = populated(slots.take(k)) as int;
                    &&& 0 <= at < objects@.len()
                    &&& objects@[at].0@ == location_text(
                        template,
                        id,
                        records.signal,
                        slots[k].payload_type@.stable,
                        pdata_time(id),
                    )
                    &&& encoded(batch, compression.codec()) == Ok::<Seq<u8>, Seq<char>>(
                        objects@[at].1@,
                    )
                })
        }),
{
    let slots = records.payloads@;
    lemma_one_object_per_payload(slots, template, id, records.signal, compression.codec());
    let views = object_views(objects@);
    assert forall|k: int| 0 <= k < slots.len() implies ((#[trigger] slots[k]).batch matches Some(
        batch,
    ) ==> {
        let at = populated(slots.take(k)) as int;
        &&& 0 <= at < objects@.len()
        &&& objects@[at].0@ == location_text(
            template,
            id,
            records.signal,
            slots[k].payload_type@.stable,
            pdata_time(id),
        )
        &&& encoded(batch, compression.codec()) == Ok::<Seq<u8>, Seq<char>>(objects@[at].1@)
    }) by {
        if slots[k].batch is Some {
            let at = populated(slots.take(k)) as int;
            assert(views[at] == (objects@[at].0@, objects@[at].1@));
        }
    }
}

/// How many payloads are populated: none of none, and one more for each that has rows.
pub proof fn lemma_populated_payloads(slots: Seq<PayloadSlot>, slot: PayloadSlot)
    ensures
        populated(Seq::<PayloadSlot>::empty()) == 0,
        slot.batch is Some ==> populated(slots.push(slot)) == populated(slots) + 1,
        slot.batch is None ==> populated(slots.push(slot)) == populated(slots),
{
    assert(slots.push(slot).drop_last() =~= slots);
}

} // verus!
