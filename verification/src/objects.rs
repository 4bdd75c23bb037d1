//! Turns the payloads of a pdata batch into standalone Arrow IPC objects.
//!
//! Object names are deterministic from the pdata UUIDv7, signal, payload type, and configured
//! path template.

use vstd::prelude::*;

use crate::calendar::{
    date_text, format_utc, lemma_one_date, lemma_representable, utc_from_timestamp, UtcTime,
};
use crate::config::Compression;
use crate::error::ArrowWriterError;
use crate::ipc::{encode_payload, encoded, IpcCodec};
use crate::object_path::{is_location, parse_object_path};
use crate::payload::{
    is_identifier, lemma_identifier_value, lemma_signal_value, signal_name, signal_text,
    PayloadSlot, PayloadType, PayloadTypeNames, PdataRecords, SignalType,
};
use crate::pdata_id::{
    id_text, unix_timestamp, uuid_millis, uuid_text, uuid_version, version_num, PdataId,
};
use crate::placeholder::{joined, render, tokens, FieldTexts, FieldValues, Placeholder};
use crate::rendering::{are_values, is_value, is_value_char};
use crate::template::{lemma_accepted_template_renders, ObjectPathTemplate};
use crate::text::{
    decimal, lower, to_lower, to_zero_padded, to_zero_padded_int, zero_padded, zero_padded_int,
};

verus! {

/// The date and the time of day of a point in time.
pub open spec fn utc_time(seconds: int, nanos: int) -> UtcTime {
    choose|time: UtcTime|
        #[trigger] time.is_consistent() && time.seconds == seconds && time.nanos == nanos
}

/// The creation time that a UUID of version 7 holds.
pub open spec fn pdata_time(id: PdataId) -> UtcTime {
    utc_time(
        (uuid_millis(id.value) / 1000) as int,
        ((uuid_millis(id.value) % 1000) * 1_000_000) as int,
    )
}

/// Two times of the same point have the same date and time of day.
pub proof fn lemma_one_time(left: UtcTime, right: UtcTime)
    requires
        left.is_consistent(),
        right.is_consistent(),
        left.seconds == right.seconds,
        left.nanos == right.nanos,
    ensures
        left == right,
{
    lemma_one_date(
        left.year as int,
        left.month as int,
        left.day as int,
        right.year as int,
        right.month as int,
        right.day as int,
    );
}

/// Reads the creation time of a pdata batch from its idempotency key.
///
/// # Errors
///
/// Returns an error if the key is not a UUID of version 7. The time of a UUID of version 7 always
/// has a date.
pub fn pdata_timestamp(idempotency_key: PdataId) -> (result: Result<UtcTime, ArrowWriterError>)
    ensures
        match result {
            Ok(time) => {
                &&& uuid_version(idempotency_key.value) == 7
                &&& time == pdata_time(idempotency_key)
                &&& time.is_consistent()
                &&& time.seconds == uuid_millis(idempotency_key.value) / 1000
                &&& time.nanos == (uuid_millis(idempotency_key.value) % 1000) * 1_000_000
            },
            Err(error) => uuid_version(idempotency_key.value) != 7 && error
                == (ArrowWriterError::InvalidIdempotencyKey { idempotency_key }),
        },
{
    if version_num(idempotency_key) != 7 {
        return Err(ArrowWriterError::InvalidIdempotencyKey { idempotency_key });
    }
    proof {
        let millis = uuid_millis(idempotency_key.value) as int;
        assert(millis <= 281_474_976_710_655);
        lemma_representable(millis / 1000, (millis % 1000) * 1_000_000);
    }
    match unix_timestamp(idempotency_key) {
        Some((seconds, nanos)) => match utc_from_timestamp(seconds as i64, nanos) {
            Some(time) => {
                proof {
                    assert(time.is_consistent() && time.seconds == seconds && time.nanos == nanos);
                    lemma_one_time(time, utc_time(seconds as int, nanos as int));
                }
                Ok(time)
            },
            None => Err(ArrowWriterError::InvalidIdempotencyKey { idempotency_key }),
        },
        None => Err(ArrowWriterError::InvalidIdempotencyKey { idempotency_key }),
    }
}

/// The values that are filled into the template for a payload.
pub open spec fn payload_fields(
    id: PdataId,
    signal: Seq<char>,
    payload_name: Seq<char>,
    time: UtcTime,
) -> FieldTexts {
    FieldTexts {
        signal,
        payload: lower(payload_name),
        pdata_id: uuid_text(id.value),
        date: date_text(time.year as int, time.month as nat, time.day as nat),
        year: zero_padded_int(time.year as int, 4),
        month: zero_padded(time.month as nat, 2),
        day: zero_padded(time.day as nat, 2),
        hour: zero_padded(time.hour as nat, 2),
        minute: zero_padded(time.minute as nat, 2),
    }
}

/// The object path of a payload: the pieces of the template with the values filled in.
pub open spec fn location_text(
    template: Seq<char>,
    id: PdataId,
    signal: SignalType,
    payload_name: Seq<char>,
    time: UtcTime,
) -> Seq<char> {
    joined(tokens(template), payload_fields(id, signal_text(signal), payload_name, time))
}

/// The figures of a number may stand in a path.
proof fn lemma_decimal_value(n: nat)
    ensures
        is_value(decimal(n)),
    decreases n,
{
    if n >= 10 {
        lemma_decimal_value(n / 10);
    }
    let text = decimal(n);
    assert forall|i: int| 0 <= i < text.len() implies is_value_char(#[trigger] text[i]) by {
        if n >= 10 && i < text.len() - 1 {
            assert(text[i] == decimal(n / 10)[i]);
        }
    }
}

/// The figures of a number with leading zeros may stand in a path.
proof fn lemma_zero_padded_value(n: nat, width: nat)
    ensures
        is_value(zero_padded(n, width)),
{
    lemma_decimal_value(n);
    let digits = decimal(n);
    let text = zero_padded(n, width);
    assert forall|i: int| 0 <= i < text.len() implies is_value_char(#[trigger] text[i]) by {
        if digits.len() < width && i >= width - digits.len() {
            assert(text[i] == digits[i - (width - digits.len())]);
        }
    }
}

/// Values joined without anything between them, or with a sign before them, are a value.
proof fn lemma_joined_values(left: Seq<char>, right: Seq<char>)
    requires
        is_value(left),
        is_value(right),
    ensures
        is_value(left + right),
{
    let text = left + right;
    assert forall|i: int| 0 <= i < text.len() implies is_value_char(#[trigger] text[i]) by {
        if i < left.len() {
            assert(text[i] == left[i]);
        } else {
            assert(text[i] == right[i - left.len()]);
        }
    }
}

/// What is filled in for a payload may stand in a path.
pub proof fn lemma_payload_fields_are_values(
    id: PdataId,
    signal: SignalType,
    payload_name: Seq<char>,
    time: UtcTime,
)
    requires
        is_identifier(payload_name),
    ensures
        are_values(payload_fields(id, signal_text(signal), payload_name, time)),
{
    let fields = payload_fields(id, signal_text(signal), payload_name, time);
    lemma_signal_value(signal);
    lemma_identifier_value(payload_name);
    assert(is_value(fields.pdata_id)) by {
        assert forall|i: int| 0 <= i < fields.pdata_id.len() implies is_value_char(
            #[trigger] fields.pdata_id[i],
        ) by {}
    }
    let year = time.year as int;
    lemma_zero_padded_value(if year >= 0 { year as nat } else { (-year) as nat }, 4);
    lemma_zero_padded_value(if year >= 0 { year as nat } else { (-year) as nat }, 3);
    lemma_zero_padded_value(time.month as nat, 2);
    lemma_zero_padded_value(time.day as nat, 2);
    lemma_zero_padded_value(time.hour as nat, 2);
    lemma_zero_padded_value(time.minute as nat, 2);
    let minus = seq!['-'];
    let plus = seq!['+'];
    assert(is_value(minus));
    assert(is_value(plus));
    if year < 0 {
        lemma_joined_values(minus, zero_padded((-year) as nat, 3));
        lemma_joined_values(minus, zero_padded((-year) as nat, 4));
    } else {
        lemma_joined_values(plus, zero_padded(year as nat, 4));
    }
    let date_start = crate::calendar::date_year(year);
    lemma_joined_values(date_start, minus);
    lemma_joined_values(date_start + minus, zero_padded(time.month as nat, 2));
    lemma_joined_values(date_start + minus + zero_padded(time.month as nat, 2), minus);
    lemma_joined_values(
        date_start + minus + zero_padded(time.month as nat, 2) + minus,
        zero_padded(time.day as nat, 2),
    );
    assert forall|placeholder: Placeholder| is_value(#[trigger] fields.value(placeholder)) by {
        match placeholder {
            Placeholder::Signal => {},
            _ => {},
        }
    }
}

/// Returns the object path of a payload. A validated template makes a valid path of every
/// payload, so the path is always there.
///
/// # Errors
///
/// Returns an error if the rendered path is not an object path.
pub fn payload_location(
    object_path_template: &ObjectPathTemplate,
    idempotency_key: PdataId,
    signal: SignalType,
    payload_type: &PayloadType,
    timestamp: &UtcTime,
) -> (result: Result<String, ArrowWriterError>)
    requires
        timestamp.is_consistent(),
    ensures
        result is Ok,
        result matches Ok(location) ==> location@ == location_text(
            object_path_template@,
            idempotency_key,
            signal,
            payload_type@.stable,
            *timestamp,
        ) && is_location(location@) && ".arrow"@.is_suffix_of(location@)
            && !location@.contains('\\'),
{
    let template = object_path_template.as_str();
    let name = payload_type.as_str_name();
    let values = FieldValues {
        signal: signal_name(signal).to_owned(),
        payload: to_lower(name),
        pdata_id: id_text(idempotency_key),
        date: format_utc(timestamp, "%Y-%m-%d"),
        year: to_zero_padded_int(timestamp.year, 4),
        month: to_zero_padded(timestamp.month, 2),
        day: to_zero_padded(timestamp.day, 2),
        hour: to_zero_padded(timestamp.hour, 2),
        minute: to_zero_padded(timestamp.minute, 2),
    };
    let path = render(template, &values);
    proof {
        lemma_payload_fields_are_values(idempotency_key, signal, name@, *timestamp);
        lemma_accepted_template_renders(
            template@,
            payload_fields(idempotency_key, signal_text(signal), name@, *timestamp),
        );
    }
    match parse_object_path(path.as_str()) {
        Ok(location) => Ok(location),
        Err(source) => Err(ArrowWriterError::InvalidObjectPath { path, source }),
    }
}

/// The objects that the payloads of a pdata batch become, in order: for each slot that has rows,
/// the object path of the payload and the Arrow IPC file of the rows. If rows cannot be encoded,
/// the payload type of the first such rows and the message of the error.
pub open spec fn prepared(
    slots: Seq<PayloadSlot>,
    template: Seq<char>,
    id: PdataId,
    signal: SignalType,
    codec: Option<IpcCodec>,
) -> Result<Seq<(Seq<char>, Seq<u8>)>, (PayloadTypeNames, Seq<char>)>
    decreases slots.len(),
{
    if slots.len() == 0 {
        Ok(Seq::empty())
    } else {
        let slot = slots.last();
        match prepared(slots.drop_last(), template, id, signal, codec) {
            Err(failure) => Err(failure),
            Ok(objects) => match slot.batch {
                None => Ok(objects),
                Some(batch) => match encoded(batch, codec) {
                    Err(message) => Err((slot.payload_type@, message)),
                    Ok(bytes) => Ok(
                        objects.push(
                            (
                                location_text(
                                    template,
                                    id,
                                    signal,
                                    slot.payload_type@.stable,
                                    pdata_time(id),
                                ),
                                bytes,
                            ),
                        ),
                    ),
                },
            },
        }
    }
}

/// Objects with their locations and bytes as sequences.
pub open spec fn object_views(objects: Seq<(String, Vec<u8>)>) -> Seq<(Seq<char>, Seq<u8>)> {
    objects.map_values(|object: (String, Vec<u8>)| (object.0@, object.1@))
}

/// The sizes of objects.
pub open spec fn object_sizes(objects: Seq<(Seq<char>, Seq<u8>)>) -> Seq<nat> {
    objects.map_values(|object: (Seq<char>, Seq<u8>)| object.1.len())
}

/// The objects are named by object paths that end in `.arrow` and hold no backslash.
pub open spec fn are_locations(objects: Seq<(Seq<char>, Seq<u8>)>) -> bool {
    forall|i: int|
        0 <= i < objects.len() ==> is_location((#[trigger] objects[i]).0) && ".arrow"@.is_suffix_of(
            objects[i].0,
        ) && !objects[i].0.contains('\\')
}

/// What preparing a pdata batch results in: the objects, or an error. There are two errors: the
/// key is not of version 7, or rows cannot be encoded.
pub open spec fn is_preparation(
    result: Result<Vec<(String, Vec<u8>)>, ArrowWriterError>,
    id: PdataId,
    records: PdataRecords,
    template: Seq<char>,
    compression: Compression,
) -> bool {
    let outcome = prepared(records.payloads@, template, id, records.signal, compression.codec());
    match result {
        Ok(objects) => uuid_version(id.value) == 7 && outcome == Ok::<
            Seq<(Seq<char>, Seq<u8>)>,
            (PayloadTypeNames, Seq<char>),
        >(object_views(objects@)),
        Err(ArrowWriterError::InvalidIdempotencyKey { idempotency_key }) => uuid_version(id.value)
            != 7 && idempotency_key == id,
        Err(ArrowWriterError::Encode { payload_type, source }) => uuid_version(id.value) == 7
            && outcome == Err::<Seq<(Seq<char>, Seq<u8>)>, (PayloadTypeNames, Seq<char>)>(
            (payload_type@, source@),
        ),
        Err(_) => false,
    }
}

/// An error in some of the slots is the error of all of them.
proof fn lemma_prepared_error_kept(
    slots: Seq<PayloadSlot>,
    count: int,
    template: Seq<char>,
    id: PdataId,
    signal: SignalType,
    codec: Option<IpcCodec>,
)
    requires
        0 <= count <= slots.len(),
        prepared(slots.take(count), template, id, signal, codec) is Err,
    ensures
        prepared(slots, template, id, signal, codec) == prepared(
            slots.take(count),
            template,
            id,
            signal,
            codec,
        ),
    decreases slots.len(),
{
    if count == slots.len() {
        assert(slots.take(count) =~= slots);
    } else {
        assert(slots.drop_last().take(count) =~= slots.take(count));
        lemma_prepared_error_kept(slots.drop_last(), count, template, id, signal, codec);
    }
}

/// Encodes the payloads of a pdata batch and names the objects that they become.
///
/// # Errors
///
/// Returns an error if the pdata key is not UUIDv7 or a payload cannot be encoded.
pub fn prepare_objects(
    idempotency_key: PdataId,
    records: &PdataRecords,
    object_path_template: &ObjectPathTemplate,
    compression: Compression,
) -> (result: Result<Vec<(String, Vec<u8>)>, ArrowWriterError>)
    ensures
        is_preparation(
            result,
            idempotency_key,
            *records,
            object_path_template@,
            compression,
        ),
        result matches Ok(objects) ==> are_locations(object_views(objects@)),
{
    let ghost template = object_path_template@;
    let ghost codec = compression.codec();
    let ghost slots = records.payloads@;
    let mut objects: Vec<(String, Vec<u8>)> = Vec::new();
    let timestamp = match pdata_timestamp(idempotency_key) {
        Ok(timestamp) => timestamp,
        Err(error) => {
            return Err(error);
        },
    };
    let signal = records.signal;
    let mut i: usize = 0;
    assert(slots.take(0) =~= Seq::<PayloadSlot>::empty());
    assert(object_views(objects@) =~= Seq::<(Seq<char>, Seq<u8>)>::empty());
    while i < records.payloads.len()
        invariant
            template == object_path_template@,
            codec == compression.codec(),
            slots == records.payloads@,
            signal == records.signal,
            i <= records.payloads.len(),
            uuid_version(idempotency_key.value) == 7,
            timestamp.is_consistent(),
            timestamp == pdata_time(idempotency_key),
            are_locations(object_views(objects@)),
            prepared(slots.take(i as int), template, idempotency_key, signal, codec) == Ok::<
                Seq<(Seq<char>, Seq<u8>)>,
                (PayloadTypeNames, Seq<char>),
            >(object_views(objects@)),
        decreases records.payloads.len() - i,
    {
        let slot = &records.payloads[i];
        let ghost before = objects@;
        assert(slots.take(i + 1).drop_last() =~= slots.take(i as int));
        assert(slots.take(i + 1).last() == *slot);
        if let Some(batch) = &slot.batch {
            let encoded = match encode_payload(batch, compression) {
                Ok(encoded) => encoded,
                Err(source) => {
                    proof {
                        lemma_prepared_error_kept(
                            slots,
                            i + 1,
                            template,
                            idempotency_key,
                            signal,
                            codec,
                        );
                    }
                    return Err(
                        ArrowWriterError::Encode {
                            payload_type: slot.payload_type.clone(),
                            source,
                        },
                    );
                },
            };
            let location = match payload_location(
                object_path_template,
                idempotency_key,
                signal,
                &slot.payload_type,
                &timestamp,
            ) {
                Ok(location) => location,
                Err(error) => {
                    return Err(error);
                },
            };
            objects.push((location, encoded));
            assert(object_views(objects@) =~= object_views(before).push(
                (
                    objects@[before.len() as int].0@,
                    objects@[before.len() as int].1@,
                ),
            ));
        }
        i += 1;
    }
    assert(slots.take(i as int) =~= slots);
    Ok(objects)
}

} // verus!
