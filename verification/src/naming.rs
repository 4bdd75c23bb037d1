//! What holds of the objects that pdata batches become: which there are, and when their names
//! differ.

use vstd::prelude::*;

use crate::calendar::{lemma_representable, lemma_some_date, lemma_year_after_epoch, UtcTime};
use crate::config::Compression;
use crate::error::ArrowWriterError;
use crate::ipc::{encoded, sha256, IpcCodec};
use crate::objects::{
    is_preparation, lemma_payload_fields_are_values, location_text, object_views, payload_fields,
    pdata_time, prepared,
};
use crate::payload::{
    is_identifier, lemma_signal_names_differ, signal_text, PayloadSlot, PdataRecords, SignalType,
};
use crate::pdata_id::{lemma_uuid_text_injective, uuid_millis, PdataId};
use crate::placeholder::{tokens, FieldTexts, Placeholder, Token};
use crate::rendering::{
    are_values, is_value, is_value_char, lemma_joined_injective, lemma_rendered_at_once,
};
use crate::template::{
    default_path, default_pieces, lemma_accepted_template_renders, lemma_default_pieces,
    lemma_default_template, lemma_values_bracket_free, DEFAULT_OBJECT_PATH_TEMPLATE,
};
use crate::text::{decimal, lower, zero_padded_int};

verus! {

/// The number of slots that have rows.
pub open spec fn populated(slots: Seq<PayloadSlot>) -> nat
    decreases slots.len(),
{
    if slots.len() == 0 {
        0
    } else {
        populated(slots.drop_last()) + if slots.last().batch is Some {
            1nat
        } else {
            0nat
        }
    }
}

/// Slots further on have at least as many with rows before them.
proof fn lemma_populated_grows(slots: Seq<PayloadSlot>, from: int, to: int)
    requires
        0 <= from <= to <= slots.len(),
    ensures
        populated(slots.take(from)) <= populated(slots.take(to)),
        from < to && slots[from].batch is Some ==> populated(slots.take(from)) < populated(
            slots.take(to),
        ),
    decreases to - from,
{
    if from < to {
        assert(slots.take(to).drop_last() =~= slots.take(to - 1));
        assert(slots.take(to).last() == slots[to - 1]);
        lemma_populated_grows(slots, from, to - 1);
    }
}

/// Every populated payload becomes one object, and nothing else becomes one. The object of a
/// payload stands behind those of the payloads before it, is named by the template, and holds the
/// Arrow IPC file of the rows.
pub proof fn lemma_one_object_per_payload(
    slots: Seq<PayloadSlot>,
    template: Seq<char>,
    id: PdataId,
    signal: SignalType,
    codec: Option<IpcCodec>,
)
    ensures
        prepared(slots, template, id, signal, codec) matches Ok(objects) ==> {
            &&& objects.len() == populated(slots)
            &&& forall|k: int|
                0 <= k < slots.len() ==> ((#[trigger] slots[k]).batch matches Some(batch) ==> {
                    let object = objects[populated(slots.take(k)) as int];
                    &&& populated(slots.take(k)) < objects.len()
                    &&& object.0 == location_text(
                        template,
                        id,
                        signal,
                        slots[k].payload_type@.stable,
                        pdata_time(id),
                    )
                    &&& encoded(batch, codec) == Ok::<Seq<u8>, Seq<char>>(object.1)
                })
        },
        forall|j: int, k: int|
            0 <= j < k < slots.len() && (#[trigger] slots[j]).batch is Some ==> populated(
                slots.take(j),
            ) < populated(#[trigger] slots.take(k)),
    decreases slots.len(),
{
    assert forall|j: int, k: int|
        0 <= j < k < slots.len() && (#[trigger] slots[j]).batch is Some implies populated(
        slots.take(j),
    ) < populated(#[trigger] slots.take(k)) by {
        lemma_populated_grows(slots, j, k);
    }
    if slots.len() > 0 {
        let shorter = slots.drop_last();
        lemma_one_object_per_payload(shorter, template, id, signal, codec);
        if let Ok(objects) = prepared(slots, template, id, signal, codec) {
            let before = prepared(shorter, template, id, signal, codec)->Ok_0;
            assert forall|k: int| 0 <= k < slots.len() implies ((#[trigger] slots[k]).batch matches Some(
                batch,
            ) ==> {
                let object = objects[populated(slots.take(k)) as int];
                &&& populated(slots.take(k)) < objects.len()
                &&& object.0 == location_text(
                    template,
                    id,
                    signal,
                    slots[k].payload_type@.stable,
                    pdata_time(id),
                )
                &&& encoded(batch, codec) == Ok::<Seq<u8>, Seq<char>>(object.1)
            }) by {
                if k < shorter.len() {
                    assert(shorter[k] == slots[k]);
                    assert(shorter.take(k) =~= slots.take(k));
                } else {
                    assert(slots.take(k) =~= shorter);
                }
            }
        }
    }
}

/// The checksum that is calculated for a payload covers exactly the bytes that are uploaded for
/// it.
pub proof fn lemma_checksum_covers_object(
    slots: Seq<PayloadSlot>,
    template: Seq<char>,
    id: PdataId,
    signal: SignalType,
    codec: Option<IpcCodec>,
    k: int,
    digest: Seq<u8>,
)
    requires
        0 <= k < slots.len(),
        slots[k].batch is Some,
        prepared(slots, template, id, signal, codec) is Ok,
        encoded(slots[k].batch->0, codec) matches Ok(bytes) ==> digest == sha256(bytes),
    ensures
        digest == sha256(
            (prepared(slots, template, id, signal, codec)->Ok_0)[populated(slots.take(k)) as int].1,
        ),
{
    lemma_one_object_per_payload(slots, template, id, signal, codec);
    assert(slots[k].batch is Some);
}

/// Writing a pdata batch again, with the same key, settings and rows, prepares the same objects
/// under the same names, or fails in the same way.
pub proof fn lemma_retry_prepares_the_same(
    first: Result<Vec<(String, Vec<u8>)>, ArrowWriterError>,
    second: Result<Vec<(String, Vec<u8>)>, ArrowWriterError>,
    id: PdataId,
    records: PdataRecords,
    template: Seq<char>,
    compression: Compression,
)
    requires
        is_preparation(first, id, records, template, compression),
        is_preparation(second, id, records, template, compression),
    ensures
        match (first, second) {
            (Ok(objects), Ok(again)) => object_views(objects@) == object_views(again@),
            (Err(error), Err(again)) => error.text() == again.text(),
            _ => false,
        },
{
}

/// A template with a placeholder for the payload gives payloads with different names different
/// paths, within one pdata batch.
pub proof fn lemma_payload_locations_differ(
    template: Seq<char>,
    id: PdataId,
    signal: SignalType,
    left: Seq<char>,
    right: Seq<char>,
    time: UtcTime,
)
    requires
        tokens(template).contains(Token::Slot(Placeholder::Payload)),
        lower(left) != lower(right),
    ensures
        location_text(template, id, signal, left, time) != location_text(
            template,
            id,
            signal,
            right,
            time,
        ),
{
    let pieces = tokens(template);
    let left_fields = payload_fields(id, signal_text(signal), left, time);
    let right_fields = payload_fields(id, signal_text(signal), right, time);
    let i = choose|i: int| 0 <= i < pieces.len() && pieces[i] == Token::Slot(Placeholder::Payload);
    assert(pieces[i] == Token::Slot(Placeholder::Payload));
    assert(left_fields.value(Placeholder::Payload) != right_fields.value(Placeholder::Payload));
    if lower(left).len() <= lower(right).len() {
        assert forall|placeholder: Placeholder|
            left_fields.value(placeholder).len() <= (#[trigger] right_fields.value(
                placeholder,
            )).len() by {
            match placeholder {
                Placeholder::Payload => {},
                _ => {},
            }
        }
        lemma_joined_injective(pieces, left_fields, right_fields);
    } else {
        assert forall|placeholder: Placeholder|
            right_fields.value(placeholder).len() <= (#[trigger] left_fields.value(
                placeholder,
            )).len() by {
            match placeholder {
                Placeholder::Payload => {},
                _ => {},
            }
        }
        lemma_joined_injective(pieces, right_fields, left_fields);
    }
}

/// With a placeholder for the payload in the template, the objects of one pdata batch all have
/// different paths, so none of them overwrites another.
pub proof fn lemma_objects_do_not_collide(
    slots: Seq<PayloadSlot>,
    template: Seq<char>,
    id: PdataId,
    signal: SignalType,
    codec: Option<IpcCodec>,
)
    requires
        tokens(template).contains(Token::Slot(Placeholder::Payload)),
        forall|i: int, j: int|
            0 <= i < j < slots.len() ==> lower((#[trigger] slots[i]).payload_type@.stable) != lower(
                (#[trigger] slots[j]).payload_type@.stable,
            ),
    ensures
        prepared(slots, template, id, signal, codec) matches Ok(objects) ==> forall|i: int, j: int|
            0 <= i < j < objects.len() ==> (#[trigger] objects[i]).0 != (#[trigger] objects[j]).0,
    decreases slots.len(),
{
    if slots.len() > 0 {
        let shorter = slots.drop_last();
        assert forall|i: int, j: int| 0 <= i < j < shorter.len() implies lower(
            (#[trigger] shorter[i]).payload_type@.stable,
        ) != lower((#[trigger] shorter[j]).payload_type@.stable) by {
            assert(shorter[i] == slots[i] && shorter[j] == slots[j]);
        }
        lemma_objects_do_not_collide(shorter, template, id, signal, codec);
        if let Ok(objects) = prepared(slots, template, id, signal, codec) {
            let before = prepared(shorter, template, id, signal, codec)->Ok_0;
            let last = slots.last();
            if last.batch is Some {
                lemma_objects_come_from_slots(shorter, template, id, signal, codec);
                assert forall|i: int, j: int| 0 <= i < j < objects.len() implies (
                #[trigger] objects[i]).0 != (#[trigger] objects[j]).0 by {
                    assert(objects[i] == before[i]);
                    if j < before.len() {
                        assert(objects[j] == before[j]);
                    } else {
                        let k = choose|k: int|
                            0 <= k < shorter.len() && before[i].0 == location_text(
                                template,
                                id,
                                signal,
                                (#[trigger] shorter[k]).payload_type@.stable,
                                pdata_time(id),
                            );
                        assert(slots[k] == shorter[k]);
                        assert(slots[slots.len() - 1] == last);
                        lemma_payload_locations_differ(
                            template,
                            id,
                            signal,
                            shorter[k].payload_type@.stable,
                            last.payload_type@.stable,
                            pdata_time(id),
                        );
                    }
                }
            }
        }
    }
}

/// Every object is named after one of the payload types.
proof fn lemma_objects_come_from_slots(
    slots: Seq<PayloadSlot>,
    template: Seq<char>,
    id: PdataId,
    signal: SignalType,
    codec: Option<IpcCodec>,
)
    ensures
        prepared(slots, template, id, signal, codec) matches Ok(objects) ==> forall|i: int|
            0 <= i < objects.len() ==> exists|k: int|
                0 <= k < slots.len() && (#[trigger] objects[i]).0 == location_text(
                    template,
                    id,
                    signal,
                    (#[trigger] slots[k]).payload_type@.stable,
                    pdata_time(id),
                ),
    decreases slots.len(),
{
    if slots.len() > 0 {
        let shorter = slots.drop_last();
        lemma_objects_come_from_slots(shorter, template, id, signal, codec);
        if let Ok(objects) = prepared(slots, template, id, signal, codec) {
            let before = prepared(shorter, template, id, signal, codec)->Ok_0;
            assert forall|i: int| 0 <= i < objects.len() implies exists|k: int|
                0 <= k < slots.len() && (#[trigger] objects[i]).0 == location_text(
                    template,
                    id,
                    signal,
                    (#[trigger] slots[k]).payload_type@.stable,
                    pdata_time(id),
                ) by {
                if i < before.len() {
                    assert(objects[i] == before[i]);
                    let k = choose|k: int|
                        0 <= k < shorter.len() && before[i].0 == location_text(
                            template,
                            id,
                            signal,
                            (#[trigger] shorter[k]).payload_type@.stable,
                            pdata_time(id),
                        );
                    assert(slots[k] == shorter[k]);
                } else {
                    assert(slots[slots.len() - 1] == slots.last());
                }
            }
        }
    }
}

/// How many figures a number has.
proof fn lemma_decimal_len(n: nat)
    ensures
        n < 10 ==> decimal(n).len() == 1,
        10 <= n < 100 ==> decimal(n).len() == 2,
        100 <= n < 1000 ==> decimal(n).len() == 3,
        1000 <= n < 10000 ==> decimal(n).len() == 4,
        10000 <= n ==> decimal(n).len() >= 5,
{
    reveal_with_fuel(decimal, 6);
}

/// The lengths of the values that are filled in for a point in time whose year is not negative.
proof fn lemma_field_lengths(id: PdataId, signal: Seq<char>, name: Seq<char>, time: UtcTime)
    requires
        time.is_consistent(),
        time.year >= 0,
    ensures
        ({
            let fields = payload_fields(id, signal, name, time);
            &&& fields.pdata_id.len() == 36
            &&& fields.month.len() == 2
            &&& fields.day.len() == 2
            &&& fields.hour.len() == 2
            &&& fields.minute.len() == 2
            &&& time.year <= 9999 ==> fields.year.len() == 4 && fields.date.len() == 10
            &&& time.year > 9999 ==> fields.year.len() >= 5 && fields.date.len()
                == fields.year.len() + 7
        }),
{
    lemma_decimal_len(time.year as nat);
    lemma_decimal_len(time.month as nat);
    lemma_decimal_len(time.day as nat);
    lemma_decimal_len(time.hour as nat);
    lemma_decimal_len(time.minute as nat);
}

/// The creation time of a pdata batch is the point in time that its key starts with, and has a
/// date that is not before 1970.
pub proof fn lemma_pdata_time(id: PdataId)
    ensures
        pdata_time(id).is_consistent(),
        pdata_time(id).seconds == uuid_millis(id.value) / 1000,
        pdata_time(id).nanos == (uuid_millis(id.value) % 1000) * 1_000_000,
{
    let millis = uuid_millis(id.value) as int;
    let seconds = millis / 1000;
    let nanos = (millis % 1000) * 1_000_000;
    assert(millis <= 281_474_976_710_655);
    lemma_representable(seconds, nanos);
    let (year, month, day) = lemma_some_date((seconds / 86_400) as nat);
    let time = UtcTime {
        seconds: seconds as i64,
        nanos: nanos as u32,
        year: year as i32,
        month: month as u32,
        day: day as u32,
        hour: ((seconds % 86_400) / 3_600) as u32,
        minute: ((seconds % 3_600) / 60) as u32,
    };
    assert(time.is_consistent() && time.seconds == seconds && time.nanos == nanos);
}

/// From the year 0 to the end of the year 9999, the date is written with ten characters, and it is
/// the year with four, the month with two and the day with two, with hyphens between them.
pub proof fn lemma_date_is_year_month_day(
    id: PdataId,
    signal: SignalType,
    name: Seq<char>,
    time: UtcTime,
)
    requires
        time.is_consistent(),
        0 <= time.year <= 9999,
    ensures
        ({
            let fields = payload_fields(id, signal_text(signal), name, time);
            &&& fields.date == fields.year + seq!['-'] + fields.month + seq!['-'] + fields.day
            &&& fields.date.len() == 10
            &&& fields.year.len() == 4
            &&& fields.month.len() == 2
            &&& fields.day.len() == 2
            &&& fields.hour.len() == 2
            &&& fields.minute.len() == 2
        }),
{
    lemma_field_lengths(id, signal_text(signal), name, time);
}

/// A template with a placeholder for the pdata key gives a payload of different pdata batches
/// different paths.
pub proof fn lemma_pdata_locations_differ(
    template: Seq<char>,
    left: PdataId,
    right: PdataId,
    signal: SignalType,
    name: Seq<char>,
)
    requires
        tokens(template).contains(Token::Slot(Placeholder::PdataId)),
        left != right,
    ensures
        location_text(template, left, signal, name, pdata_time(left)) != location_text(
            template,
            right,
            signal,
            name,
            pdata_time(right),
        ),
{
    let left_year = payload_fields(left, signal_text(signal), name, pdata_time(left)).year;
    let right_year = payload_fields(right, signal_text(signal), name, pdata_time(right)).year;
    if left_year.len() <= right_year.len() {
        lemma_ordered_locations_differ(template, left, right, signal, name);
    } else {
        lemma_ordered_locations_differ(template, right, left, signal, name);
    }
}

/// Keys with a year that is not longer than the other one have different paths.
proof fn lemma_ordered_locations_differ(
    template: Seq<char>,
    left: PdataId,
    right: PdataId,
    signal: SignalType,
    name: Seq<char>,
)
    requires
        tokens(template).contains(Token::Slot(Placeholder::PdataId)),
        left != right,
        zero_padded_int(pdata_time(left).year as int, 4).len() <= zero_padded_int(
            pdata_time(right).year as int,
            4,
        ).len(),
    ensures
        location_text(template, left, signal, name, pdata_time(left)) != location_text(
            template,
            right,
            signal,
            name,
            pdata_time(right),
        ),
{
    let pieces = tokens(template);
    let left_fields = payload_fields(left, signal_text(signal), name, pdata_time(left));
    let right_fields = payload_fields(right, signal_text(signal), name, pdata_time(right));
    let i = choose|i: int| 0 <= i < pieces.len() && pieces[i] == Token::Slot(Placeholder::PdataId);
    assert(pieces[i] == Token::Slot(Placeholder::PdataId));
    lemma_uuid_text_injective(left.value, right.value);
    assert(left_fields.value(Placeholder::PdataId) != right_fields.value(Placeholder::PdataId));
    lemma_pdata_time(left);
    lemma_pdata_time(right);
    lemma_year_after_epoch(pdata_time(left));
    lemma_year_after_epoch(pdata_time(right));
    lemma_field_lengths(left, signal_text(signal), name, pdata_time(left));
    lemma_field_lengths(right, signal_text(signal), name, pdata_time(right));
    assert forall|placeholder: Placeholder|
        left_fields.value(placeholder).len() <= (#[trigger] right_fields.value(
            placeholder,
        )).len() by {
        match placeholder {
            Placeholder::Signal => {},
            _ => {},
        }
    }
    lemma_joined_injective(pieces, left_fields, right_fields);
}

/// Two texts that are equal up to their first slash and equal from it on: the parts are equal.
proof fn lemma_cut_at_slash(
    left: Seq<char>,
    left_rest: Seq<char>,
    right: Seq<char>,
    right_rest: Seq<char>,
)
    requires
        is_value(left),
        is_value(right),
        left_rest.len() > 0,
        left_rest[0] == '/',
        right_rest.len() > 0,
        right_rest[0] == '/',
        left + left_rest == right + right_rest,
    ensures
        left == right,
        left_rest == right_rest,
{
    let whole = left + left_rest;
    if left.len() < right.len() {
        assert(whole[left.len() as int] == left_rest[0]);
        assert(whole[left.len() as int] == right[left.len() as int]);
        assert(is_value_char(right[left.len() as int]));
    } else if right.len() < left.len() {
        assert(whole[right.len() as int] == right_rest[0]);
        assert(whole[right.len() as int] == left[right.len() as int]);
        assert(is_value_char(left[right.len() as int]));
    }
    assert(left =~= whole.take(left.len() as int));
    assert(right =~= whole.take(left.len() as int));
    assert(left_rest =~= whole.skip(left.len() as int));
    assert(right_rest =~= whole.skip(left.len() as int));
}

/// Texts with the same start are equal in what follows.
proof fn lemma_cut_start(start: Seq<char>, left: Seq<char>, right: Seq<char>)
    requires
        start + left == start + right,
    ensures
        left == right,
{
    assert(left =~= (start + left).skip(start.len() as int));
    assert(right =~= (start + right).skip(start.len() as int));
}

/// The path that the default template makes determines the values in it.
proof fn lemma_default_path_injective(left: FieldTexts, right: FieldTexts)
    requires
        are_values(left),
        are_values(right),
        default_path(left) == default_path(right),
    ensures
        left.signal == right.signal,
        left.payload == right.payload,
        left.date == right.date,
        left.hour == right.hour,
        left.pdata_id == right.pdata_id,
{
    reveal_strlit("/payload=");
    reveal_strlit("/date=");
    reveal_strlit("/hour=");
    reveal_strlit("/");
    let start = "otap/v1/signal="@;
    let id_rest = |fields: FieldTexts| "/"@ + fields.pdata_id + ".arrow"@;
    let hour_rest = |fields: FieldTexts| "/hour="@ + (fields.hour + id_rest(fields));
    let date_rest = |fields: FieldTexts| "/date="@ + (fields.date + hour_rest(fields));
    let payload_rest = |fields: FieldTexts| "/payload="@ + (fields.payload + date_rest(fields));
    assert forall|fields: FieldTexts| #[trigger]
        default_path(fields) == start + (fields.signal + payload_rest(fields)) by {
        assert(default_path(fields) =~= start + (fields.signal + payload_rest(fields)));
    }
    assert forall|placeholder: Placeholder|
        is_value(left.value(placeholder)) && is_value(#[trigger] right.value(placeholder)) by {
        assert(is_value(left.value(placeholder)));
    }
    assert(is_value(right.value(Placeholder::Signal)));
    assert(is_value(right.value(Placeholder::Payload)));
    assert(is_value(right.value(Placeholder::Date)));
    assert(is_value(right.value(Placeholder::Hour)));
    assert(default_path(left) == start + (left.signal + payload_rest(left)));
    assert(default_path(right) == start + (right.signal + payload_rest(right)));
    lemma_cut_start(start, left.signal + payload_rest(left), right.signal + payload_rest(right));
    lemma_cut_at_slash(left.signal, payload_rest(left), right.signal, payload_rest(right));
    lemma_cut_start("/payload="@, left.payload + date_rest(left), right.payload + date_rest(right));
    lemma_cut_at_slash(left.payload, date_rest(left), right.payload, date_rest(right));
    lemma_cut_start("/date="@, left.date + hour_rest(left), right.date + hour_rest(right));
    lemma_cut_at_slash(left.date, hour_rest(left), right.date, hour_rest(right));
    lemma_cut_start("/hour="@, left.hour + id_rest(left), right.hour + id_rest(right));
    lemma_cut_at_slash(left.hour, id_rest(left), right.hour, id_rest(right));
    assert(left.pdata_id =~= id_rest(left).subrange(1, id_rest(left).len() - ".arrow"@.len()));
    assert(right.pdata_id =~= id_rest(right).subrange(1, id_rest(right).len() - ".arrow"@.len()));
}

/// What the default template makes of values.
pub proof fn lemma_default_location(
    id: PdataId,
    signal: SignalType,
    name: Seq<char>,
    time: UtcTime,
)
    requires
        is_identifier(name),
    ensures
        location_text(DEFAULT_OBJECT_PATH_TEMPLATE@, id, signal, name, time) == default_path(
            payload_fields(id, signal_text(signal), name, time),
        ),
{
    let template = DEFAULT_OBJECT_PATH_TEMPLATE@;
    let fields = payload_fields(id, signal_text(signal), name, time);
    lemma_payload_fields_are_values(id, signal, name, time);
    lemma_values_bracket_free(fields);
    lemma_default_template();
    lemma_accepted_template_renders(template, fields);
    lemma_default_pieces(fields);
    lemma_rendered_at_once(default_pieces(), fields);
}

/// With the default template, only the same payload of the same pdata batch has the same path:
/// two writes with the same path have the same key, kind of telemetry and payload name, whatever
/// the times are that they are made for.
pub proof fn lemma_default_locations_differ(
    left: PdataId,
    left_signal: SignalType,
    left_name: Seq<char>,
    left_time: UtcTime,
    right: PdataId,
    right_signal: SignalType,
    right_name: Seq<char>,
    right_time: UtcTime,
)
    requires
        is_identifier(left_name),
        is_identifier(right_name),
        location_text(
            DEFAULT_OBJECT_PATH_TEMPLATE@,
            left,
            left_signal,
            left_name,
            left_time,
        ) == location_text(
            DEFAULT_OBJECT_PATH_TEMPLATE@,
            right,
            right_signal,
            right_name,
            right_time,
        ),
    ensures
        left == right,
        left_signal == right_signal,
        lower(left_name) == lower(right_name),
{
    lemma_default_location(left, left_signal, left_name, left_time);
    lemma_default_location(right, right_signal, right_name, right_time);
    lemma_payload_fields_are_values(left, left_signal, left_name, left_time);
    lemma_payload_fields_are_values(right, right_signal, right_name, right_time);
    lemma_default_path_injective(
        payload_fields(left, signal_text(left_signal), left_name, left_time),
        payload_fields(right, signal_text(right_signal), right_name, right_time),
    );
    lemma_uuid_text_injective(left.value, right.value);
    lemma_signal_names_differ(left_signal, right_signal);
}

} // verus!
