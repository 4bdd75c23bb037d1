//! What the path of an object says when it is read back, character by character: plain text of the
//! template stands for itself, and in the place of each placeholder stands what it is a place for.
//!
//! The laws read a template from the left. A template is plain text, or plain text, a placeholder
//! and a template; so they say what every path is.

use vstd::arithmetic::power::pow;
use vstd::prelude::*;

use crate::calendar::{day_number, is_date, lemma_one_date, UtcTime};
use crate::naming::{lemma_default_location, lemma_pdata_time};
use crate::objects::{location_text, payload_fields, pdata_time};
use crate::payload::{is_identifier, signal_text, SignalType};
use crate::pdata_id::{hex_char, hex_digit, uuid_text, PdataId};
use crate::placeholder::{
    first_at, is_bracket_free, is_supported, joined, lemma_is_first_at, lemma_pattern,
    placeholder_named, tokens, Placeholder, Token,
};
use crate::rendering::lemma_names_differ;
use crate::template::DEFAULT_OBJECT_PATH_TEMPLATE;
use crate::text::lower;
use crate::text_laws::{
    all_figures, lemma_padded_integer, lemma_padded_number, lemma_small_letters, number_in,
};

verus! {

/// A text starts with one text and ends with another, which do not overlap.
pub open spec fn has_ends(text: Seq<char>, start: Seq<char>, end: Seq<char>) -> bool {
    &&& start.len() + end.len() <= text.len()
    &&& text.take(start.len() as int) == start
    &&& text.skip(text.len() - end.len()) == end
}

/// What stands in a text between its start and its end.
pub open spec fn between(text: Seq<char>, start: Seq<char>, end: Seq<char>) -> Seq<char> {
    text.subrange(start.len() as int, text.len() - end.len())
}

/// What is put together of three texts has the first and the last as its ends.
proof fn lemma_between(start: Seq<char>, middle: Seq<char>, end: Seq<char>)
    ensures
        has_ends(start + middle + end, start, end),
        between(start + middle + end, start, end) == middle,
{
    let text = start + middle + end;
    assert(text.take(start.len() as int) =~= start);
    assert(text.skip(text.len() - end.len()) =~= end);
    assert(between(text, start, end) =~= middle);
}

/// The first placeholder of a template is exchanged for its value.
proof fn lemma_first_filled(
    head: Seq<char>,
    placeholder: Placeholder,
    rest: Seq<char>,
    id: PdataId,
    signal: SignalType,
    name: Seq<char>,
    time: UtcTime,
)
    requires
        is_bracket_free(head),
    ensures
        ({
            let path = location_text(head + placeholder.pattern() + rest, id, signal, name, time);
            let tail = location_text(rest, id, signal, name, time);
            &&& has_ends(path, head, tail)
            &&& between(path, head, tail) == payload_fields(
                id,
                signal_text(signal),
                name,
                time,
            ).value(placeholder)
        }),
{
    let template = head + placeholder.pattern() + rest;
    let fields = payload_fields(id, signal_text(signal), name, time);
    lemma_pattern(placeholder);
    let inner = placeholder.name();
    assert forall|i: int| 0 <= i < head.len() implies template[i] != '[' by {
        assert(template[i] == head[i]);
    }
    assert(template[head.len() as int] == '[');
    lemma_is_first_at(template, '[', head.len() as int);
    let after_open = template.skip(head.len() as int + 1);
    assert(after_open =~= inner + seq![']'] + rest);
    assert forall|i: int| 0 <= i < inner.len() implies after_open[i] != ']' by {
        assert(after_open[i] == inner[i]);
    }
    assert(after_open[inner.len() as int] == ']');
    lemma_is_first_at(after_open, ']', inner.len() as int);
    assert(after_open.take(inner.len() as int) =~= inner);
    assert(is_supported(inner));
    lemma_names_differ(placeholder, placeholder_named(inner));
    assert(after_open.skip(inner.len() as int + 1) =~= rest);
    assert(template.take(head.len() as int) =~= head);
    let pieces = tokens(template);
    let after = tokens(rest);
    assert(pieces =~= seq![Token::Literal(head), Token::Slot(placeholder)] + after);
    assert(pieces.skip(1).skip(1) =~= after);
    assert(pieces.skip(1)[0] == Token::Slot(placeholder));
    let value = fields.value(placeholder);
    assert(joined(pieces.skip(1), fields) == value + joined(after, fields));
    assert(joined(pieces, fields) =~= head + value + joined(after, fields));
    lemma_between(head, value, joined(after, fields));
}

/// Text without brackets stands for itself.
pub proof fn lemma_plain_text_kept(
    text: Seq<char>,
    id: PdataId,
    signal: SignalType,
    name: Seq<char>,
    time: UtcTime,
)
    requires
        is_bracket_free(text),
    ensures
        location_text(text, id, signal, name, time) == text,
{
    lemma_is_first_at(text, '[', text.len() as int);
    assert(first_at(text, '[') == text.len());
    let pieces = tokens(text);
    let fields = payload_fields(id, signal_text(signal), name, time);
    assert(pieces =~= seq![Token::Literal(text)]);
    assert(pieces.skip(1) =~= Seq::<Token>::empty());
    assert(joined(pieces.skip(1), fields) =~= Seq::<char>::empty());
    assert(joined(pieces, fields) =~= text + Seq::<char>::empty());
    assert(text + Seq::<char>::empty() =~= text);
}

/// In the place of `[signal]` stands the kind of telemetry.
pub proof fn lemma_signal_in_path(
    head: Seq<char>,
    rest: Seq<char>,
    id: PdataId,
    signal: SignalType,
    name: Seq<char>,
    time: UtcTime,
)
    requires
        is_bracket_free(head),
    ensures
        ({
            let path = location_text(head + "[signal]"@ + rest, id, signal, name, time);
            let tail = location_text(rest, id, signal, name, time);
            let text = between(path, head, tail);
            &&& has_ends(path, head, tail)
            &&& signal == SignalType::Logs ==> text == "logs"@
            &&& signal == SignalType::Metrics ==> text == "metrics"@
            &&& signal == SignalType::Traces ==> text == "traces"@
        }),
{
    lemma_first_filled(head, Placeholder::Signal, rest, id, signal, name, time);
}

/// In the place of `[payload]` stands the name of the payload type in small letters: the same
/// characters, but for ASCII capitals, for which the letters thirty-two places behind them stand.
pub proof fn lemma_payload_in_path(
    head: Seq<char>,
    rest: Seq<char>,
    id: PdataId,
    signal: SignalType,
    name: Seq<char>,
    time: UtcTime,
)
    requires
        is_bracket_free(head),
    ensures
        ({
            let path = location_text(head + "[payload]"@ + rest, id, signal, name, time);
            let tail = location_text(rest, id, signal, name, time);
            let text = between(path, head, tail);
            &&& has_ends(path, head, tail)
            &&& text.len() == name.len()
            &&& forall|i: int|
                0 <= i < name.len() ==> if 'A' <= #[trigger] name[i] <= 'Z' {
                    text[i] as int == name[i] as int + 32
                } else {
                    text[i] == name[i]
                }
        }),
{
    lemma_first_filled(head, Placeholder::Payload, rest, id, signal, name, time);
    lemma_small_letters(name);
}

/// The number that a figure or a small letter stands for to the base 16.
pub open spec fn hex_value(c: char) -> int {
    if '0' <= c <= '9' {
        c as int - '0' as int
    } else {
        c as int - 'a' as int + 10
    }
}

/// The number that a text makes to the base 16, its hyphens left out.
pub open spec fn number_in_hex(text: Seq<char>) -> int
    decreases text.len(),
{
    if text.len() == 0 {
        0
    } else if text.last() == '-' {
        number_in_hex(text.drop_last())
    } else {
        16 * number_in_hex(text.drop_last()) + hex_value(text.last())
    }
}

/// How many of the first characters of a UUID as text are not hyphens.
spec fn figures_before(count: int) -> int {
    if count <= 8 {
        count
    } else if count <= 13 {
        count - 1
    } else if count <= 18 {
        count - 2
    } else if count <= 23 {
        count - 3
    } else {
        count - 4
    }
}

/// One more digit of a number to the base 16.
proof fn lemma_next_hex_digit(value: nat, index: int)
    requires
        0 <= index < 32,
    ensures
        value as int / pow(16, (31 - index) as nat) == 16 * (value as int / pow(
            16,
            (32 - index) as nat,
        )) + hex_digit(value, index),
        0 <= hex_digit(value, index) < 16,
{
    let base = pow(16, (31 - index) as nat);
    vstd::arithmetic::power::lemma_pow_positive(16, (31 - index) as nat);
    assert(pow(16, (32 - index) as nat) == base * 16) by {
        reveal(pow);
    }
    vstd::arithmetic::div_mod::lemma_div_denominator(value as int, base, 16);
    vstd::arithmetic::div_mod::lemma_fundamental_div_mod(value as int / base, 16);
    vstd::arithmetic::div_mod::lemma_div_pos_is_pos(value as int, base);
}

/// The first characters of a UUID as text make the first digits of its number.
proof fn lemma_start_of_uuid(value: u128, count: int)
    requires
        0 <= count <= 36,
    ensures
        number_in_hex(uuid_text(value).take(count)) == value as int / pow(
            16,
            (32 - figures_before(count)) as nat,
        ),
    decreases count,
{
    let text = uuid_text(value).take(count);
    if count == 0 {
        assert(pow(16, 32) == 0x1_0000_0000_0000_0000_0000_0000_0000_0000int) by {
            reveal_with_fuel(pow, 33);
        }
        vstd::arithmetic::div_mod::lemma_basic_div(value as int, pow(16, 32));
    } else {
        let at = count - 1;
        lemma_start_of_uuid(value, at);
        assert(text.drop_last() =~= uuid_text(value).take(at));
        assert(text.last() == uuid_text(value)[at]);
        if at == 8 || at == 13 || at == 18 || at == 23 {
            assert(figures_before(count) == figures_before(at));
        } else {
            let index = figures_before(at);
            lemma_next_hex_digit(value as nat, index);
            assert(text.last() == hex_char(hex_digit(value as nat, index)));
            assert(figures_before(count) == index + 1);
            assert(hex_value(text.last()) == hex_digit(value as nat, index));
            assert(text.last() != '-');
        }
    }
}

/// A UUID as text is thirty-two figures and small letters from `a` to `f` that make its number to
/// the base 16, in groups of eight, four, four, four and twelve with hyphens between them.
pub proof fn lemma_uuid_read(value: u128)
    ensures
        uuid_text(value).len() == 36,
        forall|i: int|
            0 <= i < 36 ==> if i == 8 || i == 13 || i == 18 || i == 23 {
                #[trigger] uuid_text(value)[i] == '-'
            } else {
                ('0' <= uuid_text(value)[i] <= '9') || ('a' <= uuid_text(value)[i] <= 'f')
            },
        number_in_hex(uuid_text(value)) == value,
{
    let text = uuid_text(value);
    assert forall|i: int| 0 <= i < 36 implies if i == 8 || i == 13 || i == 18 || i == 23 {
        #[trigger] text[i] == '-'
    } else {
        ('0' <= text[i] <= '9') || ('a' <= text[i] <= 'f')
    } by {
        if !(i == 8 || i == 13 || i == 18 || i == 23) {
            lemma_next_hex_digit(value as nat, figures_before(i));
            assert(text[i] == hex_char(hex_digit(value as nat, figures_before(i))));
        }
    }
    lemma_start_of_uuid(value, 36);
    assert(text.take(36) =~= text);
    vstd::arithmetic::power::lemma_pow0(16);
    assert(value as int / 1 == value);
}

/// In the place of `[pdata_id]` stands the key: thirty-six characters that make its number to the
/// base 16.
pub proof fn lemma_key_in_path(
    head: Seq<char>,
    rest: Seq<char>,
    id: PdataId,
    signal: SignalType,
    name: Seq<char>,
    time: UtcTime,
)
    requires
        is_bracket_free(head),
    ensures
        ({
            let path = location_text(head + "[pdata_id]"@ + rest, id, signal, name, time);
            let tail = location_text(rest, id, signal, name, time);
            let text = between(path, head, tail);
            &&& has_ends(path, head, tail)
            &&& text.len() == 36
            &&& text[8] == '-' && text[13] == '-' && text[18] == '-' && text[23] == '-'
            &&& number_in_hex(text) == id.value
        }),
{
    lemma_first_filled(head, Placeholder::PdataId, rest, id, signal, name, time);
    lemma_uuid_read(id.value);
}

/// The date of a point in time is the one that its whole days since the start of 1970 give.
proof fn lemma_date_of_time(time: UtcTime, year: int, month: int, day: int)
    requires
        time.is_consistent(),
        is_date(year, month, day),
        day_number(year, month, day) == time.seconds as int / 86_400,
    ensures
        time.year == year,
        time.month == month,
        time.day == day,
        1 <= month <= 12,
        1 <= day <= 31,
{
    lemma_one_date(
        time.year as int,
        time.month as int,
        time.day as int,
        year,
        month,
        day,
    );
}

/// In the place of `[date]` stands the UTC date of the point in time. From the year 0 to the year
/// 9999 that is four figures that make the year, a hyphen, two that make the month, a hyphen, and
/// two that make the day. After that the year has as many figures as it takes, behind a plus sign.
pub proof fn lemma_date_in_path(
    head: Seq<char>,
    rest: Seq<char>,
    id: PdataId,
    signal: SignalType,
    name: Seq<char>,
    time: UtcTime,
    year: int,
    month: int,
    day: int,
)
    requires
        is_bracket_free(head),
        time.is_consistent(),
        is_date(year, month, day),
        day_number(year, month, day) == time.seconds as int / 86_400,
        year >= 0,
    ensures
        ({
            let path = location_text(head + "[date]"@ + rest, id, signal, name, time);
            let tail = location_text(rest, id, signal, name, time);
            let text = between(path, head, tail);
            let count = text.len() as int;
            let figures = text.subrange(
                if year > 9999 {
                    1
                } else {
                    0
                },
                count - 6,
            );
            &&& has_ends(path, head, tail)
            &&& count >= 10
            &&& year <= 9999 ==> count == 10
            &&& year > 9999 ==> text[0] == '+'
            &&& all_figures(figures) && number_in(figures) == year
            &&& text[count - 6] == '-'
            &&& all_figures(text.subrange(count - 5, count - 3)) && number_in(
                text.subrange(count - 5, count - 3),
            ) == month
            &&& text[count - 3] == '-'
            &&& all_figures(text.skip(count - 2)) && number_in(text.skip(count - 2)) == day
        }),
{
    lemma_first_filled(head, Placeholder::Date, rest, id, signal, name, time);
    lemma_date_of_time(time, year, month, day);
    lemma_padded_number(year as nat, 4);
    lemma_padded_number(month as nat, 2);
    lemma_padded_number(day as nat, 2);
    let text = payload_fields(id, signal_text(signal), name, time).date;
    let count = text.len() as int;
    let figures = crate::text::zero_padded(year as nat, 4);
    assert(text.subrange(
        if year > 9999 {
            1
        } else {
            0
        },
        count - 6,
    ) =~= figures);
    assert(text.subrange(count - 5, count - 3) =~= crate::text::zero_padded(month as nat, 2));
    assert(text.skip(count - 2) =~= crate::text::zero_padded(day as nat, 2));
}

/// In the place of `[year]` stands the year of the UTC date: figures that make it, four of them up
/// to the year 9999.
pub proof fn lemma_year_in_path(
    head: Seq<char>,
    rest: Seq<char>,
    id: PdataId,
    signal: SignalType,
    name: Seq<char>,
    time: UtcTime,
    year: int,
    month: int,
    day: int,
)
    requires
        is_bracket_free(head),
        time.is_consistent(),
        is_date(year, month, day),
        day_number(year, month, day) == time.seconds as int / 86_400,
    ensures
        ({
            let path = location_text(head + "[year]"@ + rest, id, signal, name, time);
            let tail = location_text(rest, id, signal, name, time);
            let text = between(path, head, tail);
            &&& has_ends(path, head, tail)
            &&& text.len() >= 4
            &&& 0 <= year <= 9999 ==> text.len() == 4
            &&& year >= 0 ==> all_figures(text) && number_in(text) == year
            &&& year < 0 ==> text[0] == '-' && all_figures(text.skip(1)) && number_in(text.skip(1))
                == -year
        }),
{
    lemma_first_filled(head, Placeholder::Year, rest, id, signal, name, time);
    lemma_date_of_time(time, year, month, day);
    lemma_padded_integer(year, 4);
}

/// In the place of `[month]` stands the month of the UTC date: two figures that make a number from
/// 1 to 12.
pub proof fn lemma_month_in_path(
    head: Seq<char>,
    rest: Seq<char>,
    id: PdataId,
    signal: SignalType,
    name: Seq<char>,
    time: UtcTime,
    year: int,
    month: int,
    day: int,
)
    requires
        is_bracket_free(head),
        time.is_consistent(),
        is_date(year, month, day),
        day_number(year, month, day) == time.seconds as int / 86_400,
    ensures
        ({
            let path = location_text(head + "[month]"@ + rest, id, signal, name, time);
            let tail = location_text(rest, id, signal, name, time);
            let text = between(path, head, tail);
            &&& has_ends(path, head, tail)
            &&& text.len() == 2
            &&& all_figures(text)
            &&& number_in(text) == month
        }),
{
    lemma_first_filled(head, Placeholder::Month, rest, id, signal, name, time);
    lemma_date_of_time(time, year, month, day);
    lemma_padded_number(month as nat, 2);
}

/// In the place of `[day]` stands the day of the month of the UTC date: two figures that make it.
pub proof fn lemma_day_in_path(
    head: Seq<char>,
    rest: Seq<char>,
    id: PdataId,
    signal: SignalType,
    name: Seq<char>,
    time: UtcTime,
    year: int,
    month: int,
    day: int,
)
    requires
        is_bracket_free(head),
        time.is_consistent(),
        is_date(year, month, day),
        day_number(year, month, day) == time.seconds as int / 86_400,
    ensures
        ({
            let path = location_text(head + "[day]"@ + rest, id, signal, name, time);
            let tail = location_text(rest, id, signal, name, time);
            let text = between(path, head, tail);
            &&& has_ends(path, head, tail)
            &&& text.len() == 2
            &&& all_figures(text)
            &&& number_in(text) == day
        }),
{
    lemma_first_filled(head, Placeholder::Day, rest, id, signal, name, time);
    lemma_date_of_time(time, year, month, day);
    lemma_padded_number(day as nat, 2);
}

/// The hour of the day and the minute of the hour of a number of seconds.
proof fn lemma_hour_and_minute(seconds: int)
    ensures
        (seconds % 86_400) / 3_600 == (seconds / 3_600) % 24,
        0 <= (seconds % 86_400) / 3_600 <= 23,
        (seconds % 3_600) / 60 == (seconds / 60) % 60,
        0 <= (seconds % 3_600) / 60 <= 59,
{
}

/// The hour of the day, the minute of the hour and the day of a number of milliseconds.
proof fn lemma_whole_seconds(millis: int)
    ensures
        (millis / 1_000) / 3_600 == millis / 3_600_000,
        (millis / 1_000) / 60 == millis / 60_000,
        (millis / 1_000) / 86_400 == millis / 86_400_000,
{
}

/// In the place of `[hour]` stands the hour of the day in UTC: two figures that make a number from
/// 0 to 23, the whole hours since the start of the day.
pub proof fn lemma_hour_in_path(
    head: Seq<char>,
    rest: Seq<char>,
    id: PdataId,
    signal: SignalType,
    name: Seq<char>,
    time: UtcTime,
)
    requires
        is_bracket_free(head),
        time.is_consistent(),
    ensures
        ({
            let path = location_text(head + "[hour]"@ + rest, id, signal, name, time);
            let tail = location_text(rest, id, signal, name, time);
            let text = between(path, head, tail);
            &&& has_ends(path, head, tail)
            &&& text.len() == 2
            &&& all_figures(text)
            &&& 0 <= number_in(text) <= 23
            &&& number_in(text) == (time.seconds as int / 3_600) % 24
        }),
{
    lemma_hour_and_minute(time.seconds as int);
    lemma_padded_number(time.hour as nat, 2);
    lemma_first_filled(head, Placeholder::Hour, rest, id, signal, name, time);
}

/// In the place of `[minute]` stands the minute of the hour in UTC: two figures that make a number
/// from 0 to 59, the whole minutes since the start of the hour.
pub proof fn lemma_minute_in_path(
    head: Seq<char>,
    rest: Seq<char>,
    id: PdataId,
    signal: SignalType,
    name: Seq<char>,
    time: UtcTime,
)
    requires
        is_bracket_free(head),
        time.is_consistent(),
    ensures
        ({
            let path = location_text(head + "[minute]"@ + rest, id, signal, name, time);
            let tail = location_text(rest, id, signal, name, time);
            let text = between(path, head, tail);
            &&& has_ends(path, head, tail)
            &&& text.len() == 2
            &&& all_figures(text)
            &&& 0 <= number_in(text) <= 59
            &&& number_in(text) == (time.seconds as int / 60) % 60
        }),
{
    lemma_hour_and_minute(time.seconds as int);
    lemma_padded_number(time.minute as nat, 2);
    lemma_first_filled(head, Placeholder::Minute, rest, id, signal, name, time);
}

/// The creation time of a pdata batch is the milliseconds since the start of 1970 that the first
/// six bytes of its key make.
pub proof fn lemma_creation_time(id: PdataId)
    ensures
        ({
            let millis = id.value as int / 0x1_0000_0000_0000_0000_0000;
            let time = pdata_time(id);
            &&& time.is_consistent()
            &&& time.seconds == millis / 1_000
            &&& time.nanos == (millis % 1_000) * 1_000_000
        }),
{
    lemma_pdata_time(id);
}

/// The objects of a pdata batch stand under the hour and the minute that its key was made in:
/// where the template has `[hour]` or `[minute]`, the path has two figures that make the hour of
/// the day or the minute of the hour of the milliseconds in the key.
pub proof fn lemma_time_of_key_in_path(
    head: Seq<char>,
    rest: Seq<char>,
    id: PdataId,
    signal: SignalType,
    name: Seq<char>,
)
    requires
        is_bracket_free(head),
    ensures
        ({
            let millis = id.value as int / 0x1_0000_0000_0000_0000_0000;
            let tail = location_text(rest, id, signal, name, pdata_time(id));
            let hour_path = location_text(head + "[hour]"@ + rest, id, signal, name, pdata_time(id));
            let minute_path = location_text(
                head + "[minute]"@ + rest,
                id,
                signal,
                name,
                pdata_time(id),
            );
            let hour = between(hour_path, head, tail);
            let minute = between(minute_path, head, tail);
            &&& has_ends(hour_path, head, tail)
            &&& hour.len() == 2
            &&& all_figures(hour)
            &&& number_in(hour) == (millis / 3_600_000) % 24
            &&& has_ends(minute_path, head, tail)
            &&& minute.len() == 2
            &&& all_figures(minute)
            &&& number_in(minute) == (millis / 60_000) % 60
        }),
{
    let millis = id.value as int / 0x1_0000_0000_0000_0000_0000;
    lemma_creation_time(id);
    lemma_hour_in_path(head, rest, id, signal, name, pdata_time(id));
    lemma_minute_in_path(head, rest, id, signal, name, pdata_time(id));
    lemma_whole_seconds(millis);
}

/// Pdata batches that were created in different hours of the day, or in different minutes of an
/// hour, have different texts in the places of `[hour]` and `[minute]`.
pub proof fn lemma_other_hour_other_path(
    head: Seq<char>,
    left: PdataId,
    right: PdataId,
    signal: SignalType,
    name: Seq<char>,
)
    requires
        is_bracket_free(head),
    ensures
        ({
            let left_millis = left.value as int / 0x1_0000_0000_0000_0000_0000;
            let right_millis = right.value as int / 0x1_0000_0000_0000_0000_0000;
            &&& (left_millis / 3_600_000) % 24 != (right_millis / 3_600_000) % 24 ==> location_text(
                head + "[hour]"@,
                left,
                signal,
                name,
                pdata_time(left),
            ) != location_text(head + "[hour]"@, right, signal, name, pdata_time(right))
            &&& (left_millis / 60_000) % 60 != (right_millis / 60_000) % 60 ==> location_text(
                head + "[minute]"@,
                left,
                signal,
                name,
                pdata_time(left),
            ) != location_text(head + "[minute]"@, right, signal, name, pdata_time(right))
        }),
{
    let none = Seq::<char>::empty();
    lemma_time_of_key_in_path(head, none, left, signal, name);
    lemma_time_of_key_in_path(head, none, right, signal, name);
    lemma_plain_text_kept(none, left, signal, name, pdata_time(left));
    lemma_plain_text_kept(none, right, signal, name, pdata_time(right));
    assert(head + "[hour]"@ + none =~= head + "[hour]"@);
    assert(head + "[minute]"@ + none =~= head + "[minute]"@);
}

/// The objects of a pdata batch stand under the date that its key was made on: where the template
/// has `[date]`, the path has the year, the month and the day of the milliseconds in the key.
pub proof fn lemma_date_of_key_in_path(
    head: Seq<char>,
    rest: Seq<char>,
    id: PdataId,
    signal: SignalType,
    name: Seq<char>,
    year: int,
    month: int,
    day: int,
)
    requires
        is_bracket_free(head),
        is_date(year, month, day),
        day_number(year, month, day) == id.value as int / 0x1_0000_0000_0000_0000_0000 / 86_400_000,
        1970 <= year <= 9999,
    ensures
        ({
            let path = location_text(head + "[date]"@ + rest, id, signal, name, pdata_time(id));
            let tail = location_text(rest, id, signal, name, pdata_time(id));
            let text = between(path, head, tail);
            &&& has_ends(path, head, tail)
            &&& text.len() == 10
            &&& all_figures(text.take(4)) && number_in(text.take(4)) == year
            &&& text[4] == '-'
            &&& all_figures(text.subrange(5, 7)) && number_in(text.subrange(5, 7)) == month
            &&& text[7] == '-'
            &&& all_figures(text.skip(8)) && number_in(text.skip(8)) == day
        }),
{
    let millis = id.value as int / 0x1_0000_0000_0000_0000_0000;
    lemma_creation_time(id);
    lemma_whole_seconds(millis);
    lemma_date_in_path(head, rest, id, signal, name, pdata_time(id), year, month, day);
    let path = location_text(head + "[date]"@ + rest, id, signal, name, pdata_time(id));
    let text = between(path, head, location_text(rest, id, signal, name, pdata_time(id)));
    assert(text.subrange(0, 4) =~= text.take(4));
}

/// The pieces of a path that the default template makes, read back: the kind of telemetry, the
/// payload type in small letters, the date, the hour and the key.
pub struct PathParts {
    pub kind: Seq<char>,
    pub payload: Seq<char>,
    pub date: Seq<char>,
    pub hour: Seq<char>,
    pub key: Seq<char>,
}

/// With the default template the path of an object is the kind of telemetry, the payload type in
/// small letters, the date and the hour that the key was made on, and the key, each behind its
/// label.
pub proof fn lemma_default_path_says(
    id: PdataId,
    signal: SignalType,
    name: Seq<char>,
    year: int,
    month: int,
    day: int,
) -> (parts: PathParts)
    requires
        is_identifier(name),
        is_date(year, month, day),
        day_number(year, month, day) == id.value as int / 0x1_0000_0000_0000_0000_0000 / 86_400_000,
        1970 <= year <= 9999,
    ensures
        location_text(DEFAULT_OBJECT_PATH_TEMPLATE@, id, signal, name, pdata_time(id))
            == "otap/v1/signal="@ + parts.kind + "/payload="@ + parts.payload + "/date="@
            + parts.date + "/hour="@ + parts.hour + "/"@ + parts.key + ".arrow"@,
        parts.kind == match signal {
            SignalType::Logs => "logs"@,
            SignalType::Metrics => "metrics"@,
            SignalType::Traces => "traces"@,
        },
        parts.payload.len() == name.len(),
        forall|i: int|
            0 <= i < name.len() ==> if 'A' <= #[trigger] name[i] <= 'Z' {
                parts.payload[i] as int == name[i] as int + 32
            } else {
                parts.payload[i] == name[i]
            },
        parts.date.len() == 10,
        parts.date[4] == '-',
        parts.date[7] == '-',
        all_figures(parts.date.take(4)),
        number_in(parts.date.take(4)) == year,
        all_figures(parts.date.subrange(5, 7)),
        number_in(parts.date.subrange(5, 7)) == month,
        all_figures(parts.date.skip(8)),
        number_in(parts.date.skip(8)) == day,
        parts.hour.len() == 2,
        all_figures(parts.hour),
        number_in(parts.hour) == (id.value as int / 0x1_0000_0000_0000_0000_0000 / 3_600_000) % 24,
        parts.key.len() == 36,
        number_in_hex(parts.key) == id.value,
{
    let none = Seq::<char>::empty();
    let time = pdata_time(id);
    let fields = payload_fields(id, signal_text(signal), name, time);
    let parts = PathParts {
        kind: fields.value(Placeholder::Signal),
        payload: fields.value(Placeholder::Payload),
        date: fields.value(Placeholder::Date),
        hour: fields.value(Placeholder::Hour),
        key: fields.value(Placeholder::PdataId),
    };
    lemma_default_location(id, signal, name, time);
    assert(number_in(parts.hour) == (id.value as int / 0x1_0000_0000_0000_0000_0000 / 3_600_000)
        % 24 && all_figures(parts.hour) && parts.hour.len() == 2) by {
        lemma_time_of_key_in_path(none, none, id, signal, name);
        lemma_first_filled(none, Placeholder::Hour, none, id, signal, name, time);
    }
    assert({
        &&& parts.date.len() == 10
        &&& parts.date[4] == '-'
        &&& parts.date[7] == '-'
        &&& all_figures(parts.date.take(4)) && number_in(parts.date.take(4)) == year
        &&& all_figures(parts.date.subrange(5, 7)) && number_in(parts.date.subrange(5, 7)) == month
        &&& all_figures(parts.date.skip(8)) && number_in(parts.date.skip(8)) == day
    }) by {
        lemma_date_of_key_in_path(none, none, id, signal, name, year, month, day);
        lemma_first_filled(none, Placeholder::Date, none, id, signal, name, time);
    }
    assert(parts.key.len() == 36 && number_in_hex(parts.key) == id.value) by {
        lemma_uuid_read(id.value);
    }
    assert(parts.payload == lower(name));
    lemma_small_letters(name);
    parts
}

} // verus!
