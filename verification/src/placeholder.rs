//! Placeholders of object path templates: how they are found in a template, and what a template
//! becomes when they are exchanged for values.

use vstd::prelude::*;
use vstd::string::*;

use crate::text::{append_chars, chars_of, find_from, replace, replaced, same_text};

verus! {

/// A part of an object path that is filled in for each payload.
#[derive(Clone, Copy, Debug, PartialEq, Eq, Structural)]
pub enum Placeholder {
    /// The kind of telemetry that the pdata holds.
    Signal,
    /// The payload type.
    Payload,
    /// The identity of the pdata.
    PdataId,
    /// The UTC date.
    Date,
    /// The UTC year.
    Year,
    /// The UTC month.
    Month,
    /// The UTC day of the month.
    Day,
    /// The UTC hour.
    Hour,
    /// The UTC minute.
    Minute,
}

impl Placeholder {
    /// The name that stands between the brackets.
    pub open spec fn name(self) -> Seq<char> {
        match self {
            Placeholder::Signal => "signal"@,
            Placeholder::Payload => "payload"@,
            Placeholder::PdataId => "pdata_id"@,
            Placeholder::Date => "date"@,
            Placeholder::Year => "year"@,
            Placeholder::Month => "month"@,
            Placeholder::Day => "day"@,
            Placeholder::Hour => "hour"@,
            Placeholder::Minute => "minute"@,
        }
    }

    /// The placeholder as it is written in a template.
    pub open spec fn pattern(self) -> Seq<char> {
        match self {
            Placeholder::Signal => "[signal]"@,
            Placeholder::Payload => "[payload]"@,
            Placeholder::PdataId => "[pdata_id]"@,
            Placeholder::Date => "[date]"@,
            Placeholder::Year => "[year]"@,
            Placeholder::Month => "[month]"@,
            Placeholder::Day => "[day]"@,
            Placeholder::Hour => "[hour]"@,
            Placeholder::Minute => "[minute]"@,
        }
    }
}

/// Whether a placeholder has this name.
pub open spec fn is_supported(name: Seq<char>) -> bool {
    exists|placeholder: Placeholder| #[trigger] placeholder.name() == name
}

/// The placeholder of a supported name.
pub open spec fn placeholder_named(name: Seq<char>) -> Placeholder {
    choose|placeholder: Placeholder| #[trigger] placeholder.name() == name
}

/// The first position of a character in a text, or the length of a text that lacks it.
pub open spec fn first_at(text: Seq<char>, c: char) -> nat
    decreases text.len(),
{
    if text.len() == 0 || text[0] == c {
        0
    } else {
        1 + first_at(text.skip(1), c)
    }
}

/// What is wrong with the brackets of a template, read from the left: a closing bracket without
/// an opening one before it, an opening bracket without a closing one after it, or a pair around
/// something that is not the name of a placeholder.
pub open spec fn placeholder_error(template: Seq<char>) -> Option<Seq<char>>
    decreases template.len(),
{
    let open = first_at(template, '[') as int;
    if open >= template.len() {
        if template.contains(']') {
            Some("object path template contains an unmatched ']'"@)
        } else {
            None
        }
    } else if template.take(open).contains(']') {
        Some("object path template contains an unmatched ']'"@)
    } else {
        let after_open = template.skip(open + 1);
        let close = first_at(after_open, ']') as int;
        if close >= after_open.len() {
            Some("object path template contains an unmatched '['"@)
        } else if !is_supported(after_open.take(close)) {
            Some("unsupported object path placeholder ["@ + after_open.take(close) + "]"@)
        } else {
            placeholder_error(after_open.skip(close + 1))
        }
    }
}

/// A piece of a template.
pub enum Token {
    /// Text that stands for itself.
    Literal(Seq<char>),
    /// A place for a value.
    Slot(Placeholder),
}

/// The pieces of a template whose brackets are in order.
pub open spec fn tokens(template: Seq<char>) -> Seq<Token>
    decreases template.len(),
{
    let open = first_at(template, '[') as int;
    let after_open = template.skip(open + 1);
    let close = first_at(after_open, ']') as int;
    if open >= template.len() || close >= after_open.len() {
        seq![Token::Literal(template)]
    } else {
        seq![
            Token::Literal(template.take(open)),
            Token::Slot(placeholder_named(after_open.take(close))),
        ] + tokens(after_open.skip(close + 1))
    }
}

/// No bracket occurs in the text.
pub open spec fn is_bracket_free(text: Seq<char>) -> bool {
    forall|i: int| 0 <= i < text.len() ==> #[trigger] text[i] != '[' && text[i] != ']'
}

/// The literal pieces hold no brackets.
pub open spec fn are_clean(pieces: Seq<Token>) -> bool {
    forall|i: int| 0 <= i < pieces.len() ==> ((#[trigger] pieces[i]) matches Token::Literal(text) ==> is_bracket_free(text))
}

/// A piece as it is written in a template.
pub open spec fn token_text(token: Token) -> Seq<char> {
    match token {
        Token::Literal(text) => text,
        Token::Slot(placeholder) => placeholder.pattern(),
    }
}

/// The template that is made of these pieces.
pub open spec fn template_text(pieces: Seq<Token>) -> Seq<char>
    decreases pieces.len(),
{
    if pieces.len() == 0 {
        Seq::empty()
    } else {
        token_text(pieces[0]) + template_text(pieces.skip(1))
    }
}

/// A value for each placeholder.
pub struct FieldTexts {
    pub signal: Seq<char>,
    pub payload: Seq<char>,
    pub pdata_id: Seq<char>,
    pub date: Seq<char>,
    pub year: Seq<char>,
    pub month: Seq<char>,
    pub day: Seq<char>,
    pub hour: Seq<char>,
    pub minute: Seq<char>,
}

impl FieldTexts {
    /// The value for one placeholder.
    pub open spec fn value(self, placeholder: Placeholder) -> Seq<char> {
        match placeholder {
            Placeholder::Signal => self.signal,
            Placeholder::Payload => self.payload,
            Placeholder::PdataId => self.pdata_id,
            Placeholder::Date => self.date,
            Placeholder::Year => self.year,
            Placeholder::Month => self.month,
            Placeholder::Day => self.day,
            Placeholder::Hour => self.hour,
            Placeholder::Minute => self.minute,
        }
    }
}

/// A piece with its value filled in.
pub open spec fn filled(token: Token, fields: FieldTexts) -> Seq<char> {
    match token {
        Token::Literal(text) => text,
        Token::Slot(placeholder) => fields.value(placeholder),
    }
}

/// The pieces of a template joined, with each placeholder exchanged for its value.
pub open spec fn joined(pieces: Seq<Token>, fields: FieldTexts) -> Seq<char>
    decreases pieces.len(),
{
    if pieces.len() == 0 {
        Seq::empty()
    } else {
        filled(pieces[0], fields) + joined(pieces.skip(1), fields)
    }
}

/// The template after one placeholder after the other has been exchanged for its value.
pub open spec fn rendered(template: Seq<char>, fields: FieldTexts) -> Seq<char> {
    let signal = replaced(template, "[signal]"@, fields.signal);
    let payload = replaced(signal, "[payload]"@, fields.payload);
    let pdata_id = replaced(payload, "[pdata_id]"@, fields.pdata_id);
    let date = replaced(pdata_id, "[date]"@, fields.date);
    let year = replaced(date, "[year]"@, fields.year);
    let month = replaced(year, "[month]"@, fields.month);
    let day = replaced(month, "[day]"@, fields.day);
    let hour = replaced(day, "[hour]"@, fields.hour);
    replaced(hour, "[minute]"@, fields.minute)
}

/// The values that are filled into a template.
#[derive(Debug)]
pub struct FieldValues {
    pub signal: String,
    pub payload: String,
    pub pdata_id: String,
    pub date: String,
    pub year: String,
    pub month: String,
    pub day: String,
    pub hour: String,
    pub minute: String,
}

impl View for FieldValues {
    type V = FieldTexts;

    open spec fn view(&self) -> FieldTexts {
        FieldTexts {
            signal: self.signal@,
            payload: self.payload@,
            pdata_id: self.pdata_id@,
            date: self.date@,
            year: self.year@,
            month: self.month@,
            day: self.day@,
            hour: self.hour@,
            minute: self.minute@,
        }
    }
}

/// Exchanges the placeholders of a template for values.
pub fn render(template: &str, values: &FieldValues) -> (path: String)
    ensures
        path@ == rendered(template@, values@),
{
    proof {
        lemma_patterns();
    }
    let signal = replace(template, "[signal]", values.signal.as_str());
    let payload = replace(signal.as_str(), "[payload]", values.payload.as_str());
    let pdata_id = replace(payload.as_str(), "[pdata_id]", values.pdata_id.as_str());
    let date = replace(pdata_id.as_str(), "[date]", values.date.as_str());
    let year = replace(date.as_str(), "[year]", values.year.as_str());
    let month = replace(year.as_str(), "[month]", values.month.as_str());
    let day = replace(month.as_str(), "[day]", values.day.as_str());
    let hour = replace(day.as_str(), "[hour]", values.hour.as_str());
    replace(hour.as_str(), "[minute]", values.minute.as_str())
}

/// Whether a placeholder has this name.
fn supports(name: &str) -> (supported: bool)
    ensures
        supported == is_supported(name@),
{
    let supported = same_text(name, "signal") || same_text(name, "payload") || same_text(
        name,
        "pdata_id",
    ) || same_text(name, "date") || same_text(name, "year") || same_text(name, "month")
        || same_text(name, "day") || same_text(name, "hour") || same_text(name, "minute");
    proof {
        if is_supported(name@) {
            let placeholder = choose|placeholder: Placeholder| #[trigger] placeholder.name() == name@;
            match placeholder {
                Placeholder::Signal => {},
                _ => {},
            }
        }
        if supported {
            assert(Placeholder::Signal.name() == "signal"@);
            assert(Placeholder::Payload.name() == "payload"@);
            assert(Placeholder::PdataId.name() == "pdata_id"@);
            assert(Placeholder::Date.name() == "date"@);
            assert(Placeholder::Year.name() == "year"@);
            assert(Placeholder::Month.name() == "month"@);
            assert(Placeholder::Day.name() == "day"@);
            assert(Placeholder::Hour.name() == "hour"@);
            assert(Placeholder::Minute.name() == "minute"@);
        }
    }
    supported
}

/// The first position of a character is the one before which it does not occur.
pub proof fn lemma_first_at(text: Seq<char>, c: char)
    ensures
        first_at(text, c) <= text.len(),
        forall|i: int| 0 <= i < first_at(text, c) ==> text[i] != c,
        first_at(text, c) < text.len() ==> text[first_at(text, c) as int] == c,
        first_at(text, c) < text.len() <==> text.contains(c),
    decreases text.len(),
{
    if text.len() > 0 && text[0] != c {
        lemma_first_at(text.skip(1), c);
        assert forall|i: int| 0 <= i < first_at(text, c) implies text[i] != c by {
            if i > 0 {
                assert(text[i] == text.skip(1)[i - 1]);
            }
        }
        if text.contains(c) {
            let i = choose|i: int| 0 <= i < text.len() && text[i] == c;
            assert(text.skip(1)[i - 1] == c);
        }
    }
}

/// A position that holds the character, with none before it that does, is the first.
pub proof fn lemma_is_first_at(text: Seq<char>, c: char, at: int)
    requires
        0 <= at <= text.len(),
        forall|i: int| 0 <= i < at ==> text[i] != c,
        at < text.len() ==> text[at] == c,
    ensures
        first_at(text, c) == at,
{
    lemma_first_at(text, c);
    let first = first_at(text, c) as int;
    if first < at {
        assert(text[first] == c);
    }
    if at < first {
        assert(text[at] == c);
    }
}

/// Checks that the brackets of a template are in order.
pub fn parse_placeholders(template: &str) -> (checked: Result<(), String>)
    ensures
        match checked {
            Ok(_) => placeholder_error(template@) is None,
            Err(message) => placeholder_error(template@) == Some(message@),
        },
{
    let chars = chars_of(template);
    let mut from: usize = 0;
    assert(template@.skip(0) =~= template@);
    loop
        invariant
            chars@ == template@,
            from <= chars.len(),
            placeholder_error(template@.skip(from as int)) == placeholder_error(template@),
        decreases chars.len() - from,
    {
        let ghost rest = template@.skip(from as int);
        let open = find_from(&chars, from, '[');
        let stray = find_from(&chars, from, ']');
        proof {
            lemma_is_first_at(rest, '[', open - from);
            lemma_first_at(rest, ']');
            lemma_is_first_at(rest, ']', stray - from);
        }
        if stray < open {
            proof {
                if open < chars.len() {
                    assert(rest.take(open - from)[stray - from] == ']');
                    assert(rest.take(open - from).contains(']'));
                }
            }
            return Err("object path template contains an unmatched ']'".to_owned());
        }
        if open == chars.len() {
            return Ok(());
        }
        proof {
            let head = rest.take(open - from);
            if head.contains(']') {
                let i = choose|i: int| 0 <= i < head.len() && head[i] == ']';
                assert(rest[i] == ']');
            }
        }
        let close = find_from(&chars, open + 1, ']');
        let ghost after_open = rest.skip(open - from + 1);
        proof {
            assert(after_open =~= template@.skip(open + 1));
            lemma_is_first_at(after_open, ']', close - open - 1);
        }
        if close == chars.len() {
            return Err("object path template contains an unmatched '['".to_owned());
        }
        let mut name = String::new();
        append_chars(&mut name, &chars, open + 1, close);
        assert(name@ =~= after_open.take(close - open - 1));
        if !supports(name.as_str()) {
            let mut message = "unsupported object path placeholder [".to_owned();
            message.append(name.as_str());
            message.append("]");
            return Err(message);
        }
        assert(after_open.skip(close - open) =~= template@.skip(close + 1));
        from = close + 1;
    }
}

/// How placeholders are written: the name between brackets, which the name itself lacks.
pub proof fn lemma_pattern(placeholder: Placeholder)
    ensures
        placeholder.pattern() == seq!['['] + placeholder.name() + seq![']'],
        placeholder.name().len() > 0,
        is_bracket_free(placeholder.name()),
{
    reveal_strlit("signal");
    reveal_strlit("payload");
    reveal_strlit("pdata_id");
    reveal_strlit("date");
    reveal_strlit("year");
    reveal_strlit("month");
    reveal_strlit("day");
    reveal_strlit("hour");
    reveal_strlit("minute");
    reveal_strlit("[signal]");
    reveal_strlit("[payload]");
    reveal_strlit("[pdata_id]");
    reveal_strlit("[date]");
    reveal_strlit("[year]");
    reveal_strlit("[month]");
    reveal_strlit("[day]");
    reveal_strlit("[hour]");
    reveal_strlit("[minute]");
    assert(placeholder.pattern() =~= seq!['['] + placeholder.name() + seq![']']);
}

/// No placeholder is written as an empty text.
proof fn lemma_patterns()
    ensures
        "[signal]"@.len() > 0,
        "[payload]"@.len() > 0,
        "[pdata_id]"@.len() > 0,
        "[date]"@.len() > 0,
        "[year]"@.len() > 0,
        "[month]"@.len() > 0,
        "[day]"@.len() > 0,
        "[hour]"@.len() > 0,
        "[minute]"@.len() > 0,
{
    lemma_pattern(Placeholder::Signal);
    lemma_pattern(Placeholder::Payload);
    lemma_pattern(Placeholder::PdataId);
    lemma_pattern(Placeholder::Date);
    lemma_pattern(Placeholder::Year);
    lemma_pattern(Placeholder::Month);
    lemma_pattern(Placeholder::Day);
    lemma_pattern(Placeholder::Hour);
    lemma_pattern(Placeholder::Minute);
}

} // verus!
