//! What holds of every path that is rendered from a template: the placeholders are exchanged all
//! at once, the path is valid for any values if it is valid for some, and values that differ make
//! paths that differ.

use vstd::prelude::*;

use crate::object_path::{
    is_control, lemma_read_invalid, lemma_read_joined, read, read_char, Reading,
};
use crate::placeholder::{
    are_clean, filled, first_at, is_bracket_free, is_supported, joined, lemma_first_at,
    lemma_is_first_at, lemma_pattern, placeholder_error, placeholder_named, rendered,
    template_text, token_text, tokens, FieldTexts, Placeholder, Token,
};
use crate::text::replaced;

verus! {

/// A text that may be put in place of a placeholder: it is not empty, it does not end a piece of
/// a path or make one a step within the directory tree, and it has no brackets.
pub open spec fn is_value(text: Seq<char>) -> bool {
    &&& text.len() > 0
    &&& forall|i: int| 0 <= i < text.len() ==> is_value_char(#[trigger] text[i])
}

/// A character that may occur in a value.
pub open spec fn is_value_char(c: char) -> bool {
    c != '/' && c != '\\' && c != '.' && c != '[' && c != ']' && !is_control(c)
}

/// Each of the values may be put in place of its placeholder.
pub open spec fn are_values(fields: FieldTexts) -> bool {
    forall|placeholder: Placeholder| is_value(#[trigger] fields.value(placeholder))
}

/// Each of the values is free of brackets.
pub open spec fn are_bracket_free(fields: FieldTexts) -> bool {
    forall|placeholder: Placeholder| is_bracket_free(#[trigger] fields.value(placeholder))
}

/// Text without an opening bracket is kept while a placeholder is exchanged.
proof fn lemma_replaced_literal(
    literal: Seq<char>,
    rest: Seq<char>,
    pattern: Seq<char>,
    with: Seq<char>,
)
    requires
        pattern.len() > 0,
        pattern[0] == '[',
        forall|i: int| 0 <= i < literal.len() ==> literal[i] != '[',
    ensures
        replaced(literal + rest, pattern, with) == literal + replaced(rest, pattern, with),
    decreases literal.len(),
{
    let text = literal + rest;
    if literal.len() == 0 {
        assert(text =~= rest);
        assert(literal + replaced(rest, pattern, with) =~= replaced(rest, pattern, with));
    } else if text.len() < pattern.len() {
        assert(replaced(rest, pattern, with) == rest);
    } else {
        assert(text[0] == literal[0]);
        assert(!pattern.is_prefix_of(text)) by {
            if pattern.is_prefix_of(text) {
                assert(pattern[0] == text.subrange(0, pattern.len() as int)[0]);
            }
        }
        assert(text.skip(1) =~= literal.skip(1) + rest);
        assert forall|i: int| 0 <= i < literal.skip(1).len() implies literal.skip(1)[i] != '[' by {
            assert(literal.skip(1)[i] == literal[i + 1]);
        }
        lemma_replaced_literal(literal.skip(1), rest, pattern, with);
        assert(seq![text[0]] + (literal.skip(1) + replaced(rest, pattern, with)) =~= literal
            + replaced(rest, pattern, with));
    }
}

/// A placeholder at the start of a text is exchanged.
proof fn lemma_replaced_match(rest: Seq<char>, pattern: Seq<char>, with: Seq<char>)
    requires
        pattern.len() > 0,
    ensures
        replaced(pattern + rest, pattern, with) == with + replaced(rest, pattern, with),
{
    let text = pattern + rest;
    assert(pattern =~= text.subrange(0, pattern.len() as int));
    assert(text.skip(pattern.len() as int) =~= rest);
}

/// Another placeholder at the start of a text is kept.
proof fn lemma_replaced_other(
    rest: Seq<char>,
    placeholder: Placeholder,
    other: Placeholder,
    with: Seq<char>,
)
    requires
        placeholder != other,
    ensures
        replaced(other.pattern() + rest, placeholder.pattern(), with) == other.pattern() + replaced(
            rest,
            placeholder.pattern(),
            with,
        ),
{
    lemma_pattern(placeholder);
    lemma_pattern(other);
    let pattern = placeholder.pattern();
    let kept = other.pattern();
    let text = kept + rest;
    let name = placeholder.name();
    let other_name = other.name();
    if pattern.is_prefix_of(text) {
        assert(pattern =~= text.subrange(0, pattern.len() as int));
        assert forall|i: int| 0 <= i < pattern.len() implies pattern[i] == text[i] by {
            assert(pattern[i] == text.subrange(0, pattern.len() as int)[i]);
        }
        assert(pattern[(name.len() + 1) as int] == ']');
        assert(kept[(other_name.len() + 1) as int] == ']');
        if name.len() < other_name.len() {
            assert(text[(name.len() + 1) as int] == other_name[name.len() as int]);
            assert(false);
        }
        if other_name.len() < name.len() {
            assert(pattern[(other_name.len() + 1) as int] == name[other_name.len() as int]);
            assert(false);
        }
        assert forall|i: int| 0 <= i < name.len() implies name[i] == other_name[i] by {
            assert(pattern[i + 1] == name[i]);
            assert(kept[i + 1] == other_name[i]);
        }
        assert(name =~= other_name);
        lemma_names_differ(placeholder, other);
    }
    let tail = other_name + seq![']'];
    assert(text.skip(1) =~= tail + rest);
    assert forall|i: int| 0 <= i < tail.len() implies tail[i] != '[' by {
        if i < other_name.len() {
            assert(tail[i] == other_name[i]);
        }
    }
    lemma_replaced_literal(tail, rest, pattern, with);
    assert(kept =~= seq!['['] + tail);
    if text.len() < pattern.len() {
        assert(replaced(rest, pattern, with) == rest);
    } else {
        assert(seq![text[0]] + (tail + replaced(rest, pattern, with)) =~= kept + replaced(
            rest,
            pattern,
            with,
        ));
    }
}

/// Two placeholders with the same name are the same.
pub proof fn lemma_names_differ(left: Placeholder, right: Placeholder)
    ensures
        left.name() == right.name() ==> left == right,
{
    reveal_strlit("signal");
    reveal_strlit("payload");
    reveal_strlit("pdata_id");
    reveal_strlit("date");
    reveal_strlit("year");
    reveal_strlit("month");
    reveal_strlit("day");
    reveal_strlit("hour");
    reveal_strlit("minute");
    if left.name() == right.name() {
        assert(left.name().len() == right.name().len());
        assert(left.name()[0] == right.name()[0]);
        assert(left.name()[1] == right.name()[1]);
    }
}

/// The pieces with one placeholder exchanged for its value.
spec fn with_value(pieces: Seq<Token>, placeholder: Placeholder, value: Seq<char>) -> Seq<Token> {
    pieces.map_values(|token: Token| token_with_value(token, placeholder, value))
}

/// A piece with one placeholder exchanged for its value.
spec fn token_with_value(token: Token, placeholder: Placeholder, value: Seq<char>) -> Token {
    if token == Token::Slot(placeholder) {
        Token::Literal(value)
    } else {
        token
    }
}

/// Exchanging a placeholder in a template exchanges it in the pieces of the template.
proof fn lemma_with_value(pieces: Seq<Token>, placeholder: Placeholder, value: Seq<char>)
    requires
        are_clean(pieces),
        is_bracket_free(value),
    ensures
        are_clean(with_value(pieces, placeholder, value)),
        replaced(template_text(pieces), placeholder.pattern(), value) == template_text(
            with_value(pieces, placeholder, value),
        ),
    decreases pieces.len(),
{
    lemma_pattern(placeholder);
    let pattern = placeholder.pattern();
    let exchanged = with_value(pieces, placeholder, value);
    assert(are_clean(exchanged)) by {
        assert forall|i: int| 0 <= i < exchanged.len() implies ((#[trigger] exchanged[i]) matches Token::Literal(
            text,
        ) ==> is_bracket_free(text)) by {
            assert(exchanged[i] == token_with_value(pieces[i], placeholder, value));
        }
    }
    if pieces.len() > 0 {
        let rest = pieces.skip(1);
        assert(are_clean(rest)) by {
            assert forall|i: int| 0 <= i < rest.len() implies ((#[trigger] rest[i]) matches Token::Literal(
                text,
            ) ==> is_bracket_free(text)) by {
                assert(rest[i] == pieces[i + 1]);
            }
        }
        lemma_with_value(rest, placeholder, value);
        assert(exchanged.skip(1) =~= with_value(rest, placeholder, value));
        let rest_text = template_text(rest);
        match pieces[0] {
            Token::Literal(text) => {
                lemma_replaced_literal(text, rest_text, pattern, value);
            },
            Token::Slot(other) => {
                if other == placeholder {
                    lemma_replaced_match(rest_text, pattern, value);
                } else {
                    lemma_replaced_other(rest_text, placeholder, other, value);
                }
            },
        }
    }
}

/// Pieces whose texts are the filled ones make the joined text.
proof fn lemma_texts_joined(done: Seq<Token>, pieces: Seq<Token>, fields: FieldTexts)
    requires
        done.len() == pieces.len(),
        forall|i: int| 0 <= i < pieces.len() ==> token_text(#[trigger] done[i]) == filled(pieces[i], fields),
    ensures
        template_text(done) == joined(pieces, fields),
    decreases pieces.len(),
{
    if pieces.len() > 0 {
        assert forall|i: int| 0 <= i < pieces.skip(1).len() implies token_text(
            #[trigger] done.skip(1)[i],
        ) == filled(pieces.skip(1)[i], fields) by {
            assert(token_text(done[i + 1]) == filled(pieces[i + 1], fields));
        }
        lemma_texts_joined(done.skip(1), pieces.skip(1), fields);
    }
}

/// Exchanging one placeholder after the other is exchanging all of them at once: no value and no
/// neighbourhood of a value is taken for a placeholder.
pub proof fn lemma_rendered_at_once(pieces: Seq<Token>, fields: FieldTexts)
    requires
        are_clean(pieces),
        are_bracket_free(fields),
    ensures
        rendered(template_text(pieces), fields) == joined(pieces, fields),
{
    assert(is_bracket_free(fields.value(Placeholder::Signal)));
    assert(is_bracket_free(fields.value(Placeholder::Payload)));
    assert(is_bracket_free(fields.value(Placeholder::PdataId)));
    assert(is_bracket_free(fields.value(Placeholder::Date)));
    assert(is_bracket_free(fields.value(Placeholder::Year)));
    assert(is_bracket_free(fields.value(Placeholder::Month)));
    assert(is_bracket_free(fields.value(Placeholder::Day)));
    assert(is_bracket_free(fields.value(Placeholder::Hour)));
    assert(is_bracket_free(fields.value(Placeholder::Minute)));
    let signal = with_value(pieces, Placeholder::Signal, fields.signal);
    lemma_with_value(pieces, Placeholder::Signal, fields.signal);
    let payload = with_value(signal, Placeholder::Payload, fields.payload);
    lemma_with_value(signal, Placeholder::Payload, fields.payload);
    let pdata_id = with_value(payload, Placeholder::PdataId, fields.pdata_id);
    lemma_with_value(payload, Placeholder::PdataId, fields.pdata_id);
    let date = with_value(pdata_id, Placeholder::Date, fields.date);
    lemma_with_value(pdata_id, Placeholder::Date, fields.date);
    let year = with_value(date, Placeholder::Year, fields.year);
    lemma_with_value(date, Placeholder::Year, fields.year);
    let month = with_value(year, Placeholder::Month, fields.month);
    lemma_with_value(year, Placeholder::Month, fields.month);
    let day = with_value(month, Placeholder::Day, fields.day);
    lemma_with_value(month, Placeholder::Day, fields.day);
    let hour = with_value(day, Placeholder::Hour, fields.hour);
    lemma_with_value(day, Placeholder::Hour, fields.hour);
    let minute = with_value(hour, Placeholder::Minute, fields.minute);
    lemma_with_value(hour, Placeholder::Minute, fields.minute);
    assert forall|i: int| 0 <= i < pieces.len() implies token_text(#[trigger] minute[i]) == filled(
        pieces[i],
        fields,
    ) by {
        assert(signal[i] == token_with_value(pieces[i], Placeholder::Signal, fields.signal));
        assert(payload[i] == token_with_value(signal[i], Placeholder::Payload, fields.payload));
        assert(pdata_id[i] == token_with_value(payload[i], Placeholder::PdataId, fields.pdata_id));
        assert(date[i] == token_with_value(pdata_id[i], Placeholder::Date, fields.date));
        assert(year[i] == token_with_value(date[i], Placeholder::Year, fields.year));
        assert(month[i] == token_with_value(year[i], Placeholder::Month, fields.month));
        assert(day[i] == token_with_value(month[i], Placeholder::Day, fields.day));
        assert(hour[i] == token_with_value(day[i], Placeholder::Hour, fields.hour));
        assert(minute[i] == token_with_value(hour[i], Placeholder::Minute, fields.minute));
    }
    lemma_texts_joined(minute, pieces, fields);
}

/// A template whose brackets are in order is made of its pieces, and their literal text has no
/// brackets.
pub proof fn lemma_tokens(template: Seq<char>)
    requires
        placeholder_error(template) is None,
    ensures
        are_clean(tokens(template)),
        template_text(tokens(template)) == template,
    decreases template.len(),
{
    lemma_first_at(template, '[');
    let open = first_at(template, '[') as int;
    let pieces = tokens(template);
    if open >= template.len() {
        assert(is_bracket_free(template));
        assert(pieces.skip(1) =~= Seq::<Token>::empty());
        assert(template_text(pieces.skip(1)) =~= Seq::<char>::empty());
        assert(template + Seq::<char>::empty() =~= template);
    } else {
        let after_open = template.skip(open + 1);
        lemma_first_at(after_open, ']');
        let close = first_at(after_open, ']') as int;
        let name = after_open.take(close);
        let placeholder = placeholder_named(name);
        let rest = after_open.skip(close + 1);
        let head = template.take(open);
        lemma_tokens(rest);
        lemma_pattern(placeholder);
        assert(placeholder.name() == name);
        assert(is_bracket_free(head)) by {
            assert forall|i: int| 0 <= i < head.len() implies #[trigger] head[i] != '[' && head[i] != ']' by {
                assert(head[i] == template[i]);
                assert(head[i] == ']' ==> head.contains(']'));
            }
        }
        let after = tokens(rest);
        assert(pieces =~= seq![Token::Literal(head), Token::Slot(placeholder)] + after);
        assert forall|i: int| 0 <= i < pieces.len() implies ((#[trigger] pieces[i]) matches Token::Literal(
            text,
        ) ==> is_bracket_free(text)) by {
            if i >= 2 {
                assert(pieces[i] == after[i - 2]);
            }
        }
        assert(pieces.skip(1).skip(1) =~= after);
        assert(pieces.skip(1)[0] == Token::Slot(placeholder));
        assert(template_text(pieces.skip(1)) == placeholder.pattern() + rest);
        assert(template[open] == '[');
        assert(after_open[close] == ']');
        assert(head + (placeholder.pattern() + rest) =~= template);
    }
}

/// Literal text at the start of a template is read over.
proof fn lemma_error_after_literal(literal: Seq<char>, rest: Seq<char>)
    requires
        is_bracket_free(literal),
    ensures
        placeholder_error(literal + rest) == placeholder_error(rest),
{
    let text = literal + rest;
    lemma_first_at(rest, '[');
    let open = first_at(rest, '[') as int;
    assert forall|i: int| 0 <= i < literal.len() + open implies text[i] != '[' by {
        if i < literal.len() {
            assert(text[i] == literal[i]);
        } else {
            assert(text[i] == rest[i - literal.len()]);
        }
    }
    if open < rest.len() {
        assert(text[literal.len() + open] == rest[open]);
    }
    lemma_is_first_at(text, '[', literal.len() + open);
    if open >= rest.len() {
        lemma_contains_after_literal(literal, rest, ']');
    } else {
        let head = text.take(literal.len() + open);
        assert(head =~= literal + rest.take(open));
        lemma_contains_after_literal(literal, rest.take(open), ']');
        assert(text.skip(literal.len() + open + 1) =~= rest.skip(open + 1));
    }
}

/// A character that literal text lacks occurs in the whole if it occurs in the rest.
proof fn lemma_contains_after_literal(literal: Seq<char>, rest: Seq<char>, c: char)
    requires
        !literal.contains(c) || is_bracket_free(literal) && (c == '[' || c == ']'),
    ensures
        (literal + rest).contains(c) == rest.contains(c),
{
    let text = literal + rest;
    if text.contains(c) {
        let i = choose|i: int| 0 <= i < text.len() && text[i] == c;
        if i < literal.len() {
            assert(literal[i] == c);
        } else {
            assert(rest[i - literal.len()] == c);
        }
    }
    if rest.contains(c) {
        let i = choose|i: int| 0 <= i < rest.len() && rest[i] == c;
        assert(text[i + literal.len()] == c);
    }
}

/// The brackets of a template that is made of pieces are in order.
pub proof fn lemma_clean_template(pieces: Seq<Token>)
    requires
        are_clean(pieces),
    ensures
        placeholder_error(template_text(pieces)) is None,
    decreases pieces.len(),
{
    if pieces.len() == 0 {
        let none = Seq::<char>::empty();
        lemma_first_at(none, '[');
    } else {
        let rest = pieces.skip(1);
        assert(are_clean(rest)) by {
            assert forall|i: int| 0 <= i < rest.len() implies ((#[trigger] rest[i]) matches Token::Literal(
                text,
            ) ==> is_bracket_free(text)) by {
                assert(rest[i] == pieces[i + 1]);
            }
        }
        lemma_clean_template(rest);
        let rest_text = template_text(rest);
        match pieces[0] {
            Token::Literal(text) => {
                lemma_error_after_literal(text, rest_text);
            },
            Token::Slot(placeholder) => {
                lemma_pattern(placeholder);
                let name = placeholder.name();
                let text = placeholder.pattern() + rest_text;
                lemma_is_first_at(text, '[', 0);
                let after_open = text.skip(1);
                assert(after_open =~= name + seq![']'] + rest_text);
                assert forall|i: int| 0 <= i < name.len() implies after_open[i] != ']' by {
                    assert(after_open[i] == name[i]);
                }
                assert(after_open[name.len() as int] == ']');
                lemma_is_first_at(after_open, ']', name.len() as int);
                assert(after_open.take(name.len() as int) =~= name);
                assert(is_supported(name));
                assert(after_open.skip((name.len() + 1) as int) =~= rest_text);
                assert(!text.take(0).contains(']'));
            },
        }
    }
}

/// A text that is or becomes a valid piece of a path, whatever stands before or behind it in the
/// piece: it is not empty and has no slashes, dots or control characters.
pub open spec fn is_name(text: Seq<char>) -> bool {
    &&& text.len() > 0
    &&& forall|i: int|
        0 <= i < text.len() ==> #[trigger] text[i] != '/' && text[i] != '.' && !is_control(text[i])
}

/// Each of the texts makes a valid piece of a path.
pub open spec fn are_names(fields: FieldTexts) -> bool {
    forall|placeholder: Placeholder| is_name(#[trigger] fields.value(placeholder))
}

/// Values make valid pieces of a path.
pub proof fn lemma_values_are_names(fields: FieldTexts)
    requires
        are_values(fields),
    ensures
        are_names(fields),
{
    assert forall|placeholder: Placeholder| is_name(#[trigger] fields.value(placeholder)) by {
        let value = fields.value(placeholder);
        assert(is_value(value));
        assert forall|i: int| 0 <= i < value.len() implies #[trigger] value[i] != '/' && value[i]
            != '.' && !is_control(value[i]) by {
            assert(is_value_char(value[i]));
        }
    }
}

/// After a name has been read, the piece of the path that it stands in is a valid one.
proof fn lemma_read_name(reading: Reading, name: Seq<char>)
    requires
        is_name(name),
        !(reading is Invalid),
    ensures
        read(reading, name) is Named,
    decreases name.len(),
{
    let shorter = name.drop_last();
    if shorter.len() > 0 {
        assert forall|i: int| 0 <= i < shorter.len() implies #[trigger] shorter[i] != '/'
            && shorter[i] != '.' && !is_control(shorter[i]) by {
            assert(shorter[i] == name[i]);
        }
        lemma_read_name(reading, shorter);
    }
    assert(name[name.len() - 1] != '/');
    assert(read(reading, name) == read_char(read(reading, shorter), name.last()));
}

/// After a value has been read, the piece of the path that it stands in is a valid one.
pub proof fn lemma_read_value(reading: Reading, value: Seq<char>)
    requires
        is_value(value),
        !(reading is Invalid),
    ensures
        read(reading, value) is Named,
{
    assert forall|i: int| 0 <= i < value.len() implies #[trigger] value[i] != '/' && value[i] != '.'
        && !is_control(value[i]) by {
        assert(is_value_char(value[i]));
    }
    lemma_read_name(reading, value);
}

/// How a rendered template reads does not depend on the names that are filled in.
pub proof fn lemma_read_any_names(
    reading: Reading,
    pieces: Seq<Token>,
    left: FieldTexts,
    right: FieldTexts,
)
    requires
        are_names(left),
        are_names(right),
    ensures
        read(reading, joined(pieces, left)) == read(reading, joined(pieces, right)),
    decreases pieces.len(),
{
    if pieces.len() > 0 {
        let rest = pieces.skip(1);
        lemma_read_joined(reading, filled(pieces[0], left), joined(rest, left));
        lemma_read_joined(reading, filled(pieces[0], right), joined(rest, right));
        match pieces[0] {
            Token::Literal(text) => {
                lemma_read_any_names(read(reading, text), rest, left, right);
            },
            Token::Slot(placeholder) => {
                assert(is_name(left.value(placeholder)));
                assert(is_name(right.value(placeholder)));
                if reading is Invalid {
                    lemma_read_invalid(left.value(placeholder));
                    lemma_read_invalid(right.value(placeholder));
                } else {
                    lemma_read_name(reading, left.value(placeholder));
                    lemma_read_name(reading, right.value(placeholder));
                }
                lemma_read_any_names(read(reading, left.value(placeholder)), rest, left, right);
            },
        }
    }
}

/// Each placeholder as it is written in a template.
pub open spec fn pattern_texts() -> FieldTexts {
    FieldTexts {
        signal: "[signal]"@,
        payload: "[payload]"@,
        pdata_id: "[pdata_id]"@,
        date: "[date]"@,
        year: "[year]"@,
        month: "[month]"@,
        day: "[day]"@,
        hour: "[hour]"@,
        minute: "[minute]"@,
    }
}

/// Placeholders as they are written make valid pieces of a path.
pub proof fn lemma_patterns_are_names()
    ensures
        are_names(pattern_texts()),
{
    reveal_strlit("[signal]");
    reveal_strlit("[payload]");
    reveal_strlit("[pdata_id]");
    reveal_strlit("[date]");
    reveal_strlit("[year]");
    reveal_strlit("[month]");
    reveal_strlit("[day]");
    reveal_strlit("[hour]");
    reveal_strlit("[minute]");
    assert forall|placeholder: Placeholder| is_name(
        #[trigger] pattern_texts().value(placeholder),
    ) by {
        match placeholder {
            Placeholder::Signal => {},
            _ => {},
        }
    }
}

/// A template is its pieces with each placeholder filled in as it is written.
pub proof fn lemma_template_is_joined_patterns(pieces: Seq<Token>)
    ensures
        joined(pieces, pattern_texts()) == template_text(pieces),
    decreases pieces.len(),
{
    if pieces.len() > 0 {
        lemma_template_is_joined_patterns(pieces.skip(1));
    }
}

/// Values of which none is longer on the left than on the right make paths that differ in length
/// or in the values that are used.
pub proof fn lemma_joined_injective(pieces: Seq<Token>, left: FieldTexts, right: FieldTexts)
    requires
        forall|placeholder: Placeholder|
            left.value(placeholder).len() <= (#[trigger] right.value(placeholder)).len(),
    ensures
        joined(pieces, left).len() <= joined(pieces, right).len(),
        joined(pieces, left) == joined(pieces, right) ==> forall|i: int|
            0 <= i < pieces.len() ==> ((#[trigger] pieces[i]) matches Token::Slot(placeholder) ==> left.value(
                placeholder,
            ) == right.value(placeholder)),
    decreases pieces.len(),
{
    if pieces.len() > 0 {
        let rest = pieces.skip(1);
        lemma_joined_injective(rest, left, right);
        let head_left = filled(pieces[0], left);
        let head_right = filled(pieces[0], right);
        assert(head_left.len() <= head_right.len());
        if joined(pieces, left) == joined(pieces, right) {
            let whole = joined(pieces, left);
            assert(whole.take(head_left.len() as int) =~= head_left);
            assert(joined(pieces, right).take(head_right.len() as int) =~= head_right);
            assert(head_left =~= head_right);
            assert(whole.skip(head_left.len() as int) =~= joined(rest, left));
            assert(joined(pieces, right).skip(head_right.len() as int) =~= joined(rest, right));
            assert forall|i: int| 0 <= i < pieces.len() implies ((#[trigger] pieces[i]) matches Token::Slot(
                placeholder,
            ) ==> left.value(placeholder) == right.value(placeholder)) by {
                if i > 0 {
                    assert(rest[i - 1] == pieces[i]);
                }
            }
        }
    }
}

/// A template without a backslash renders as a path without one.
pub proof fn lemma_no_backslash(pieces: Seq<Token>, fields: FieldTexts)
    requires
        are_values(fields),
        !template_text(pieces).contains('\\'),
    ensures
        !joined(pieces, fields).contains('\\'),
    decreases pieces.len(),
{
    if pieces.len() > 0 {
        let rest = pieces.skip(1);
        let whole = template_text(pieces);
        let head = token_text(pieces[0]);
        assert(!template_text(rest).contains('\\')) by {
            if template_text(rest).contains('\\') {
                let i = choose|i: int|
                    0 <= i < template_text(rest).len() && template_text(rest)[i] == '\\';
                assert(whole[head.len() + i] == '\\');
            }
        }
        lemma_no_backslash(rest, fields);
        let result = joined(pieces, fields);
        let start = filled(pieces[0], fields);
        if result.contains('\\') {
            let i = choose|i: int| 0 <= i < result.len() && result[i] == '\\';
            if i < start.len() {
                assert(start[i] == '\\');
                match pieces[0] {
                    Token::Literal(text) => {
                        assert(whole[i] == '\\');
                    },
                    Token::Slot(placeholder) => {
                        assert(is_value(fields.value(placeholder)));
                        assert(is_value_char(start[i]));
                    },
                }
            } else {
                assert(joined(rest, fields)[i - start.len()] == '\\');
            }
        }
    }
}

/// A template without brackets renders as itself.
proof fn lemma_bracket_free_template(pieces: Seq<Token>, fields: FieldTexts)
    requires
        is_bracket_free(template_text(pieces)),
    ensures
        joined(pieces, fields) == template_text(pieces),
    decreases pieces.len(),
{
    if pieces.len() > 0 {
        let rest = pieces.skip(1);
        let whole = template_text(pieces);
        let head = token_text(pieces[0]);
        assert(is_bracket_free(template_text(rest))) by {
            assert forall|i: int| 0 <= i < template_text(rest).len() implies #[trigger] template_text(
                rest,
            )[i] != '[' && template_text(rest)[i] != ']' by {
                assert(template_text(rest)[i] == whole[i + head.len()]);
            }
        }
        lemma_bracket_free_template(rest, fields);
        if let Token::Slot(placeholder) = pieces[0] {
            lemma_pattern(placeholder);
            assert(whole[0] == '[');
        }
    }
}

/// An ending without brackets is kept when the template is rendered.
pub proof fn lemma_ending_kept(pieces: Seq<Token>, fields: FieldTexts, ending: Seq<char>)
    requires
        is_bracket_free(ending),
        ending.is_suffix_of(template_text(pieces)),
    ensures
        ending.is_suffix_of(joined(pieces, fields)),
    decreases pieces.len(),
{
    let whole = template_text(pieces);
    let result = joined(pieces, fields);
    if pieces.len() > 0 {
        let rest = pieces.skip(1);
        let rest_text = template_text(rest);
        let head = token_text(pieces[0]);
        let start = whole.len() - ending.len();
        assert(ending =~= whole.subrange(start, whole.len() as int));
        if ending.len() <= rest_text.len() {
            assert(ending =~= rest_text.subrange(
                rest_text.len() - ending.len(),
                rest_text.len() as int,
            ));
            lemma_ending_kept(rest, fields, ending);
            let rest_result = joined(rest, fields);
            assert(ending =~= result.subrange(result.len() - ending.len(), result.len() as int)) by {
                assert(rest_result.subrange(
                    rest_result.len() - ending.len(),
                    rest_result.len() as int,
                ) =~= result.subrange(result.len() - ending.len(), result.len() as int));
            }
        } else {
            assert(is_bracket_free(rest_text)) by {
                assert forall|i: int| 0 <= i < rest_text.len() implies #[trigger] rest_text[i] != '['
                    && rest_text[i] != ']' by {
                    assert(rest_text[i] == ending[i + ending.len() - rest_text.len()]);
                }
            }
            lemma_bracket_free_template(rest, fields);
            match pieces[0] {
                Token::Literal(text) => {
                    assert(result =~= whole);
                },
                Token::Slot(placeholder) => {
                    lemma_pattern(placeholder);
                    assert(whole[head.len() - 1] == ']');
                    assert(ending[ending.len() - rest_text.len() - 1] == whole[head.len() - 1]);
                },
            }
        }
    }
}

/// A template that does not start with a slash renders as a path that does not.
pub proof fn lemma_start_kept(pieces: Seq<Token>, fields: FieldTexts)
    requires
        are_values(fields),
        template_text(pieces).len() > 0,
        template_text(pieces).first() != '/',
    ensures
        joined(pieces, fields).len() > 0,
        joined(pieces, fields).first() != '/',
    decreases pieces.len(),
{
    let rest = pieces.skip(1);
    match pieces[0] {
        Token::Literal(text) => {
            if text.len() == 0 {
                assert(template_text(pieces) =~= template_text(rest));
                assert(joined(pieces, fields) =~= joined(rest, fields));
                lemma_start_kept(rest, fields);
            } else {
                assert(template_text(pieces)[0] == text[0]);
            }
        },
        Token::Slot(placeholder) => {
            assert(is_value(fields.value(placeholder)));
            assert(is_value_char(fields.value(placeholder)[0]));
        },
    }
}

} // verus!
