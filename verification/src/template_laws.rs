//! Which templates are accepted, why others are not, and what templates become, read from the left.

use vstd::prelude::*;

use crate::object_path::{all_segments, segments};
use crate::placeholder::{
    first_at, is_bracket_free, is_supported, joined, lemma_first_at, lemma_is_first_at,
    lemma_pattern, placeholder_error, placeholder_named, rendered, tokens, FieldTexts, Placeholder,
    Token,
};
use crate::rendering::{are_bracket_free, lemma_names_differ, lemma_rendered_at_once, lemma_tokens};
use crate::template::{lemma_accepted_templates, template_error};

verus! {

/// A name is that of one of the nine placeholders.
pub open spec fn is_placeholder_name(name: Seq<char>) -> bool {
    ||| name == "signal"@
    ||| name == "payload"@
    ||| name == "pdata_id"@
    ||| name == "date"@
    ||| name == "year"@
    ||| name == "month"@
    ||| name == "day"@
    ||| name == "hour"@
    ||| name == "minute"@
}

/// The names of placeholders are those nine.
proof fn lemma_placeholder_names(name: Seq<char>)
    ensures
        is_supported(name) <==> is_placeholder_name(name),
{
    if is_supported(name) {
        let placeholder = choose|placeholder: Placeholder| #[trigger] placeholder.name() == name;
        match placeholder {
            Placeholder::Signal => {},
            _ => {},
        }
    }
    assert(Placeholder::Signal.name() == "signal"@);
    assert(Placeholder::Payload.name() == "payload"@);
    assert(Placeholder::PdataId.name() == "pdata_id"@);
    assert(Placeholder::Date.name() == "date"@);
    assert(Placeholder::Year.name() == "year"@);
    assert(Placeholder::Month.name() == "month"@);
    assert(Placeholder::Day.name() == "day"@);
    assert(Placeholder::Hour.name() == "hour"@);
    assert(Placeholder::Minute.name() == "minute"@);
}

/// Nothing is wrong with text without brackets.
pub proof fn lemma_plain_text_is_in_order(text: Seq<char>)
    requires
        is_bracket_free(text),
    ensures
        placeholder_error(text) is None,
{
    lemma_is_first_at(text, '[', text.len() as int);
}

/// A closing bracket with no opening one before it is what is wrong with a template, whatever
/// follows.
pub proof fn lemma_stray_closing_bracket(head: Seq<char>, rest: Seq<char>)
    requires
        is_bracket_free(head),
    ensures
        placeholder_error(head + seq![']'] + rest) == Some(
            "object path template contains an unmatched ']'"@,
        ),
{
    let template = head + seq![']'] + rest;
    lemma_first_at(template, '[');
    let open = first_at(template, '[') as int;
    assert(template[head.len() as int] == ']');
    assert forall|i: int| 0 <= i <= head.len() implies template[i] != '[' by {
        if i < head.len() {
            assert(template[i] == head[i]);
        }
    }
    assert(open > head.len());
    if open < template.len() {
        assert(template.take(open)[head.len() as int] == ']');
        assert(template.take(open).contains(']'));
    } else {
        assert(template.contains(']'));
    }
}

/// An opening bracket with no closing one behind it is what is wrong with a template.
pub proof fn lemma_stray_opening_bracket(head: Seq<char>, rest: Seq<char>)
    requires
        is_bracket_free(head),
        !rest.contains(']'),
    ensures
        placeholder_error(head + seq!['['] + rest) == Some(
            "object path template contains an unmatched '['"@,
        ),
{
    let template = head + seq!['['] + rest;
    assert forall|i: int| 0 <= i < head.len() implies template[i] != '[' by {
        assert(template[i] == head[i]);
    }
    assert(template[head.len() as int] == '[');
    lemma_is_first_at(template, '[', head.len() as int);
    assert(template.take(head.len() as int) =~= head);
    assert(template.skip(head.len() as int + 1) =~= rest);
    lemma_first_at(rest, ']');
}

/// A pair of brackets is in order if what stands between them is the name of one of the nine
/// placeholders, and then the rest of the template decides. Otherwise what is wrong is that name.
pub proof fn lemma_pair_of_brackets(head: Seq<char>, name: Seq<char>, rest: Seq<char>)
    requires
        is_bracket_free(head),
        !name.contains(']'),
    ensures
        placeholder_error(head + seq!['['] + name + seq![']'] + rest) == if is_placeholder_name(
            name,
        ) {
            placeholder_error(rest)
        } else {
            Some("unsupported object path placeholder ["@ + name + "]"@)
        },
{
    let template = head + seq!['['] + name + seq![']'] + rest;
    assert forall|i: int| 0 <= i < head.len() implies template[i] != '[' by {
        assert(template[i] == head[i]);
    }
    assert(template[head.len() as int] == '[');
    lemma_is_first_at(template, '[', head.len() as int);
    assert(template.take(head.len() as int) =~= head);
    let after_open = template.skip(head.len() as int + 1);
    assert(after_open =~= name + seq![']'] + rest);
    assert forall|i: int| 0 <= i < name.len() implies after_open[i] != ']' by {
        assert(after_open[i] == name[i]);
    }
    assert(after_open[name.len() as int] == ']');
    lemma_is_first_at(after_open, ']', name.len() as int);
    assert(after_open.take(name.len() as int) =~= name);
    assert(after_open.skip(name.len() as int + 1) =~= rest);
    lemma_placeholder_names(name);
}

/// Why a template is rejected. The first of these reasons is given: it is empty, it starts with a
/// slash or a backslash, it holds a backslash, it does not end in `.arrow`, its brackets are not in
/// order, or a piece between its slashes is empty, a step within the directory tree, or holds a
/// control character.
pub proof fn lemma_why_templates_are_rejected(template: Seq<char>)
    ensures
        if template.len() == 0 {
            template_error(template) == Some("object path template cannot be empty"@)
        } else if template[0] == '/' || template[0] == '\\' {
            template_error(template) == Some("object path template must be relative"@)
        } else if exists|i: int| 0 <= i < template.len() && #[trigger] template[i] == '\\' {
            template_error(template) == Some("object path template cannot contain backslashes"@)
        } else if template.len() < 6 || template.skip(template.len() - 6) != seq![
            '.',
            'a',
            'r',
            'r',
            'o',
            'w',
        ] {
            template_error(template) == Some("object path template must end with .arrow"@)
        } else if placeholder_error(template) is Some {
            template_error(template) == placeholder_error(template)
        } else {
            &&& template_error(template) is None <==> all_segments(segments(template))
            &&& template_error(template) matches Some(message)
                ==> "object path template produces an invalid path: "@.is_prefix_of(message)
        },
{
    reveal_strlit(".arrow");
    lemma_accepted_templates(template);
    assert(".arrow"@ =~= seq!['.', 'a', 'r', 'r', 'o', 'w']);
    if template.len() >= 6 {
        assert(template.skip(template.len() - 6) =~= template.subrange(
            template.len() - 6,
            template.len() as int,
        ));
    }
    if exists|i: int| 0 <= i < template.len() && #[trigger] template[i] == '\\' {
        let i = choose|i: int| 0 <= i < template.len() && #[trigger] template[i] == '\\';
        assert(template.contains('\\'));
    }
    if let Some(message) = template_error(template) {
        let start = "object path template produces an invalid path: "@;
        let path = rendered(template, crate::template::example_texts());
        let whole = start + crate::object_path::object_path_error(path);
        assert(whole.subrange(0, start.len() as int) =~= start);
    }
}

/// The first placeholder of a template is exchanged for its value: what stands before it is kept,
/// and the same is done with the rest of the template.
proof fn lemma_first_rendered(
    head: Seq<char>,
    placeholder: Placeholder,
    rest: Seq<char>,
    fields: FieldTexts,
)
    requires
        is_bracket_free(head),
        placeholder_error(rest) is None,
        are_bracket_free(fields),
    ensures
        rendered(head + placeholder.pattern() + rest, fields) == head + fields.value(placeholder)
            + rendered(rest, fields),
{
    let template = head + placeholder.pattern() + rest;
    lemma_pattern(placeholder);
    let name = placeholder.name();
    assert(!name.contains(']'));
    assert(template =~= head + seq!['['] + name + seq![']'] + rest);
    assert(is_supported(name));
    lemma_placeholder_names(name);
    lemma_pair_of_brackets(head, name, rest);
    lemma_tokens(template);
    lemma_tokens(rest);
    lemma_rendered_at_once(tokens(template), fields);
    lemma_rendered_at_once(tokens(rest), fields);
    assert forall|i: int| 0 <= i < head.len() implies template[i] != '[' by {
        assert(template[i] == head[i]);
    }
    assert(template[head.len() as int] == '[');
    lemma_is_first_at(template, '[', head.len() as int);
    let after_open = template.skip(head.len() as int + 1);
    assert(after_open =~= name + seq![']'] + rest);
    assert forall|i: int| 0 <= i < name.len() implies after_open[i] != ']' by {
        assert(after_open[i] == name[i]);
    }
    assert(after_open[name.len() as int] == ']');
    lemma_is_first_at(after_open, ']', name.len() as int);
    assert(after_open.take(name.len() as int) =~= name);
    lemma_names_differ(placeholder, placeholder_named(name));
    assert(after_open.skip(name.len() as int + 1) =~= rest);
    assert(template.take(head.len() as int) =~= head);
    let pieces = tokens(template);
    let after = tokens(rest);
    assert(pieces =~= seq![Token::Literal(head), Token::Slot(placeholder)] + after);
    assert(pieces.skip(1).skip(1) =~= after);
    assert(pieces.skip(1)[0] == Token::Slot(placeholder));
    assert(joined(pieces.skip(1), fields) == fields.value(placeholder) + joined(after, fields));
    assert(joined(pieces, fields) =~= head + fields.value(placeholder) + joined(after, fields));
}

/// A template without placeholders is kept as it is.
pub proof fn lemma_plain_template_is_kept(text: Seq<char>, fields: FieldTexts)
    requires
        is_bracket_free(text),
        are_bracket_free(fields),
    ensures
        rendered(text, fields) == text,
{
    lemma_plain_text_is_in_order(text);
    lemma_tokens(text);
    lemma_rendered_at_once(tokens(text), fields);
    lemma_is_first_at(text, '[', text.len() as int);
    assert(tokens(text) =~= seq![Token::Literal(text)]);
    assert(tokens(text).skip(1) =~= Seq::<Token>::empty());
    assert(joined(tokens(text).skip(1), fields) =~= Seq::<char>::empty());
    assert(text + Seq::<char>::empty() =~= text);
}

/// `[signal]` is exchanged for the value that is meant for it; what stands before it is kept, and the
/// rest of the template is rendered in the same way.
pub proof fn lemma_signal_in_its_place(head: Seq<char>, rest: Seq<char>, fields: FieldTexts)
    requires
        is_bracket_free(head),
        placeholder_error(rest) is None,
        are_bracket_free(fields),
    ensures
        rendered(head + "[signal]"@ + rest, fields) == head + fields.signal + rendered(rest, fields),
{
    lemma_first_rendered(head, Placeholder::Signal, rest, fields);
}

/// `[payload]` is exchanged for the value that is meant for it; what stands before it is kept, and the
/// rest of the template is rendered in the same way.
pub proof fn lemma_payload_in_its_place(head: Seq<char>, rest: Seq<char>, fields: FieldTexts)
    requires
        is_bracket_free(head),
        placeholder_error(rest) is None,
        are_bracket_free(fields),
    ensures
        rendered(head + "[payload]"@ + rest, fields) == head + fields.payload + rendered(rest, fields),
{
    lemma_first_rendered(head, Placeholder::Payload, rest, fields);
}

/// `[pdata_id]` is exchanged for the value that is meant for it; what stands before it is kept, and the
/// rest of the template is rendered in the same way.
pub proof fn lemma_pdata_id_in_its_place(head: Seq<char>, rest: Seq<char>, fields: FieldTexts)
    requires
        is_bracket_free(head),
        placeholder_error(rest) is None,
        are_bracket_free(fields),
    ensures
        rendered(head + "[pdata_id]"@ + rest, fields) == head + fields.pdata_id + rendered(rest, fields),
{
    lemma_first_rendered(head, Placeholder::PdataId, rest, fields);
}

/// `[date]` is exchanged for the value that is meant for it; what stands before it is kept, and the
/// rest of the template is rendered in the same way.
pub proof fn lemma_date_in_its_place(head: Seq<char>, rest: Seq<char>, fields: FieldTexts)
    requires
        is_bracket_free(head),
        placeholder_error(rest) is None,
        are_bracket_free(fields),
    ensures
        rendered(head + "[date]"@ + rest, fields) == head + fields.date + rendered(rest, fields),
{
    lemma_first_rendered(head, Placeholder::Date, rest, fields);
}

/// `[year]` is exchanged for the value that is meant for it; what stands before it is kept, and the
/// rest of the template is rendered in the same way.
pub proof fn lemma_year_in_its_place(head: Seq<char>, rest: Seq<char>, fields: FieldTexts)
    requires
        is_bracket_free(head),
        placeholder_error(rest) is None,
        are_bracket_free(fields),
    ensures
        rendered(head + "[year]"@ + rest, fields) == head + fields.year + rendered(rest, fields),
{
    lemma_first_rendered(head, Placeholder::Year, rest, fields);
}

/// `[month]` is exchanged for the value that is meant for it; what stands before it is kept, and the
/// rest of the template is rendered in the same way.
pub proof fn lemma_month_in_its_place(head: Seq<char>, rest: Seq<char>, fields: FieldTexts)
    requires
        is_bracket_free(head),
        placeholder_error(rest) is None,
        are_bracket_free(fields),
    ensures
        rendered(head + "[month]"@ + rest, fields) == head + fields.month + rendered(rest, fields),
{
    lemma_first_rendered(head, Placeholder::Month, rest, fields);
}

/// `[day]` is exchanged for the value that is meant for it; what stands before it is kept, and the
/// rest of the template is rendered in the same way.
pub proof fn lemma_day_in_its_place(head: Seq<char>, rest: Seq<char>, fields: FieldTexts)
    requires
        is_bracket_free(head),
        placeholder_error(rest) is None,
        are_bracket_free(fields),
    ensures
        rendered(head + "[day]"@ + rest, fields) == head + fields.day + rendered(rest, fields),
{
    lemma_first_rendered(head, Placeholder::Day, rest, fields);
}

/// `[hour]` is exchanged for the value that is meant for it; what stands before it is kept, and the
/// rest of the template is rendered in the same way.
pub proof fn lemma_hour_in_its_place(head: Seq<char>, rest: Seq<char>, fields: FieldTexts)
    requires
        is_bracket_free(head),
        placeholder_error(rest) is None,
        are_bracket_free(fields),
    ensures
        rendered(head + "[hour]"@ + rest, fields) == head + fields.hour + rendered(rest, fields),
{
    lemma_first_rendered(head, Placeholder::Hour, rest, fields);
}

/// `[minute]` is exchanged for the value that is meant for it; what stands before it is kept, and the
/// rest of the template is rendered in the same way.
pub proof fn lemma_minute_in_its_place(head: Seq<char>, rest: Seq<char>, fields: FieldTexts)
    requires
        is_bracket_free(head),
        placeholder_error(rest) is None,
        are_bracket_free(fields),
    ensures
        rendered(head + "[minute]"@ + rest, fields) == head + fields.minute + rendered(rest, fields),
{
    lemma_first_rendered(head, Placeholder::Minute, rest, fields);
}

} // verus!
