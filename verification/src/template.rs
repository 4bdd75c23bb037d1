//! Object path templates.

use vstd::prelude::*;
use vstd::string::*;

use crate::object_path::{
    all_segments, is_object_path, lemma_object_path_read, lemma_read_joined, lemma_read_object_path, object_path,
    object_path_error, parse_object_path, read, segments, Reading,
};
use crate::placeholder::{
    are_clean, filled, is_bracket_free, joined, parse_placeholders, placeholder_error, render,
    rendered, template_text, token_text, tokens, FieldTexts, FieldValues, Placeholder, Token,
};
use crate::rendering::{
    are_bracket_free, are_values, is_value, is_value_char, lemma_clean_template, lemma_ending_kept,
    lemma_no_backslash, lemma_patterns_are_names, lemma_read_any_names, lemma_read_value,
    lemma_rendered_at_once, lemma_start_kept, lemma_template_is_joined_patterns, lemma_tokens,
    lemma_values_are_names, pattern_texts,
};
use crate::text::{chars_of, find_from, stands_at};

verus! {

/// Default object path template.
pub const DEFAULT_OBJECT_PATH_TEMPLATE: &'static str =
    "otap/v1/signal=[signal]/payload=[payload]/date=[date]/hour=[hour]/[pdata_id].arrow";

/// The values that a template is tried out with.
pub open spec fn example_texts() -> FieldTexts {
    FieldTexts {
        signal: "logs"@,
        payload: "resource_attrs"@,
        pdata_id: "019f9bd8-0446-78f0-b8b9-c662301b9876"@,
        date: "2026-07-26"@,
        year: "2026"@,
        month: "07"@,
        day: "26"@,
        hour: "00"@,
        minute: "34"@,
    }
}

/// Why a template is rejected, if it is. The reasons are looked for in this order: the template
/// is empty, it is not relative, it holds a backslash, it does not end in `.arrow`, its brackets
/// are not in order, or the path that it makes of the example values is not an object path.
pub open spec fn template_error(template: Seq<char>) -> Option<Seq<char>> {
    if template.len() == 0 {
        Some("object path template cannot be empty"@)
    } else if template[0] == '/' || template[0] == '\\' {
        Some("object path template must be relative"@)
    } else if template.contains('\\') {
        Some("object path template cannot contain backslashes"@)
    } else if !".arrow"@.is_suffix_of(template) {
        Some("object path template must end with .arrow"@)
    } else if placeholder_error(template) is Some {
        placeholder_error(template)
    } else if !is_object_path(rendered(template, example_texts())) {
        Some(
            "object path template produces an invalid path: "@ + object_path_error(
                rendered(template, example_texts()),
            ),
        )
    } else {
        None
    }
}

/// Validated template used to construct an object path for each Arrow payload.
#[derive(Debug, PartialEq, Eq)]
pub struct ObjectPathTemplate(String);

impl View for ObjectPathTemplate {
    type V = Seq<char>;

    closed spec fn view(&self) -> Seq<char> {
        self.0@
    }
}

impl ObjectPathTemplate {
    /// Only accepted templates are held.
    #[verifier::type_invariant]
    spec fn is_accepted(self) -> bool {
        template_error(self.0@) is None
    }

    /// Parses and validates an object path template.
    ///
    /// # Errors
    ///
    /// Returns an error when the template contains unsupported placeholders, or cannot produce a
    /// safe object-store path.
    pub fn parse(template: &str) -> (parsed: Result<Self, String>)
        ensures
            match parsed {
                Ok(accepted) => template_error(template@) is None && accepted@ == template@,
                Err(message) => template_error(template@) == Some(message@),
            },
    {
        match validate_template(template) {
            Ok(_) => Ok(ObjectPathTemplate(template.to_owned())),
            Err(message) => Err(message),
        }
    }

    /// Returns the original validated template.
    pub fn as_str(&self) -> (template: &str)
        ensures
            template@ == self@,
            template_error(template@) is None,
    {
        proof {
            use_type_invariant(&*self);
        }
        self.0.as_str()
    }
}

impl Clone for ObjectPathTemplate {
    fn clone(&self) -> (copy: Self)
        ensures
            copy@ == self@,
    {
        proof {
            use_type_invariant(&*self);
        }
        ObjectPathTemplate(self.0.clone())
    }
}

impl Default for ObjectPathTemplate {
    fn default() -> (template: Self)
        ensures
            template@ == DEFAULT_OBJECT_PATH_TEMPLATE@,
    {
        proof {
            lemma_default_template();
        }
        ObjectPathTemplate(DEFAULT_OBJECT_PATH_TEMPLATE.to_owned())
    }
}

/// Fills the example values into a template.
pub fn render_example(template: &str) -> (path: String)
    ensures
        path@ == rendered(template@, example_texts()),
{
    let values = FieldValues {
        signal: "logs".to_owned(),
        payload: "resource_attrs".to_owned(),
        pdata_id: "019f9bd8-0446-78f0-b8b9-c662301b9876".to_owned(),
        date: "2026-07-26".to_owned(),
        year: "2026".to_owned(),
        month: "07".to_owned(),
        day: "26".to_owned(),
        hour: "00".to_owned(),
        minute: "34".to_owned(),
    };
    render(template, &values)
}

/// Checks a template.
pub fn validate_template(template: &str) -> (checked: Result<(), String>)
    ensures
        match checked {
            Ok(_) => template_error(template@) is None,
            Err(message) => template_error(template@) == Some(message@),
        },
{
    let chars = chars_of(template);
    if chars.len() == 0 {
        return Err("object path template cannot be empty".to_owned());
    }
    if chars[0] == '/' || chars[0] == '\\' {
        return Err("object path template must be relative".to_owned());
    }
    let backslash = find_from(&chars, 0, '\\');
    if backslash < chars.len() {
        assert(template@[backslash as int] == '\\');
        return Err("object path template cannot contain backslashes".to_owned());
    }
    let ending = chars_of(".arrow");
    if ending.len() > chars.len() || !stands_at(&chars, chars.len() - ending.len(), &ending) {
        proof {
            if ".arrow"@.is_suffix_of(template@) {
                let start = template@.len() - ".arrow"@.len();
                assert(".arrow"@ =~= template@.skip(start).subrange(0, ".arrow"@.len() as int));
            }
        }
        return Err("object path template must end with .arrow".to_owned());
    }
    proof {
        let start = template@.len() - ".arrow"@.len();
        assert(".arrow"@ =~= template@.subrange(start, template@.len() as int)) by {
            assert(template@.skip(start).subrange(0, ".arrow"@.len() as int) =~= template@.subrange(
                start,
                template@.len() as int,
            ));
        }
    }
    match parse_placeholders(template) {
        Ok(_) => {},
        Err(message) => {
            return Err(message);
        },
    }
    let example_path = render_example(template);
    match parse_object_path(example_path.as_str()) {
        Ok(_) => Ok(()),
        Err(source) => {
            let mut message = "object path template produces an invalid path: ".to_owned();
            message.append(source.as_str());
            Err(message)
        },
    }
}

/// The example values may stand in a path.
proof fn lemma_example_values()
    ensures
        are_values(example_texts()),
{
    reveal_strlit("logs");
    reveal_strlit("resource_attrs");
    reveal_strlit("019f9bd8-0446-78f0-b8b9-c662301b9876");
    reveal_strlit("2026-07-26");
    reveal_strlit("2026");
    reveal_strlit("07");
    reveal_strlit("26");
    reveal_strlit("00");
    reveal_strlit("34");
    assert forall|placeholder: Placeholder| is_value(
        #[trigger] example_texts().value(placeholder),
    ) by {
        match placeholder {
            Placeholder::Signal => {},
            _ => {},
        }
    }
}

/// Values that may stand in a path have no brackets.
pub proof fn lemma_values_bracket_free(fields: FieldTexts)
    requires
        are_values(fields),
    ensures
        are_bracket_free(fields),
{
    assert forall|placeholder: Placeholder| is_bracket_free(
        #[trigger] fields.value(placeholder),
    ) by {
        let value = fields.value(placeholder);
        assert(is_value(value));
        assert forall|i: int| 0 <= i < value.len() implies #[trigger] value[i] != '[' && value[i] != ']' by {
            assert(is_value_char(value[i]));
        }
    }
}

/// A validated template makes an object path of any values, not only of the example: the pieces
/// of the template are joined with the values in place of the placeholders, and the result is a
/// valid relative path that keeps the ending of the template. In particular no values lead out of
/// the directory tree.
pub proof fn lemma_accepted_template_renders(template: Seq<char>, fields: FieldTexts)
    requires
        template_error(template) is None,
        are_values(fields),
    ensures
        rendered(template, fields) == joined(tokens(template), fields),
        is_object_path(rendered(template, fields)),
        object_path(rendered(template, fields)) == rendered(template, fields),
        ".arrow"@.is_suffix_of(rendered(template, fields)),
        !rendered(template, fields).contains('\\'),
{
    let pieces = tokens(template);
    let example = example_texts();
    lemma_tokens(template);
    lemma_example_values();
    lemma_values_bracket_free(fields);
    lemma_values_bracket_free(example);
    lemma_rendered_at_once(pieces, fields);
    lemma_rendered_at_once(pieces, example);
    reveal_strlit(".arrow");
    lemma_ending_kept(pieces, fields, ".arrow"@);
    lemma_ending_kept(pieces, example, ".arrow"@);
    lemma_start_kept(pieces, example);
    lemma_no_backslash(pieces, fields);
    let example_path = joined(pieces, example);
    assert(example_path.last() == ".arrow"@.last());
    lemma_object_path_read(example_path);
    lemma_values_are_names(example);
    lemma_values_are_names(fields);
    lemma_read_any_names(Reading::Nothing, pieces, example, fields);
    lemma_read_object_path(joined(pieces, fields));
}

/// Which templates are accepted: those that end in `.arrow`, are relative, hold no backslash, have
/// their brackets in order and are made of valid pieces between their slashes.
pub proof fn lemma_accepted_templates(template: Seq<char>)
    ensures
        template_error(template) is None <==> {
            &&& ".arrow"@.is_suffix_of(template)
            &&& template[0] != '/'
            &&& !template.contains('\\')
            &&& placeholder_error(template) is None
            &&& all_segments(segments(template))
        },
{
    reveal_strlit(".arrow");
    if ".arrow"@.is_suffix_of(template) && template[0] != '/' && !template.contains('\\')
        && placeholder_error(template) is None {
        assert(template.last() == ".arrow"@.last());
        assert(template.contains(template[0]));
        let pieces = tokens(template);
        let example = example_texts();
        let path = joined(pieces, example);
        lemma_tokens(template);
        lemma_example_values();
        lemma_values_bracket_free(example);
        lemma_rendered_at_once(pieces, example);
        lemma_ending_kept(pieces, example, ".arrow"@);
        lemma_start_kept(pieces, example);
        assert(path.last() == ".arrow"@.last());
        lemma_values_are_names(example);
        lemma_patterns_are_names();
        lemma_template_is_joined_patterns(pieces);
        lemma_read_any_names(Reading::Nothing, pieces, example, pattern_texts());
        lemma_object_path_read(path);
        lemma_read_object_path(path);
        lemma_object_path_read(template);
        lemma_read_object_path(template);
    }
}

/// The pieces of the default template.
pub open spec fn default_pieces() -> Seq<Token> {
    seq![
        Token::Literal("otap/v1/signal="@),
        Token::Slot(Placeholder::Signal),
        Token::Literal("/payload="@),
        Token::Slot(Placeholder::Payload),
        Token::Literal("/date="@),
        Token::Slot(Placeholder::Date),
        Token::Literal("/hour="@),
        Token::Slot(Placeholder::Hour),
        Token::Literal("/"@),
        Token::Slot(Placeholder::PdataId),
        Token::Literal(".arrow"@),
    ]
}

/// The text of pieces from a position on.
proof fn lemma_template_text_from(pieces: Seq<Token>, from: int)
    requires
        0 <= from < pieces.len(),
    ensures
        template_text(pieces.skip(from)) == token_text(pieces[from]) + template_text(
            pieces.skip(from + 1),
        ),
{
    assert(pieces.skip(from).skip(1) =~= pieces.skip(from + 1));
}

/// The joined pieces from a position on.
proof fn lemma_joined_from(pieces: Seq<Token>, fields: FieldTexts, from: int)
    requires
        0 <= from < pieces.len(),
    ensures
        joined(pieces.skip(from), fields) == filled(pieces[from], fields) + joined(
            pieces.skip(from + 1),
            fields,
        ),
{
    assert(pieces.skip(from).skip(1) =~= pieces.skip(from + 1));
}

/// The path that the default template makes.
pub open spec fn default_path(fields: FieldTexts) -> Seq<char> {
    "otap/v1/signal="@ + fields.signal + "/payload="@ + fields.payload + "/date="@ + fields.date
        + "/hour="@ + fields.hour + "/"@ + fields.pdata_id + ".arrow"@
}

/// The default template is made of its pieces, and it makes the default path of them.
pub proof fn lemma_default_pieces(fields: FieldTexts)
    ensures
        template_text(default_pieces()) == DEFAULT_OBJECT_PATH_TEMPLATE@,
        joined(default_pieces(), fields) == default_path(fields),
        are_clean(default_pieces()),
{
    let pieces = default_pieces();
    reveal_strlit("otap/v1/signal=[signal]/payload=[payload]/date=[date]/hour=[hour]/[pdata_id].arrow");
    reveal_strlit("otap/v1/signal=");
    reveal_strlit("/payload=");
    reveal_strlit("/date=");
    reveal_strlit("/hour=");
    reveal_strlit("/");
    reveal_strlit(".arrow");
    reveal_strlit("[signal]");
    reveal_strlit("[payload]");
    reveal_strlit("[date]");
    reveal_strlit("[hour]");
    reveal_strlit("[pdata_id]");
    assert(pieces.skip(0) =~= pieces);
    assert(pieces.skip(11) =~= Seq::<Token>::empty());
    lemma_template_text_from(pieces, 0);
    lemma_template_text_from(pieces, 1);
    lemma_template_text_from(pieces, 2);
    lemma_template_text_from(pieces, 3);
    lemma_template_text_from(pieces, 4);
    lemma_template_text_from(pieces, 5);
    lemma_template_text_from(pieces, 6);
    lemma_template_text_from(pieces, 7);
    lemma_template_text_from(pieces, 8);
    lemma_template_text_from(pieces, 9);
    lemma_template_text_from(pieces, 10);
    assert(template_text(pieces) =~= "otap/v1/signal=[signal]/payload=[payload]/date=[date]/hour=[hour]/[pdata_id].arrow"@);
    lemma_joined_from(pieces, fields, 0);
    lemma_joined_from(pieces, fields, 1);
    lemma_joined_from(pieces, fields, 2);
    lemma_joined_from(pieces, fields, 3);
    lemma_joined_from(pieces, fields, 4);
    lemma_joined_from(pieces, fields, 5);
    lemma_joined_from(pieces, fields, 6);
    lemma_joined_from(pieces, fields, 7);
    lemma_joined_from(pieces, fields, 8);
    lemma_joined_from(pieces, fields, 9);
    lemma_joined_from(pieces, fields, 10);
    assert(joined(pieces, fields) =~= default_path(fields));
}

/// Reading a slash and then a piece of a path ends in a valid piece.
proof fn lemma_read_next_piece(text: Seq<char>)
    requires
        text.len() > 1,
        text[0] == '/',
        is_value(text.skip(1)),
    ensures
        read(Reading::Named, text) is Named,
{
    let rest = text.skip(1);
    let slash = seq!['/'];
    assert(text =~= slash + rest);
    assert(slash.drop_last() =~= Seq::<char>::empty());
    assert(read(Reading::Named, slash.drop_last()) is Named);
    assert(read(Reading::Named, slash) is Nothing);
    lemma_read_joined(Reading::Named, slash, rest);
    lemma_read_value(Reading::Nothing, rest);
}

/// The path that the default template makes of values is an object path.
proof fn lemma_default_path_read(fields: FieldTexts)
    requires
        are_values(fields),
    ensures
        read(Reading::Nothing, default_path(fields)) is Named,
{
    reveal_strlit("otap/v1/signal=");
    reveal_strlit("/payload=");
    reveal_strlit("/date=");
    reveal_strlit("/hour=");
    reveal_strlit("/");
    reveal_strlit(".arrow");
    assert(is_value(fields.value(Placeholder::Signal)));
    assert(is_value(fields.value(Placeholder::Payload)));
    assert(is_value(fields.value(Placeholder::Date)));
    assert(is_value(fields.value(Placeholder::Hour)));
    assert(is_value(fields.value(Placeholder::PdataId)));
    let root = seq!['o', 't', 'a', 'p'];
    let version = seq!['/', 'v', '1'];
    let signal_key = seq!['/', 's', 'i', 'g', 'n', 'a', 'l', '='];
    assert("otap/v1/signal="@ =~= root + version + signal_key);
    assert(is_value(root));
    lemma_read_value(Reading::Nothing, root);
    assert(version.skip(1) =~= seq!['v', '1']);
    assert(is_value(version.skip(1)));
    lemma_read_next_piece(version);
    lemma_read_joined(Reading::Nothing, root, version);
    assert(signal_key.skip(1) =~= seq!['s', 'i', 'g', 'n', 'a', 'l', '=']);
    assert(is_value(signal_key.skip(1)));
    lemma_read_next_piece(signal_key);
    lemma_read_joined(Reading::Nothing, root + version, signal_key);
    let signal = "otap/v1/signal="@ + fields.signal;
    lemma_read_value(Reading::Named, fields.signal);
    lemma_read_joined(Reading::Nothing, "otap/v1/signal="@, fields.signal);
    assert("/payload="@.skip(1) =~= seq!['p', 'a', 'y', 'l', 'o', 'a', 'd', '=']);
    lemma_read_next_piece("/payload="@);
    lemma_read_joined(Reading::Nothing, signal, "/payload="@);
    let payload = signal + "/payload="@ + fields.payload;
    lemma_read_value(Reading::Named, fields.payload);
    lemma_read_joined(Reading::Nothing, signal + "/payload="@, fields.payload);
    assert("/date="@.skip(1) =~= seq!['d', 'a', 't', 'e', '=']);
    lemma_read_next_piece("/date="@);
    lemma_read_joined(Reading::Nothing, payload, "/date="@);
    let date = payload + "/date="@ + fields.date;
    lemma_read_value(Reading::Named, fields.date);
    lemma_read_joined(Reading::Nothing, payload + "/date="@, fields.date);
    assert("/hour="@.skip(1) =~= seq!['h', 'o', 'u', 'r', '=']);
    lemma_read_next_piece("/hour="@);
    lemma_read_joined(Reading::Nothing, date, "/hour="@);
    let hour = date + "/hour="@ + fields.hour;
    lemma_read_value(Reading::Named, fields.hour);
    lemma_read_joined(Reading::Nothing, date + "/hour="@, fields.hour);
    let last = "/"@ + fields.pdata_id;
    assert(last.skip(1) =~= fields.pdata_id);
    lemma_read_next_piece(last);
    lemma_read_joined(Reading::Nothing, hour, last);
    assert(hour + last =~= hour + "/"@ + fields.pdata_id);
    let dot = seq!['.'];
    let ending = seq!['a', 'r', 'r', 'o', 'w'];
    assert(".arrow"@ =~= dot + ending);
    assert(dot.drop_last() =~= Seq::<char>::empty());
    assert(read(Reading::Named, dot.drop_last()) is Named);
    assert(read(Reading::Named, dot) is Named);
    assert(is_value(ending));
    lemma_read_value(Reading::Named, ending);
    lemma_read_joined(Reading::Named, dot, ending);
    lemma_read_joined(Reading::Nothing, hour + last, ".arrow"@);
}

/// The default template is accepted.
pub proof fn lemma_default_template()
    ensures
        template_error(DEFAULT_OBJECT_PATH_TEMPLATE@) is None,
{
    let template = DEFAULT_OBJECT_PATH_TEMPLATE@;
    let pieces = default_pieces();
    let example = example_texts();
    lemma_default_pieces(example);
    lemma_example_values();
    lemma_values_bracket_free(example);
    lemma_clean_template(pieces);
    lemma_rendered_at_once(pieces, example);
    lemma_default_path_read(example);
    lemma_read_object_path(default_path(example));
    reveal_strlit("otap/v1/signal=[signal]/payload=[payload]/date=[date]/hour=[hour]/[pdata_id].arrow");
    reveal_strlit(".arrow");
    assert(".arrow"@ =~= template.subrange(
        template.len() - ".arrow"@.len(),
        template.len() as int,
    ));
    assert(!template.contains('\\'));
}

} // verus!
