//! Object-store paths: which texts name an object, and the path that a text stands for.

use vstd::prelude::*;

verus! {

/// An ASCII control character.
pub open spec fn is_control(c: char) -> bool {
    c as u32 <= 31 || c as u32 == 127
}

/// The pieces between the slashes of a text. There is one more piece than there are slashes.
pub open spec fn segments(path: Seq<char>) -> Seq<Seq<char>>
    decreases path.len(),
{
    if path.len() == 0 {
        seq![path]
    } else if path.last() == '/' {
        segments(path.drop_last()).push(Seq::empty())
    } else {
        let before = segments(path.drop_last());
        before.drop_last().push(before.last().push(path.last()))
    }
}

/// A piece that may stand in an object path: it is not empty, it is not a step within the
/// directory tree (`.` or `..`), and it has no control characters.
pub open spec fn is_segment(segment: Seq<char>) -> bool {
    &&& segment.len() > 0
    &&& segment != seq!['.']
    &&& segment != seq!['.', '.']
    &&& forall|i: int| 0 <= i < segment.len() ==> !is_control(#[trigger] segment[i])
}

/// Every piece is a valid one.
pub open spec fn all_segments(pieces: Seq<Seq<char>>) -> bool {
    forall|i: int| 0 <= i < pieces.len() ==> is_segment(#[trigger] pieces[i])
}

/// The text without one leading slash.
pub open spec fn without_leading_slash(path: Seq<char>) -> Seq<char> {
    if path.len() > 0 && path.first() == '/' {
        path.skip(1)
    } else {
        path
    }
}

/// The text without one trailing slash.
pub open spec fn without_trailing_slash(path: Seq<char>) -> Seq<char> {
    if path.len() > 0 && path.last() == '/' {
        path.drop_last()
    } else {
        path
    }
}

/// The path that a text stands for: the text without one leading and one trailing slash.
pub open spec fn object_path(path: Seq<char>) -> Seq<char> {
    without_trailing_slash(without_leading_slash(path))
}

/// Whether a text stands for an object path. Nothing at all, or a single slash, stands for the
/// root; of any other text every piece has to be a valid one.
pub open spec fn is_object_path(path: Seq<char>) -> bool {
    ||| without_leading_slash(path).len() == 0
    ||| all_segments(segments(object_path(path)))
}

/// A text that stands for an object path and is that path: it has no slash at either end.
pub open spec fn is_location(path: Seq<char>) -> bool {
    is_object_path(path) && object_path(path) == path
}

/// The message of the error that `object_store::path::Path::parse` returns for a text that it
/// rejects.
pub uninterp spec fn object_path_error(path: Seq<char>) -> Seq<char>;

/// `object_store::path::Path::parse`: accepts exactly the texts of [`is_object_path`] and returns
/// the path as text; the error is returned as its message, which depends on the text alone and
/// which is not spelled out.
#[verifier::external_body]
pub(crate) fn parse_object_path(path: &str) -> (parsed: Result<String, String>)
    ensures
        parsed is Ok <==> is_object_path(path@),
        parsed matches Ok(location) ==> location@ == object_path(path@),
        parsed matches Err(message) ==> message@ == object_path_error(path@),
{
    match object_store::path::Path::parse(path) {
        Ok(location) => Ok(location.to_string()),
        Err(error) => Err(error.to_string()),
    }
}

/// How far a piece of a path has been read.
pub enum Reading {
    /// Nothing of the piece has been read.
    Nothing,
    /// A single dot has been read.
    Dot,
    /// Two dots have been read.
    TwoDots,
    /// What has been read makes a valid piece, whatever follows before the next slash.
    Named,
    /// A piece that may not stand in a path has been read.
    Invalid,
}

/// Reads one more character of a path.
pub open spec fn read_char(reading: Reading, c: char) -> Reading {
    if reading is Invalid || is_control(c) {
        Reading::Invalid
    } else if c == '/' {
        if reading is Named {
            Reading::Nothing
        } else {
            Reading::Invalid
        }
    } else if c == '.' {
        match reading {
            Reading::Nothing => Reading::Dot,
            Reading::Dot => Reading::TwoDots,
            _ => Reading::Named,
        }
    } else {
        Reading::Named
    }
}

/// Reads a text, character by character, starting from `reading`.
pub open spec fn read(reading: Reading, text: Seq<char>) -> Reading
    decreases text.len(),
{
    if text.len() == 0 {
        reading
    } else {
        read_char(read(reading, text.drop_last()), text.last())
    }
}

/// Reading two texts one after the other is reading them joined.
pub proof fn lemma_read_joined(reading: Reading, left: Seq<char>, right: Seq<char>)
    ensures
        read(reading, left + right) == read(read(reading, left), right),
    decreases right.len(),
{
    if right.len() == 0 {
        assert(left + right =~= left);
    } else {
        assert((left + right).drop_last() =~= left + right.drop_last());
        lemma_read_joined(reading, left, right.drop_last());
    }
}

/// A control character occurs in the text.
pub open spec fn has_control(text: Seq<char>) -> bool {
    exists|i: int| 0 <= i < text.len() && is_control(#[trigger] text[i])
}

/// What reading a text from the start says of the pieces of the text: the last one is as far as
/// the reading says, and those before it are valid.
proof fn lemma_reading_of_segments(text: Seq<char>)
    ensures
        segments(text).len() > 0,
        ({
            let earlier = segments(text).drop_last();
            let last = segments(text).last();
            match read(Reading::Nothing, text) {
                Reading::Nothing => all_segments(earlier) && last.len() == 0,
                Reading::Dot => all_segments(earlier) && last == seq!['.'],
                Reading::TwoDots => all_segments(earlier) && last == seq!['.', '.'],
                Reading::Named => all_segments(earlier) && is_segment(last),
                Reading::Invalid => !all_segments(earlier) || has_control(last),
            }
        }),
    decreases text.len(),
{
    if text.len() > 0 {
        let shorter = text.drop_last();
        lemma_reading_of_segments(shorter);
        let before = segments(shorter);
        let pieces = segments(text);
        let c = text.last();
        let old_last = before.last();
        let last = pieces.last();
        let reading = read(Reading::Nothing, shorter);
        if c == '/' {
            assert(pieces.drop_last() =~= before);
            assert(before =~= before.drop_last().push(old_last));
            assert(all_segments(before) ==> all_segments(before.drop_last()) && is_segment(old_last)) by {
                if all_segments(before) {
                    assert(is_segment(before[before.len() - 1]));
                    assert forall|i: int| 0 <= i < before.drop_last().len() implies is_segment(
                        #[trigger] before.drop_last()[i],
                    ) by {
                        assert(is_segment(before[i]));
                    }
                }
            }
            if reading is Named {
                assert(all_segments(before));
            } else if reading is Invalid {
                if has_control(old_last) {
                    assert(!is_segment(old_last));
                }
            } else {
                assert(!is_segment(old_last));
            }
        } else {
            assert(pieces.drop_last() =~= before.drop_last());
            assert(last =~= old_last.push(c));
            assert(last[last.len() - 1] == c);
            if has_control(old_last) {
                let i = choose|i: int| 0 <= i < old_last.len() && is_control(#[trigger] old_last[i]);
                assert(last[i] == old_last[i]);
                assert(has_control(last));
            }
            if is_control(c) {
                assert(has_control(last));
            } else if !(reading is Invalid) {
                assert forall|i: int| 0 <= i < last.len() implies !is_control(#[trigger] last[i]) by {
                    if i < old_last.len() {
                        assert(last[i] == old_last[i]);
                    }
                }
                match reading {
                    Reading::Nothing => {
                        assert(last =~= seq![c]);
                        assert(seq!['.'][0] == '.');
                        assert(last.len() != seq!['.', '.'].len());
                    },
                    Reading::Dot => {
                        assert(last =~= seq!['.', c]);
                        assert(last[1] == c);
                        assert(seq!['.', '.'][1] == '.');
                        assert(last.len() != seq!['.'].len());
                    },
                    Reading::TwoDots => {
                        assert(last.len() == 3);
                        assert(is_segment(last));
                    },
                    _ => {
                        assert(last[0] == old_last[0]);
                        if last.len() == 2 {
                            assert(old_last =~= seq![old_last[0]]);
                            assert(seq!['.', '.'][0] == '.');
                        }
                        assert(last.len() >= 2);
                        assert(is_segment(last));
                    },
                }
            }
        }
    }
}

/// A text that reads as valid stands for itself as an object path.
pub proof fn lemma_read_object_path(text: Seq<char>)
    ensures
        read(Reading::Nothing, text) is Named ==> is_object_path(text) && object_path(text) == text,
{
    if read(Reading::Nothing, text) is Named {
        assert(text.len() > 0);
        assert(text.last() != '/');
        if text.first() == '/' {
            let rest = text.skip(1);
            assert(text =~= seq!['/'] + rest);
            lemma_read_joined(Reading::Nothing, seq!['/'], rest);
            assert(seq!['/'].drop_last() =~= Seq::<char>::empty());
            assert(read(Reading::Nothing, Seq::<char>::empty()) is Nothing);
            assert(read(Reading::Nothing, seq!['/']) is Invalid);
            lemma_read_invalid(rest);
            assert(false);
        }
        lemma_reading_of_segments(text);
        let pieces = segments(text);
        assert forall|i: int| 0 <= i < pieces.len() implies is_segment(#[trigger] pieces[i]) by {
            if i < pieces.len() - 1 {
                assert(pieces.drop_last()[i] == pieces[i]);
            }
        }
    }
}

/// An object path that neither starts nor ends with a slash reads as valid.
pub proof fn lemma_object_path_read(text: Seq<char>)
    requires
        text.len() > 0,
        text.first() != '/',
        text.last() != '/',
    ensures
        is_object_path(text) ==> read(Reading::Nothing, text) is Named,
{
    lemma_reading_of_segments(text);
    if is_object_path(text) {
        let pieces = segments(text);
        assert(object_path(text) == text);
        assert(is_segment(pieces[pieces.len() - 1]));
        assert forall|i: int| 0 <= i < pieces.drop_last().len() implies is_segment(
            #[trigger] pieces.drop_last()[i],
        ) by {
            assert(is_segment(pieces[i]));
        }
    }
}

/// Once something invalid has been read, the reading stays invalid.
pub proof fn lemma_read_invalid(text: Seq<char>)
    ensures
        read(Reading::Invalid, text) is Invalid,
    decreases text.len(),
{
    if text.len() > 0 {
        lemma_read_invalid(text.drop_last());
    }
}

} // verus!
