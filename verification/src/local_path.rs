//! Paths of the local file system: the directory of a file, and the temporary file beside it.

use vstd::prelude::*;
use vstd::string::*;
use vstd::utf8::{decode_utf8, encode_utf8, valid_utf8};

use crate::pdata_id::{id_text, random_id, uuid_text, uuid_version, PdataId};
use crate::text::{append_chars, chars_of};

verus! {

/// A path of the local file system: the names that it is made of, as bytes and from the outermost
/// directory on, and the path as text. The root directory has the name `/`.
#[derive(Debug, PartialEq, Eq)]
pub struct LocalPath {
    /// The names.
    pub components: Vec<Vec<u8>>,
    /// The path as it stands in messages.
    pub display: String,
}

/// The names of a path, and its text.
pub struct LocalPathView {
    pub components: Seq<Seq<u8>>,
    pub display: Seq<char>,
}

impl View for LocalPath {
    type V = LocalPathView;

    open spec fn view(&self) -> LocalPathView {
        LocalPathView { components: names_of(self.components@), display: self.display@ }
    }
}

/// Names as sequences.
pub open spec fn names_of(names: Seq<Vec<u8>>) -> Seq<Seq<u8>> {
    names.map_values(|name: Vec<u8>| name@)
}

/// The name of the root directory.
pub open spec fn root_name() -> Seq<u8> {
    seq![47u8]
}

/// The text without the slashes at its end.
pub open spec fn without_trailing_slashes(text: Seq<char>) -> Seq<char>
    decreases text.len(),
{
    if text.len() > 0 && text.last() == '/' {
        without_trailing_slashes(text.drop_last())
    } else {
        text
    }
}

/// The text up to its last slash, that slash among it.
pub open spec fn up_to_last_slash(text: Seq<char>) -> Seq<char>
    decreases text.len(),
{
    if text.len() > 0 && text.last() != '/' {
        up_to_last_slash(text.drop_last())
    } else {
        text
    }
}

/// The text of the directory of a path.
pub open spec fn parent_text(text: Seq<char>) -> Seq<char> {
    let head = up_to_last_slash(without_trailing_slashes(text));
    let directory = without_trailing_slashes(head);
    if directory.len() == 0 && head.len() > 0 {
        seq!['/']
    } else {
        directory
    }
}

/// The text that stands for the bytes of a name.
pub uninterp spec fn utf8_lossy(name: Seq<u8>) -> Seq<char>;

/// `String::from_utf8_lossy`: the text that stands for bytes, which depends on the bytes alone.
/// Bytes that are UTF-8 stand for what they encode. What others stand for is not spelled out.
#[verifier::external_body]
fn lossy_text(name: &Vec<u8>) -> (text: String)
    ensures
        text@ == utf8_lossy(name@),
        valid_utf8(name@) ==> text@ == decode_utf8(name@),
{
    String::from_utf8_lossy(name).into_owned()
}

/// The temporary name of a file: the name of the file and a UUID, hidden by a dot.
pub open spec fn staging_name(file_name: Seq<char>, id: PdataId) -> Seq<char> {
    "."@ + file_name + "."@ + uuid_text(id.value) + ".tmp"@
}

impl LocalPathView {
    /// The path names a file in a directory: it is neither empty nor the root directory.
    pub open spec fn is_in_directory(self) -> bool {
        self.components.len() > 0 && self.components.last() != root_name()
    }

    /// The directory that a file is in, if the path names one.
    pub open spec fn parent(self) -> Option<LocalPathView> {
        if self.is_in_directory() {
            Some(
                LocalPathView {
                    components: self.components.drop_last(),
                    display: parent_text(self.display),
                },
            )
        } else {
            None
        }
    }

    /// The names of the temporary file that a UUID makes: it is in the directory of the file.
    pub open spec fn staged(self, id: PdataId) -> Seq<Seq<u8>> {
        self.components.drop_last().push(
            encode_utf8(staging_name(utf8_lossy(self.components.last()), id)),
        )
    }
}

/// Copies the first names of a path.
fn first_names(names: &Vec<Vec<u8>>, count: usize) -> (copy: Vec<Vec<u8>>)
    requires
        count <= names@.len(),
    ensures
        names_of(copy@) == names_of(names@).take(count as int),
{
    let mut copy: Vec<Vec<u8>> = Vec::new();
    let mut i: usize = 0;
    while i < count
        invariant
            i <= count <= names@.len(),
            names_of(copy@) == names_of(names@).take(i as int),
        decreases count - i,
    {
        let ghost before = names_of(copy@);
        let name = names[i].clone();
        assert(name@ =~= names@[i as int]@);
        copy.push(name);
        assert(names_of(copy@) =~= before.push(name@));
        assert(names_of(names@).take(i + 1) =~= before.push(names_of(names@)[i as int]));
        i += 1;
    }
    copy
}

/// Returns how much of a text is left without the slashes at its end.
fn end_without_slashes(chars: &Vec<char>, end: usize) -> (left: usize)
    requires
        end <= chars@.len(),
    ensures
        left <= end,
        chars@.take(left as int) == without_trailing_slashes(chars@.take(end as int)),
{
    let mut left: usize = end;
    while left > 0 && chars[left - 1] == '/'
        invariant
            left <= end <= chars@.len(),
            without_trailing_slashes(chars@.take(left as int)) == without_trailing_slashes(
                chars@.take(end as int),
            ),
        decreases left,
    {
        assert(chars@.take(left as int).drop_last() =~= chars@.take(left - 1));
        left -= 1;
    }
    left
}

/// Returns the text of the directory of a path.
fn directory_text(text: &str) -> (directory: String)
    ensures
        directory@ == parent_text(text@),
{
    let chars = chars_of(text);
    assert(chars@.take(chars@.len() as int) =~= text@);
    let end = end_without_slashes(&chars, chars.len());
    let mut head: usize = end;
    while head > 0 && chars[head - 1] != '/'
        invariant
            head <= end <= chars@.len(),
            up_to_last_slash(chars@.take(head as int)) == up_to_last_slash(
                chars@.take(end as int),
            ),
        decreases head,
    {
        assert(chars@.take(head as int).drop_last() =~= chars@.take(head - 1));
        head -= 1;
    }
    let directory = end_without_slashes(&chars, head);
    let mut out = String::new();
    if directory == 0 && head > 0 {
        out.push('/');
        assert(out@ =~= seq!['/']);
    } else {
        append_chars(&mut out, &chars, 0, directory);
        assert(out@ =~= chars@.take(directory as int));
    }
    out
}

impl LocalPath {
    /// Returns whether the path names a file in a directory.
    pub fn is_in_directory(&self) -> (inside: bool)
        ensures
            inside == self@.is_in_directory(),
    {
        let count = self.components.len();
        if count == 0 {
            return false;
        }
        let name = &self.components[count - 1];
        assert(self@.components.last() == name@);
        let is_root = name.len() == 1 && name[0] == 47;
        assert(is_root ==> name@ =~= root_name());
        assert(!is_root ==> name@ != root_name()) by {
            if name@ == root_name() {
                assert(name@.len() == 1 && name@[0] == 47);
            }
        }
        !is_root
    }

    /// Returns the directory that the file is in, if the path names one.
    pub fn parent(&self) -> (parent: Option<LocalPath>)
        ensures
            match (parent, self@.parent()) {
                (Some(directory), Some(expected)) => directory@ == expected,
                (None, None) => true,
                _ => false,
            },
    {
        if !self.is_in_directory() {
            return None;
        }
        let components = first_names(&self.components, self.components.len() - 1);
        let display = directory_text(self.display.as_str());
        assert(names_of(components@) =~= self@.components.drop_last());
        Some(LocalPath { components, display })
    }

    /// Returns the names of the temporary file that a UUID makes.
    pub fn staged_file(&self, id: PdataId) -> (names: Vec<Vec<u8>>)
        requires
            self@.is_in_directory(),
        ensures
            names_of(names@) == self@.staged(id),
    {
        let last: usize = self.components.len() - 1;
        let file_name = lossy_text(&self.components[last]);
        assert(self@.components.last() == self.components@[last as int]@);
        let mut name = ".".to_owned();
        name.append(file_name.as_str());
        name.append(".");
        let id_name = id_text(id);
        name.append(id_name.as_str());
        name.append(".tmp");
        let mut names = first_names(&self.components, last);
        let ghost before = names_of(names@);
        let bytes = name.as_str().as_bytes_vec();
        names.push(bytes);
        assert(names_of(names@) =~= before.push(bytes@));
        assert(before =~= self@.components.drop_last());
        names
    }

    /// Returns the names of a temporary file, with a random UUID. Which one it is is left open.
    pub fn staging_path(&self) -> (names: Vec<Vec<u8>>)
        requires
            self@.is_in_directory(),
        ensures
            exists|id: PdataId|
                uuid_version(id.value) == 4 && names_of(names@) == #[trigger] self@.staged(id),
    {
        self.staged_file(random_id())
    }
}

/// A text whose UTF-8 form is the name of the root directory is a slash.
pub proof fn lemma_root_name(text: Seq<char>)
    requires
        encode_utf8(text) == root_name(),
    ensures
        text == seq!['/'],
{
    let slash = seq!['/'];
    assert(encode_utf8(slash) =~= root_name()) by {
        assert(vstd::utf8::is_ascii_chars(slash));
        vstd::utf8::is_ascii_chars_encode_utf8(slash);
    }
    vstd::utf8::encode_utf8_decode_utf8(text);
    vstd::utf8::encode_utf8_decode_utf8(slash);
}

/// The temporary file of a file stands beside it: it is in the same directory, under a name that
/// starts with a dot.
pub proof fn lemma_staged_beside_destination(
    destination: LocalPathView,
    id: PdataId,
    staged: LocalPathView,
)
    requires
        destination.is_in_directory(),
        staged.components == destination.staged(id),
    ensures
        staged.is_in_directory(),
        staged.parent() is Some,
        (staged.parent()->0).components == (destination.parent()->0).components,
        decode_utf8(staged.components.last()).len() > 0,
        decode_utf8(staged.components.last())[0] == '.',
{
    let name = staging_name(utf8_lossy(destination.components.last()), id);
    reveal_strlit(".");
    assert(name[0] == '.');
    assert(staged.components.last() == encode_utf8(name));
    vstd::utf8::encode_utf8_decode_utf8(name);
    if encode_utf8(name) == root_name() {
        lemma_root_name(name);
    }
    assert(staged.components.drop_last() =~= destination.components.drop_last());
}

} // verus!
