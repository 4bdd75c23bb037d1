//! Files behind object paths in a local directory.

use object_store::local::LocalFileSystem;
use vstd::prelude::*;
use vstd::utf8::encode_utf8;

use crate::local::LocalProgress;
use crate::local_path::{lemma_root_name, root_name, LocalPath, LocalPathView};
use crate::object_path::{is_location, segments};
use crate::placeholder::first_at;

verus! {

/// `object_store::local::LocalFileSystem`: a local directory as an object store.
#[verifier::external_type_specification]
#[verifier::external_body]
pub struct ExLocalFileSystem(LocalFileSystem);

/// The names of the directory that an object store holds its objects below. There are none if the
/// directory has no path on the platform.
pub uninterp spec fn file_system_root(file_system: LocalFileSystem) -> Seq<Seq<u8>>;

/// The file of an object, or the message of the error for an object that has no file.
pub uninterp spec fn file_path(file_system: LocalFileSystem, location: Seq<char>) -> Result<
    LocalPathView,
    Seq<char>,
>;

/// A character that is an ASCII figure.
pub open spec fn is_figure(c: char) -> bool {
    '0' <= c <= '9'
}

/// An object path that can have a file. One whose name is a hash and figures behind other text
/// cannot: such names are kept for files that are being written.
pub open spec fn is_file_location(location: Seq<char>) -> bool {
    let name = segments(location).last();
    let hash = first_at(name, '#') as int;
    let suffix = name.skip(hash + 1);
    &&& location.len() > 0
    &&& hash + 1 < name.len() ==> exists|i: int|
        0 <= i < suffix.len() && !is_figure(#[trigger] suffix[i])
}

/// An object path without the characters that file paths of some platforms treat on their own.
pub open spec fn is_plain_location(location: Seq<char>) -> bool {
    !location.contains(':') && !location.contains('|') && !location.contains('\\')
}

/// The names that an object path is made of, as bytes.
pub open spec fn location_names(location: Seq<char>) -> Seq<Seq<u8>> {
    segments(location).map_values(|segment: Seq<char>| encode_utf8(segment))
}

/// `object_store::local::LocalFileSystem::path_to_filesystem`: the file of an object, as a path.
/// The result depends on the object store and on the object path alone. There is a file for
/// exactly the paths of [`is_file_location`], if the directory has a path on the platform. Every
/// file stands below the directory. Without a backslash in the object path it has one more name
/// than a directory with a path for each piece of the object path, and the file of a plain object
/// path has just those names. What the other characters become is not spelled out, nor is what has
/// a file where the directory has no path.
#[verifier::external_body]
pub(crate) fn path_to_filesystem(file_system: &LocalFileSystem, location: &str) -> (found: Result<
    LocalPath,
    String,
>)
    requires
        is_location(location@),
    ensures
        match found {
            Ok(path) => file_path(*file_system, location@) == Ok::<LocalPathView, Seq<char>>(path@),
            Err(message) => file_path(*file_system, location@) == Err::<LocalPathView, Seq<char>>(
                message@,
            ),
        },
        found is Ok ==> is_file_location(location@),
        is_file_location(location@) && file_system_root(*file_system).len() > 0 ==> found is Ok,
        found is Ok ==> file_system_root(*file_system).is_prefix_of(found->Ok_0@.components),
        found is Ok && file_system_root(*file_system).len() > 0 && !location@.contains('\\')
            ==> found->Ok_0@.components.len() == file_system_root(*file_system).len() + segments(
            location@,
        ).len(),
        found is Ok && is_plain_location(location@) ==> found->Ok_0@.components
            == file_system_root(*file_system) + location_names(location@),
{
    let location = object_store::path::Path::parse(location).unwrap();
    match file_system.path_to_filesystem(&location) {
        Ok(path) => Ok(
            LocalPath {
                components: path
                    .components()
                    .map(|name| name.as_os_str().as_encoded_bytes().to_vec())
                    .collect(),
                display: path.display().to_string(),
            },
        ),
        Err(error) => Err(error.to_string()),
    }
}

/// An object path that ends in `.arrow` can have a file.
pub proof fn lemma_arrow_location_has_file(location: Seq<char>)
    requires
        ".arrow"@.is_suffix_of(location),
    ensures
        is_file_location(location),
{
    reveal_strlit(".arrow");
    assert(location.last() == ".arrow"@.last());
    let name = segments(location).last();
    assert(name.last() == 'w');
    let hash = first_at(name, '#') as int;
    if hash + 1 < name.len() {
        let suffix = name.skip(hash + 1);
        assert(suffix[suffix.len() - 1] == 'w');
        assert(!is_figure(suffix[suffix.len() - 1]));
    }
}

/// The file of an object stands inside the directory, so the directories above it can be synced
/// from the directory down: writing it does not fail for being outside.
pub proof fn lemma_file_is_inside_root(
    file_system: LocalFileSystem,
    location: Seq<char>,
    root: LocalPathView,
    file: LocalPathView,
    fsync: bool,
    sync_directories: bool,
)
    requires
        root.components == file_system_root(file_system),
        file_system_root(file_system).is_prefix_of(file.components),
        file.components.len() == file_system_root(file_system).len() + segments(location).len(),
    ensures
        file.parent() matches Some(parent) ==> {
            &&& root.components.is_prefix_of(parent.components)
            &&& LocalProgress::start(root, parent, fsync, sync_directories).ending is None
        },
{
    lemma_some_segment(location);
    if let Some(parent) = file.parent() {
        assert(root.components =~= file.components.subrange(0, root.components.len() as int));
        assert(root.components =~= parent.components.subrange(0, root.components.len() as int));
    }
}

/// The file of an object with a plain object path is in a directory, which is the directory of all
/// objects followed by the pieces of the object path but the last one.
pub proof fn lemma_file_has_parent(
    file_system: LocalFileSystem,
    location: Seq<char>,
    file: LocalPathView,
)
    requires
        is_location(location),
        location.len() > 0,
        file.components == file_system_root(file_system) + location_names(location),
    ensures
        file.parent() is Some,
        (file.parent()->0).components == file_system_root(file_system) + location_names(
            location,
        ).drop_last(),
{
    lemma_some_segment(location);
    lemma_segments_without_slash(location);
    let pieces = segments(location);
    let last = pieces.last();
    assert(file.components.last() == location_names(location).last());
    assert(file.components.last() == encode_utf8(last));
    if encode_utf8(last) == root_name() {
        lemma_root_name(last);
        assert(pieces[pieces.len() - 1] == last);
        assert(last[0] == '/');
        assert(last.contains('/'));
    }
    assert(file.components.drop_last() =~= file_system_root(file_system) + location_names(
        location,
    ).drop_last());
}

/// No piece of a path holds a slash.
proof fn lemma_segments_without_slash(text: Seq<char>)
    ensures
        forall|i: int| 0 <= i < segments(text).len() ==> !(#[trigger] segments(text)[i]).contains('/'),
    decreases text.len(),
{
    if text.len() > 0 {
        lemma_segments_without_slash(text.drop_last());
        lemma_some_segment(text.drop_last());
        let before = segments(text.drop_last());
        let pieces = segments(text);
        assert forall|i: int| 0 <= i < pieces.len() implies !(#[trigger] pieces[i]).contains('/') by {
            if i < pieces.len() - 1 {
                assert(pieces[i] == before[i]);
            } else if text.last() != '/' {
                assert(!before[before.len() - 1].contains('/'));
                let last = before.last().push(text.last());
                assert(pieces[i] == last);
                if last.contains('/') {
                    let k = choose|k: int| 0 <= k < last.len() && last[k] == '/';
                    assert(before.last()[k] == '/');
                }
            }
        }
    }
}

/// A text has at least one piece.
proof fn lemma_some_segment(text: Seq<char>)
    ensures
        segments(text).len() > 0,
    decreases text.len(),
{
    if text.len() > 0 {
        lemma_some_segment(text.drop_last());
    }
}

} // verus!
