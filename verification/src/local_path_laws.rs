//! What the directory of a file and the temporary file beside it are, said of names and characters.

use vstd::prelude::*;
use vstd::utf8::encode_utf8;

use crate::local_path::{
    parent_text, staging_name, up_to_last_slash, utf8_lossy, without_trailing_slashes, LocalPathView,
};
use crate::path_laws::{lemma_uuid_read, number_in_hex};
use crate::pdata_id::{uuid_text, PdataId};

verus! {

/// A path has a directory unless it has no names or ends in the root directory, and then the path
/// is the directory and one more name.
pub proof fn lemma_file_is_in_its_directory(path: LocalPathView)
    ensures
        path.parent() is Some <==> path.components.len() > 0 && path.components.last() != seq![47u8],
        path.is_in_directory() <==> path.parent() is Some,
        path.parent() matches Some(directory) ==> {
            &&& directory.components.push(path.components.last()) == path.components
            &&& directory.display == parent_text(path.display)
        },
{
}

/// Text without a slash at its end has no slashes to leave out.
proof fn lemma_no_slashes_at_end(text: Seq<char>)
    requires
        text.len() == 0 || text.last() != '/',
    ensures
        without_trailing_slashes(text) == text,
{
}

/// Going back over a name leads to the slash before it.
proof fn lemma_back_to_slash(start: Seq<char>, name: Seq<char>)
    requires
        start.len() == 0 || start.last() == '/',
        !name.contains('/'),
    ensures
        up_to_last_slash(start + name) == start,
    decreases name.len(),
{
    let text = start + name;
    if name.len() == 0 {
        assert(text =~= start);
    } else {
        assert(text.last() == name[name.len() - 1]);
        assert(text.drop_last() =~= start + name.drop_last());
        assert(!name.drop_last().contains('/')) by {
            if name.drop_last().contains('/') {
                let i = choose|i: int| 0 <= i < name.drop_last().len() && name.drop_last()[i] == '/';
                assert(name[i] == '/');
            }
        }
        lemma_back_to_slash(start, name.drop_last());
    }
}

/// The text of a directory is what stands before the slash and the name of the file; the root
/// directory is a slash, and a name alone is in a directory without text.
pub proof fn lemma_text_of_the_directory(directory: Seq<char>, name: Seq<char>)
    requires
        name.len() > 0,
        !name.contains('/'),
    ensures
        directory.len() > 0 && directory.last() != '/' ==> parent_text(
            directory + seq!['/'] + name,
        ) == directory,
        parent_text(seq!['/'] + name) == seq!['/'],
        parent_text(name) == Seq::<char>::empty(),
{
    let none = Seq::<char>::empty();
    let slash = seq!['/'];
    assert(name[name.len() - 1] != '/');
    let text = directory + slash + name;
    assert(text.last() == name.last());
    lemma_no_slashes_at_end(text);
    lemma_back_to_slash(directory + slash, name);
    assert((directory + slash).drop_last() =~= directory);
    if directory.len() > 0 && directory.last() != '/' {
        lemma_no_slashes_at_end(directory);
        assert(without_trailing_slashes(directory + slash) == directory);
    }
    let rooted = slash + name;
    assert(rooted.last() == name.last());
    lemma_no_slashes_at_end(rooted);
    lemma_back_to_slash(slash, name);
    assert(slash.drop_last() =~= none);
    assert(without_trailing_slashes(slash) == without_trailing_slashes(slash.drop_last()));
    lemma_no_slashes_at_end(none);
    lemma_no_slashes_at_end(name);
    lemma_back_to_slash(none, name);
    assert(none + name =~= name);
}

/// The temporary file has the names of the destination but for the last one, and in its place a
/// dot, the name of the file, a dot, the UUID and `.tmp`. Different UUIDs make different files.
pub proof fn lemma_name_of_the_temporary_file(path: LocalPathView, id: PdataId, other: PdataId)
    requires
        path.components.len() > 0,
    ensures
        path.staged(id).len() == path.components.len(),
        path.staged(id).drop_last() == path.components.drop_last(),
        exists|key: Seq<char>|
            {
                &&& #[trigger] number_in_hex(key) == id.value
                &&& key.len() == 36
                &&& path.staged(id).last() == encode_utf8(
                    "."@ + utf8_lossy(path.components.last()) + "."@ + key + ".tmp"@,
                )
            },
        id != other ==> path.staged(id) != path.staged(other),
{
    lemma_uuid_read(id.value);
    lemma_uuid_read(other.value);
    let name = utf8_lossy(path.components.last());
    assert(path.staged(id).drop_last() =~= path.components.drop_last());
    assert(number_in_hex(uuid_text(id.value)) == id.value);
    if path.staged(id) == path.staged(other) {
        let left = staging_name(name, id);
        let right = staging_name(name, other);
        assert(path.staged(id).last() == encode_utf8(left));
        assert(path.staged(other).last() == encode_utf8(right));
        vstd::utf8::encode_utf8_decode_utf8(left);
        vstd::utf8::encode_utf8_decode_utf8(right);
        assert(left == right);
        let start = ("."@ + name + "."@).len() as int;
        assert(left.subrange(start, start + 36) =~= uuid_text(id.value));
        assert(right.subrange(start, start + 36) =~= uuid_text(other.value));
    }
}

} // verus!
