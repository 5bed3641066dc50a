//! How a stored blob is named: the identifier of the file, then the extension
//! of the name the client gave, and the directory the blob is kept in.

use vstd::prelude::*;
use vstd::string::*;

verus! {

/// `i` is the position of the last `.` of `name`.
pub open spec fn is_last_dot(name: Seq<char>, i: int) -> bool {
    &&& 0 <= i < name.len()
    &&& name[i] == '.'
    &&& forall|j: int| i < j < name.len() ==> name[j] != '.'
}

/// The extension of a file name: what follows its last `.`, and nothing
/// where the name holds no `.`.
pub open spec fn extension_of(name: Seq<char>) -> Seq<char> {
    if exists|i: int| is_last_dot(name, i) {
        let i = choose|i: int| is_last_dot(name, i);
        name.subrange(i + 1, name.len() as int)
    } else {
        Seq::empty()
    }
}

/// The name a blob is stored under: the identifier alone where the original
/// name has no extension, else the identifier, a `.` and the extension.
pub open spec fn stored_name_of(id: Seq<char>, original: Seq<char>) -> Seq<char> {
    if extension_of(original).len() == 0 {
        id
    } else {
        id + seq!['.'] + extension_of(original)
    }
}

/// The path of a blob: the upload directory, a `/` unless the directory is
/// empty or already ends in one, and the stored name.
pub open spec fn storage_path_of(upload_dir: Seq<char>, stored: Seq<char>) -> Seq<char> {
    if upload_dir.len() == 0 || upload_dir.last() == '/' {
        upload_dir + stored
    } else {
        upload_dir + seq!['/'] + stored
    }
}

/// The last `.` of a name is where it is found: the extension starts right
/// after it.
pub proof fn lemma_extension_after_last_dot(name: Seq<char>, i: int)
    requires
        is_last_dot(name, i),
    ensures
        extension_of(name) == name.subrange(i + 1, name.len() as int),
{
    let k = choose|k: int| is_last_dot(name, k);
    assert(k == i) by {
        if k < i {
            assert(name[i] != '.');
        } else if i < k {
            assert(name[k] != '.');
        }
    }
}

/// A name without a `.` has no extension, and its blob is named by the
/// identifier alone.
pub proof fn lemma_no_dot_no_suffix(id: Seq<char>, original: Seq<char>)
    requires
        forall|j: int| 0 <= j < original.len() ==> original[j] != '.',
    ensures
        extension_of(original) == Seq::<char>::empty(),
        stored_name_of(id, original) == id,
{
    assert(!exists|i: int| is_last_dot(original, i));
}

/// A stored name begins with the identifier it was made from.
pub proof fn lemma_stored_name_begins_with_id(id: Seq<char>, original: Seq<char>)
    ensures
        stored_name_of(id, original).len() >= id.len(),
        stored_name_of(id, original).subrange(0, id.len() as int) == id,
{
    assert(stored_name_of(id, original).subrange(0, id.len() as int) =~= id);
}

/// Under one upload directory different stored names lie at different
/// paths.
pub proof fn lemma_paths_differ_with_names(upload_dir: Seq<char>, a: Seq<char>, b: Seq<char>)
    requires
        storage_path_of(upload_dir, a) == storage_path_of(upload_dir, b),
    ensures
        a == b,
{
    let pa = storage_path_of(upload_dir, a);
    let pb = storage_path_of(upload_dir, b);
    let k = pa.len() - a.len();
    assert(a =~= pa.subrange(k, pa.len() as int));
    assert(b =~= pb.subrange(k, pb.len() as int));
}

/// The extension of `name`.
pub fn extension(name: &str) -> (ext: String)
    ensures
        ext@ == extension_of(name@),
{
    let n: usize = name.unicode_len();
    let mut last_dot: Option<usize> = None;
    let mut at: usize = 0;
    for c in it: name.chars()
        invariant
            it.seq() == name@,
            n == name@.len(),
            at == it.index(),
            match last_dot {
                Some(i) => is_last_dot(name@.take(at as int), i as int),
                None => forall|j: int| 0 <= j < at ==> name@[j] != '.',
            },
    {
        if c == '.' {
            last_dot = Some(at);
        }
        at = at + 1;
    }
    match last_dot {
        Some(i) => {
            proof {
                assert(name@.take(n as int) =~= name@);
                lemma_extension_after_last_dot(name@, i as int);
            }
            String::from_str(name.substring_char(i + 1, n))
        },
        None => {
            proof {
                lemma_no_dot_no_suffix(Seq::empty(), name@);
            }
            String::new()
        },
    }
}

/// The name under which the blob of file `id` is stored.
pub fn stored_name(id: &str, original: &str) -> (stored: String)
    ensures
        stored@ == stored_name_of(id@, original@),
{
    let ext = extension(original);
    let mut stored = String::from_str(id);
    if !ext.as_str().is_empty() {
        proof {
            reveal_strlit(".");
        }
        stored.append(".");
        stored.append(ext.as_str());
        assert(stored@ =~= id@ + seq!['.'] + ext@);
    }
    stored
}

/// The path at which a blob named `stored` is kept under `upload_dir`.
pub fn storage_path(upload_dir: &str, stored: &str) -> (path: String)
    ensures
        path@ == storage_path_of(upload_dir@, stored@),
{
    let n: usize = upload_dir.unicode_len();
    let mut path = String::from_str(upload_dir);
    if n > 0 && upload_dir.get_char(n - 1) != '/' {
        proof {
            reveal_strlit("/");
        }
        path.append("/");
        assert(path@ =~= upload_dir@ + seq!['/']);
    }
    path.append(stored);
    path
}

} // verus!
