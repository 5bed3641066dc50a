//! The two tables as sequences of records: what it is for a row to be in a
//! table, and what each operation makes of a table.

use crate::hierarchy::{
    acyclic, directory_position, has_directory, lemma_reparent_keeps_acyclic, lemma_row_is_found,
    lemma_update_reparents, parent_of, reaches, restricted, unique_directory_ids, would_cycle,
};
use crate::lex::bytes_le;
use crate::models::{Directory, DirectoryRecord, FileMetadata, FileRecord};
use vstd::prelude::*;
use vstd::seq_lib::{
    to_multiset_build, to_multiset_contains, to_multiset_len, to_multiset_remove,
};
use vstd::utf8::encode_utf8;

verus! {

/// The records of a vector of file rows.
pub open spec fn file_records(rows: Seq<FileMetadata>) -> Seq<FileRecord> {
    Seq::new(rows.len(), |i: int| rows[i]@)
}

/// The records of a vector of directory rows.
pub open spec fn directory_records(rows: Seq<Directory>) -> Seq<DirectoryRecord> {
    Seq::new(rows.len(), |i: int| rows[i]@)
}

/// The record of an optional file row.
pub open spec fn file_record_of(row: Option<FileMetadata>) -> Option<FileRecord> {
    match row {
        Some(f) => Some(f@),
        None => None,
    }
}

/// The record of an optional directory row.
pub open spec fn directory_record_of(row: Option<Directory>) -> Option<DirectoryRecord> {
    match row {
        Some(d) => Some(d@),
        None => None,
    }
}

/// The rows of a table from position `start` on; none where the table is
/// shorter.
pub open spec fn rows_from<A>(rows: Seq<A>, start: int) -> Seq<A> {
    if 0 <= start <= rows.len() {
        rows.subrange(start, rows.len() as int)
    } else {
        Seq::empty()
    }
}

/// Some row of `files` has the identifier `id`.
pub open spec fn has_file(files: Seq<FileRecord>, id: Seq<char>) -> bool {
    exists|i: int| 0 <= i < files.len() && (#[trigger] files[i]).id == id
}

/// No two file rows share an identifier.
pub open spec fn unique_file_ids(files: Seq<FileRecord>) -> bool {
    forall|i: int, j: int|
        0 <= i < j < files.len() ==> (#[trigger] files[i]).id != (#[trigger] files[j]).id
}

/// The row of file `id`, if there is one.
pub open spec fn file_of(files: Seq<FileRecord>, id: Seq<char>) -> Option<FileRecord> {
    if has_file(files, id) {
        Some(files[choose|i: int| 0 <= i < files.len() && (#[trigger] files[i]).id == id])
    } else {
        None
    }
}

/// The row of directory `id`, if there is one.
pub open spec fn directory_of(dirs: Seq<DirectoryRecord>, id: Seq<char>) -> Option<
    DirectoryRecord,
> {
    if has_directory(dirs, id) {
        Some(dirs[directory_position(dirs, id)])
    } else {
        None
    }
}

/// The test that a file lies directly in `parent`.
pub open spec fn file_lies_in(parent: Option<Seq<char>>) -> spec_fn(FileRecord) -> bool {
    |f: FileRecord| f.parent_directory_id == parent
}

/// The test that a directory lies directly in `parent`.
pub open spec fn directory_lies_in(parent: Option<Seq<char>>) -> spec_fn(DirectoryRecord) -> bool {
    |d: DirectoryRecord| d.parent_id == parent
}

/// The test that a file is another than `id`.
pub open spec fn is_other_file(id: Seq<char>) -> spec_fn(FileRecord) -> bool {
    |f: FileRecord| f.id != id
}

/// The files that lie directly in `parent`, in table order; with no parent
/// given, the files that lie in no directory.
pub open spec fn files_in(files: Seq<FileRecord>, parent: Option<Seq<char>>) -> Seq<FileRecord> {
    files.filter(file_lies_in(parent))
}

/// The directories that lie directly in `parent`, in table order; with no
/// parent given, those that lie in no directory.
pub open spec fn directories_in(dirs: Seq<DirectoryRecord>, parent: Option<Seq<char>>) -> Seq<
    DirectoryRecord,
> {
    dirs.filter(directory_lies_in(parent))
}

/// The table without the row of file `id`.
pub open spec fn without_file(files: Seq<FileRecord>, id: Seq<char>) -> Seq<FileRecord> {
    files.filter(is_other_file(id))
}

/// The table in which file `id` lies in `parent`.
pub open spec fn with_file_parent(
    files: Seq<FileRecord>,
    id: Seq<char>,
    parent: Option<Seq<char>>,
) -> Seq<FileRecord> {
    Seq::new(
        files.len(),
        |i: int|
            if files[i].id == id {
                FileRecord { parent_directory_id: parent, ..files[i] }
            } else {
                files[i]
            },
    )
}

/// The table in which directory `id` lies in `parent` and was last changed
/// at `now`.
pub open spec fn with_directory_parent(
    dirs: Seq<DirectoryRecord>,
    id: Seq<char>,
    parent: Option<Seq<char>>,
    now: Seq<char>,
) -> Seq<DirectoryRecord> {
    Seq::new(
        dirs.len(),
        |i: int|
            if dirs[i].id == id {
                DirectoryRecord { parent_id: parent, updated_at: now, ..dirs[i] }
            } else {
                dirs[i]
            },
    )
}

/// The test that a directory is neither `id` nor below it.
pub open spec fn directory_is_outside(dirs: Seq<DirectoryRecord>, id: Seq<char>) -> spec_fn(
    DirectoryRecord,
) -> bool {
    |d: DirectoryRecord| !reaches(dirs, d.id, id)
}

/// The directories that are neither `id` nor below it.
pub open spec fn directories_outside(dirs: Seq<DirectoryRecord>, id: Seq<char>) -> Seq<
    DirectoryRecord,
> {
    dirs.filter(directory_is_outside(dirs, id))
}

/// A file lies in `id` or in a directory below it.
pub open spec fn file_is_under(dirs: Seq<DirectoryRecord>, f: FileRecord, id: Seq<char>) -> bool {
    match f.parent_directory_id {
        Some(p) => reaches(dirs, p, id),
        None => false,
    }
}

/// The test that a file lies neither in `id` nor in a directory below it.
pub open spec fn file_is_outside(dirs: Seq<DirectoryRecord>, id: Seq<char>) -> spec_fn(
    FileRecord,
) -> bool {
    |f: FileRecord| !file_is_under(dirs, f, id)
}

/// The files that lie neither in `id` nor in a directory below it.
pub open spec fn files_outside(
    dirs: Seq<DirectoryRecord>,
    files: Seq<FileRecord>,
    id: Seq<char>,
) -> Seq<FileRecord> {
    files.filter(file_is_outside(dirs, id))
}

/// The test that a directory is `id` or lies below it.
pub open spec fn directory_is_inside(dirs: Seq<DirectoryRecord>, id: Seq<char>) -> spec_fn(
    DirectoryRecord,
) -> bool {
    |d: DirectoryRecord| reaches(dirs, d.id, id)
}

/// The directories that are `id` or lie below it, in table order: those that
/// deleting `id` removes.
pub open spec fn directories_inside(dirs: Seq<DirectoryRecord>, id: Seq<char>) -> Seq<
    DirectoryRecord,
> {
    dirs.filter(directory_is_inside(dirs, id))
}

/// The test that a file lies in `id` or in a directory below it.
pub open spec fn file_is_inside(dirs: Seq<DirectoryRecord>, id: Seq<char>) -> spec_fn(
    FileRecord,
) -> bool {
    |f: FileRecord| file_is_under(dirs, f, id)
}

/// The files that lie in `id` or in a directory below it, in table order:
/// those that deleting `id` removes.
pub open spec fn files_inside(
    dirs: Seq<DirectoryRecord>,
    files: Seq<FileRecord>,
    id: Seq<char>,
) -> Seq<FileRecord> {
    files.filter(file_is_inside(dirs, id))
}

/// The sum of the sizes of the given files.
pub open spec fn total_size(files: Seq<FileRecord>) -> int
    decreases files.len(),
{
    if files.len() == 0 {
        0
    } else {
        total_size(files.drop_last()) + files.last().file_size
    }
}

/// The rows come newest first: by upload time, compared as bytes,
/// descending.
pub open spec fn newest_first(rows: Seq<FileRecord>) -> bool {
    forall|i: int, j: int|
        0 <= i < j < rows.len() ==> bytes_le(
            encode_utf8(#[trigger] rows[j].uploaded_at),
            encode_utf8(#[trigger] rows[i].uploaded_at),
        )
}

/// The rows come by name, compared as bytes, ascending.
pub open spec fn ordered_by_name(rows: Seq<DirectoryRecord>) -> bool {
    forall|i: int, j: int|
        0 <= i < j < rows.len() ==> bytes_le(
            encode_utf8(#[trigger] rows[i].name),
            encode_utf8(#[trigger] rows[j].name),
        )
}

/// The state of the metadata store: its two tables.
pub struct StoreView {
    pub files: Seq<FileRecord>,
    pub directories: Seq<DirectoryRecord>,
}

impl StoreView {
    /// Identifiers are unique within each table and the directories form a
    /// forest.
    pub open spec fn wf(self) -> bool {
        &&& unique_file_ids(self.files)
        &&& unique_directory_ids(self.directories)
        &&& acyclic(self.directories)
    }
}

/// With unique identifiers a file row is found at its own position.
pub proof fn lemma_file_row_is_found(files: Seq<FileRecord>, i: int)
    requires
        unique_file_ids(files),
        0 <= i < files.len(),
    ensures
        has_file(files, files[i].id),
        file_of(files, files[i].id) == Some(files[i]),
{
    let id = files[i].id;
    assert(files[i].id == id);
    let k = choose|k: int| 0 <= k < files.len() && (#[trigger] files[k]).id == id;
    if k < i {
        assert(files[k].id != files[i].id);
    } else if i < k {
        assert(files[i].id != files[k].id);
    }
}

/// A filter that every row passes changes nothing.
pub proof fn lemma_filter_keeps_all<A>(rows: Seq<A>, pred: spec_fn(A) -> bool)
    requires
        forall|i: int| 0 <= i < rows.len() ==> pred(#[trigger] rows[i]),
    ensures
        rows.filter(pred) == rows,
    decreases rows.len(),
{
    reveal(Seq::filter);
    if rows.len() > 0 {
        lemma_filter_keeps_all(rows.drop_last(), pred);
        assert(rows.drop_last().push(rows.last()) =~= rows);
    }
}

/// Filtering out the one row that fails a test removes that row.
pub proof fn lemma_filter_drops_one<A>(rows: Seq<A>, pred: spec_fn(A) -> bool, i: int)
    requires
        0 <= i < rows.len(),
        !pred(rows[i]),
        forall|j: int| 0 <= j < rows.len() && j != i ==> pred(#[trigger] rows[j]),
    ensures
        rows.filter(pred) == rows.remove(i),
    decreases rows.len(),
{
    reveal(Seq::filter);
    if i == rows.len() - 1 {
        lemma_filter_keeps_all(rows.drop_last(), pred);
        assert(rows.remove(i) =~= rows.drop_last());
    } else {
        lemma_filter_drops_one(rows.drop_last(), pred, i);
        assert(rows.drop_last().remove(i).push(rows.last()) =~= rows.remove(i));
    }
}

/// Removing the row of a file is removing the row at its position.
pub proof fn lemma_without_file_is_remove(files: Seq<FileRecord>, i: int)
    requires
        unique_file_ids(files),
        0 <= i < files.len(),
    ensures
        without_file(files, files[i].id) == files.remove(i),
{
    let id = files[i].id;
    let pred = is_other_file(id);
    assert forall|j: int| 0 <= j < files.len() && j != i implies pred(#[trigger] files[j]) by {
        if j < i {
            assert(files[j].id != files[i].id);
        } else {
            assert(files[i].id != files[j].id);
        }
    }
    lemma_filter_drops_one(files, pred, i);
}

/// A table that lacks a file is unchanged by removing it.
pub proof fn lemma_without_absent_file(files: Seq<FileRecord>, id: Seq<char>)
    requires
        !has_file(files, id),
    ensures
        without_file(files, id) == files,
{
    let pred = is_other_file(id);
    assert forall|j: int| 0 <= j < files.len() implies pred(#[trigger] files[j]) by {
        if files[j].id == id {
            assert(has_file(files, id));
        }
    }
    lemma_filter_keeps_all(files, pred);
}

/// Whatever a filter lets through was in the table.
pub proof fn lemma_filtered_row_is_a_row<A>(rows: Seq<A>, pred: spec_fn(A) -> bool, k: int) -> (j:
    int)
    requires
        0 <= k < rows.filter(pred).len(),
    ensures
        0 <= j < rows.len(),
        rows[j] == rows.filter(pred)[k],
        pred(rows[j]),
{
    let out = rows.filter(pred);
    assert(out.contains(out[k]));
    rows.lemma_filter_contains_rev(pred, out[k]);
    rows.lemma_filter_pred(pred, k);
    choose|j: int| 0 <= j < rows.len() && rows[j] == out[k]
}

/// A filter keeps file identifiers unique.
pub proof fn lemma_filter_keeps_files_unique(
    files: Seq<FileRecord>,
    pred: spec_fn(FileRecord) -> bool,
)
    requires
        unique_file_ids(files),
    ensures
        unique_file_ids(files.filter(pred)),
    decreases files.len(),
{
    reveal(Seq::filter);
    if files.len() > 0 {
        let rest = files.drop_last();
        let last = files.last();
        assert forall|i: int, j: int| 0 <= i < j < rest.len() implies (#[trigger] rest[i]).id != (
        #[trigger] rest[j]).id by {
            assert(files[i].id != files[j].id);
        }
        lemma_filter_keeps_files_unique(rest, pred);
        let kept = rest.filter(pred);
        let out = files.filter(pred);
        assert forall|i: int, j: int| 0 <= i < j < out.len() implies (#[trigger] out[i]).id != (
        #[trigger] out[j]).id by {
            if j == kept.len() {
                let m = lemma_filtered_row_is_a_row(rest, pred, i);
                assert(files[m].id != files[files.len() - 1].id);
            } else {
                assert(kept[i].id != kept[j].id);
            }
        }
    }
}

/// A filter keeps directory identifiers unique, and every row it lets
/// through keeps its parent.
pub proof fn lemma_filter_keeps_directories(
    dirs: Seq<DirectoryRecord>,
    pred: spec_fn(DirectoryRecord) -> bool,
)
    requires
        unique_directory_ids(dirs),
    ensures
        unique_directory_ids(dirs.filter(pred)),
        restricted(dirs, dirs.filter(pred)),
    decreases dirs.len(),
{
    reveal(Seq::filter);
    let out = dirs.filter(pred);
    if dirs.len() > 0 {
        let rest = dirs.drop_last();
        assert forall|i: int, j: int| 0 <= i < j < rest.len() implies (#[trigger] rest[i]).id != (
        #[trigger] rest[j]).id by {
            assert(dirs[i].id != dirs[j].id);
        }
        lemma_filter_keeps_directories(rest, pred);
        let kept = rest.filter(pred);
        assert forall|i: int, j: int| 0 <= i < j < out.len() implies (#[trigger] out[i]).id != (
        #[trigger] out[j]).id by {
            if j == kept.len() {
                let m = lemma_filtered_row_is_a_row(rest, pred, i);
                assert(dirs[m].id != dirs[dirs.len() - 1].id);
            } else {
                assert(kept[i].id != kept[j].id);
            }
        }
    }
    assert forall|x: Seq<char>| #[trigger] has_directory(out, x) implies has_directory(dirs, x)
        && parent_of(out, x) == parent_of(dirs, x) by {
        let k = directory_position(out, x);
        assert(out[k].id == x);
        let j = lemma_filtered_row_is_a_row(dirs, pred, k);
        lemma_row_is_found(dirs, j);
        lemma_row_is_found(out, k);
    }
}

/// Adding a file to a list of files adds its size to their sum.
pub proof fn lemma_total_size_push(files: Seq<FileRecord>, f: FileRecord)
    ensures
        total_size(files.push(f)) == total_size(files) + f.file_size,
{
    assert(files.push(f).drop_last() =~= files);
}

/// Moving a directory that is not in the table changes nothing.
pub proof fn lemma_move_of_absent_directory(
    dirs: Seq<DirectoryRecord>,
    id: Seq<char>,
    parent: Option<Seq<char>>,
    now: Seq<char>,
)
    requires
        !has_directory(dirs, id),
    ensures
        with_directory_parent(dirs, id, parent, now) == dirs,
{
    let after = with_directory_parent(dirs, id, parent, now);
    assert forall|j: int| 0 <= j < dirs.len() implies dirs[j] == after[j] by {
        if dirs[j].id == id {
            assert(has_directory(dirs, id));
        }
    }
    assert(dirs =~= after);
}

/// A move that closes no cycle keeps identifiers unique and the table
/// without a cycle.
pub proof fn lemma_move_keeps_forest(
    dirs: Seq<DirectoryRecord>,
    id: Seq<char>,
    parent: Option<Seq<char>>,
    now: Seq<char>,
)
    requires
        unique_directory_ids(dirs),
        acyclic(dirs),
        !would_cycle(dirs, id, parent),
    ensures
        unique_directory_ids(with_directory_parent(dirs, id, parent, now)),
        acyclic(with_directory_parent(dirs, id, parent, now)),
{
    let after = with_directory_parent(dirs, id, parent, now);
    if has_directory(dirs, id) {
        let i = directory_position(dirs, id);
        assert(dirs[i].id == id);
        assert forall|j: int| 0 <= j < dirs.len() && j != i implies #[trigger] after[j]
            == dirs[j] by {
            if j < i {
                assert(dirs[j].id != dirs[i].id);
            } else {
                assert(dirs[i].id != dirs[j].id);
            }
        }
        lemma_update_reparents(dirs, after, i, parent);
        lemma_reparent_keeps_acyclic(dirs, after, id, parent);
    } else {
        lemma_move_of_absent_directory(dirs, id, parent, now);
    }
}

/// Taking a row out of a list of files takes its size out of their sum.
pub proof fn lemma_total_size_remove(files: Seq<FileRecord>, i: int)
    requires
        0 <= i < files.len(),
    ensures
        total_size(files) == total_size(files.remove(i)) + files[i].file_size,
    decreases files.len(),
{
    if i == files.len() - 1 {
        assert(files.remove(i) =~= files.drop_last());
    } else {
        lemma_total_size_remove(files.drop_last(), i);
        assert(files.remove(i).drop_last() =~= files.drop_last().remove(i));
        assert(files.remove(i).last() == files.last());
    }
}

/// Two lists that hold the same files, in whatever order, have the same
/// length and the same sum of sizes.
pub proof fn lemma_total_size_of_rearranged(a: Seq<FileRecord>, b: Seq<FileRecord>)
    requires
        a.to_multiset() == b.to_multiset(),
    ensures
        a.len() == b.len(),
        total_size(a) == total_size(b),
    decreases a.len(),
{
    broadcast use vstd::multiset::group_multiset_axioms;

    to_multiset_len(a);
    to_multiset_len(b);
    if a.len() > 0 {
        let x = a.last();
        let rest = a.drop_last();
        assert(rest.push(x) =~= a);
        to_multiset_build(rest, x);
        assert(a.contains(x)) by {
            assert(a[a.len() - 1] == x);
        }
        to_multiset_contains(a, x);
        to_multiset_contains(b, x);
        let j = choose|j: int| 0 <= j < b.len() && b[j] == x;
        to_multiset_remove(b, j);
        assert(rest.to_multiset() =~= a.to_multiset().remove(x));
        lemma_total_size_of_rearranged(rest, b.remove(j));
        lemma_total_size_remove(b, j);
    }
}

} // verus!
