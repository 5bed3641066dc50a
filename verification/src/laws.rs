//! Laws of the store that relate several of its operations. Each is stated
//! over the tables as sequences of records, as the contracts of the
//! operations are.

use crate::error::StorageError;
use crate::hierarchy::{
    acyclic, directory_position, has_directory, lemma_reaches_itself,
    lemma_reaches_through_parent, lemma_row_is_found, reaches, unique_directory_ids, would_cycle,
};
use crate::ids::{is_canonical_id, lemma_canonical_id_is_plain};
use crate::models::{DirectoryRecord, FileRecord};
use crate::naming::{
    lemma_no_dot_no_suffix, lemma_paths_differ_with_names, lemma_stored_name_begins_with_id,
    storage_path_of, stored_name_of,
};
use crate::storage::{
    delete_directory_state, delete_file_result, delete_file_table, save_file_failure, BlobOutcome,
    BlobWrite,
};
use crate::tables::{
    directory_is_outside, file_is_outside, file_is_under, file_lies_in, files_in, has_file,
    is_other_file, lemma_filter_drops_one, lemma_filter_keeps_all, lemma_filtered_row_is_a_row,
    lemma_move_keeps_forest, lemma_total_size_of_rearranged, lemma_without_absent_file,
    total_size, with_directory_parent, with_file_parent, without_file, StoreView,
};
use vstd::prelude::*;
use vstd::seq_lib::{to_multiset_contains, to_multiset_len};

verus! {

/// Once a file has been deleted, deleting it again removes nothing and
/// changes nothing: the second call returns `false`.
pub proof fn law_delete_file_is_idempotent(
    files: Seq<FileRecord>,
    id: Seq<char>,
    first: BlobOutcome,
    second: BlobOutcome,
)
    requires
        delete_file_result(files, id, first) is Ok,
    ensures
        delete_file_result(delete_file_table(files, id, first), id, second) == Ok::<
            bool,
            StorageError,
        >(false),
        delete_file_table(delete_file_table(files, id, first), id, second) == delete_file_table(
            files,
            id,
            first,
        ),
{
    let once = delete_file_table(files, id, first);
    if has_file(files, id) {
        assert(once == without_file(files, id));
        if has_file(once, id) {
            let k = choose|k: int| 0 <= k < once.len() && (#[trigger] once[k]).id == id;
            let j = lemma_filtered_row_is_a_row(files, is_other_file(id), k);
        }
    } else {
        lemma_without_absent_file(files, id);
    }
    lemma_without_absent_file(once, id);
}

/// A directory that was created and has nothing below it is deleted without
/// a trace: the tables are as they were before it was created.
pub proof fn law_create_then_delete_directory(s: StoreView, d: DirectoryRecord)
    requires
        s.wf(),
        !has_directory(s.directories, d.id),
        forall|i: int|
            0 <= i < s.directories.len() ==> !reaches(
                s.directories.push(d),
                (#[trigger] s.directories[i]).id,
                d.id,
            ),
        forall|j: int|
            0 <= j < s.files.len() ==> !file_is_under(
                s.directories.push(d),
                #[trigger] s.files[j],
                d.id,
            ),
    ensures
        delete_directory_state(
            StoreView { files: s.files, directories: s.directories.push(d) },
            d.id,
        ) == s,
{
    let grown = s.directories.push(d);
    let last = s.directories.len() as int;
    assert(grown[last].id == d.id);
    assert(has_directory(grown, d.id));
    lemma_reaches_itself(grown, d.id);
    let outside = directory_is_outside(grown, d.id);
    assert forall|j: int| 0 <= j < grown.len() && j != last implies outside(
        #[trigger] grown[j],
    ) by {
        assert(grown[j] == s.directories[j]);
    }
    lemma_filter_drops_one(grown, outside, last);
    assert(grown.remove(last) =~= s.directories);
    let clear = file_is_outside(grown, d.id);
    assert forall|j: int| 0 <= j < s.files.len() implies clear(#[trigger] s.files[j]) by {}
    lemma_filter_keeps_all(s.files, clear);
}

/// A file saved into directory `d` is listed under `d` and under nothing
/// else: neither at the root nor under another directory. `here` and
/// `elsewhere` stand for what `list_files` returns for `d` and for `other`.
pub proof fn law_saved_file_is_listed_where_it_lies(
    files: Seq<FileRecord>,
    f: FileRecord,
    d: Seq<char>,
    other: Option<Seq<char>>,
    here: Seq<FileRecord>,
    elsewhere: Seq<FileRecord>,
)
    requires
        f.parent_directory_id == Some(d),
        other != Some(d),
        here.to_multiset() == files_in(files.push(f), Some(d)).to_multiset(),
        elsewhere.to_multiset() == files_in(files.push(f), other).to_multiset(),
    ensures
        here.contains(f),
        !elsewhere.contains(f),
{
    let grown = files.push(f);
    let inside = files_in(grown, Some(d));
    let apart = files_in(grown, other);
    assert(grown[files.len() as int] == f);
    grown.lemma_filter_contains(file_lies_in(Some(d)), files.len() as int);
    to_multiset_contains(inside, f);
    to_multiset_contains(here, f);
    if apart.contains(f) {
        let k = choose|k: int| 0 <= k < apart.len() && apart[k] == f;
        let j = lemma_filtered_row_is_a_row(grown, file_lies_in(other), k);
    }
    to_multiset_contains(apart, f);
    to_multiset_contains(elsewhere, f);
}

/// One move: where the directory goes and when.
pub struct Move {
    pub id: Seq<char>,
    pub new_parent: Option<Seq<char>>,
    pub now: Seq<char>,
}

/// The directory table after `move_directory`: unchanged where the move is
/// refused.
pub open spec fn move_directory_table(dirs: Seq<DirectoryRecord>, m: Move) -> Seq<DirectoryRecord> {
    if would_cycle(dirs, m.id, m.new_parent) {
        dirs
    } else {
        with_directory_parent(dirs, m.id, m.new_parent, m.now)
    }
}

/// The directory table after a sequence of calls of `move_directory`.
pub open spec fn after_moves(dirs: Seq<DirectoryRecord>, moves: Seq<Move>) -> Seq<DirectoryRecord>
    decreases moves.len(),
{
    if moves.len() == 0 {
        dirs
    } else {
        move_directory_table(after_moves(dirs, moves.drop_last()), moves.last())
    }
}

/// After any sequence of moves, accepted or refused, no directory is its own
/// ancestor.
pub proof fn law_moves_keep_the_forest(dirs: Seq<DirectoryRecord>, moves: Seq<Move>)
    requires
        unique_directory_ids(dirs),
        acyclic(dirs),
    ensures
        unique_directory_ids(after_moves(dirs, moves)),
        acyclic(after_moves(dirs, moves)),
    decreases moves.len(),
{
    if moves.len() > 0 {
        law_moves_keep_the_forest(dirs, moves.drop_last());
        let before = after_moves(dirs, moves.drop_last());
        let m = moves.last();
        if !would_cycle(before, m.id, m.new_parent) {
            lemma_move_keeps_forest(before, m.id, m.new_parent, m.now);
        }
    }
}

/// A move of a directory into itself is refused, and so is a move into a
/// directory below it; the table stays as it was.
pub proof fn law_move_into_own_subtree_is_refused(
    dirs: Seq<DirectoryRecord>,
    id: Seq<char>,
    below: Seq<char>,
    now: Seq<char>,
)
    requires
        reaches(dirs, below, id),
    ensures
        would_cycle(dirs, id, Some(id)),
        would_cycle(dirs, id, Some(below)),
        move_directory_table(dirs, Move { id, new_parent: Some(id), now }) == dirs,
        move_directory_table(dirs, Move { id, new_parent: Some(below), now }) == dirs,
{
    lemma_reaches_itself(dirs, id);
}

/// The blob of a file whose name has no extension is stored under the
/// identifier alone, and that name holds no `.`.
pub proof fn law_plain_name_is_stored_under_the_id(id: Seq<char>, original: Seq<char>)
    requires
        is_canonical_id(id),
        forall|j: int| 0 <= j < original.len() ==> original[j] != '.',
    ensures
        stored_name_of(id, original) == id,
        forall|j: int|
            0 <= j < stored_name_of(id, original).len() ==> stored_name_of(id, original)[j] != '.',
{
    lemma_no_dot_no_suffix(id, original);
    lemma_canonical_id_is_plain(id);
}

/// The statistics of a directory are the length of its listing and the sum
/// of the sizes in it. `listing` stands for what `list_files` returns for
/// directory `d`.
pub proof fn law_stats_agree_with_listing(
    files: Seq<FileRecord>,
    d: Seq<char>,
    listing: Seq<FileRecord>,
)
    requires
        listing.to_multiset() == files_in(files, Some(d)).to_multiset(),
    ensures
        listing.len() == files_in(files, Some(d)).len(),
        total_size(listing) == total_size(files_in(files, Some(d))),
{
    lemma_total_size_of_rearranged(listing, files_in(files, Some(d)));
}

/// The file table after `save_file` has recorded, or refused, the row `f`.
pub open spec fn save_file_table(files: Seq<FileRecord>, f: FileRecord) -> Seq<FileRecord> {
    if has_file(files, f.id) {
        files
    } else {
        files.push(f)
    }
}

/// The file table after a sequence of calls of `save_file`.
pub open spec fn after_saves(files: Seq<FileRecord>, rows: Seq<FileRecord>) -> Seq<FileRecord>
    decreases rows.len(),
{
    if rows.len() == 0 {
        files
    } else {
        save_file_table(after_saves(files, rows.drop_last()), rows.last())
    }
}

/// Uploads under identifiers that differ from one another and from those in
/// the table are all recorded, each once and in the order in which they
/// came: so many uploads make so many rows.
pub proof fn law_every_upload_is_recorded(files: Seq<FileRecord>, rows: Seq<FileRecord>)
    requires
        forall|i: int| 0 <= i < rows.len() ==> !has_file(files, (#[trigger] rows[i]).id),
        forall|i: int, j: int|
            0 <= i < j < rows.len() ==> (#[trigger] rows[i]).id != (#[trigger] rows[j]).id,
    ensures
        after_saves(files, rows) == files + rows,
        after_saves(files, rows).len() == files.len() + rows.len(),
    decreases rows.len(),
{
    if rows.len() == 0 {
        assert(files + rows =~= files);
    } else {
        let earlier = rows.drop_last();
        let f = rows.last();
        assert forall|i: int| 0 <= i < earlier.len() implies !has_file(
            files,
            (#[trigger] earlier[i]).id,
        ) by {
            assert(earlier[i] == rows[i]);
        }
        assert forall|i: int, j: int| 0 <= i < j < earlier.len() implies (#[trigger] earlier[i]).id
            != (#[trigger] earlier[j]).id by {
            assert(earlier[i] == rows[i]);
            assert(earlier[j] == rows[j]);
        }
        law_every_upload_is_recorded(files, earlier);
        let so_far = files + earlier;
        if has_file(so_far, f.id) {
            let k = choose|k: int| 0 <= k < so_far.len() && (#[trigger] so_far[k]).id == f.id;
            if k < files.len() {
                assert(files[k].id == f.id);
                assert(has_file(files, rows[rows.len() - 1].id));
            } else {
                assert(so_far[k] == rows[k - files.len()]);
                assert(rows[k - files.len()].id != rows[rows.len() - 1].id);
            }
        }
        assert(so_far.push(f) =~= files + rows);
    }
}

/// Every one of the uploads `rows`, made one after another on the table
/// `files`, was accepted: when its turn came `save_file` had nothing to
/// refuse it for.
pub open spec fn all_accepted(files: Seq<FileRecord>, rows: Seq<FileRecord>) -> bool {
    forall|i: int|
        0 <= i < rows.len() ==> save_file_failure(
            after_saves(files, rows.take(i)),
            (#[trigger] rows[i]).id,
            rows[i].file_size,
            BlobWrite::Written,
        ) is None
}

/// The row `f` holds the path under `upload_dir` that its identifier and
/// original name give, and its identifier has the canonical form: it is a
/// row as `save_file` records it for an identifier of `new_blob`.
pub open spec fn is_stored_under(upload_dir: Seq<char>, f: FileRecord) -> bool {
    &&& is_canonical_id(f.id)
    &&& f.storage_path == storage_path_of(upload_dir, stored_name_of(f.id, f.original_filename))
}

/// What accepted uploads have made of the table before the `i`-th of them.
pub proof fn lemma_accepted_uploads_so_far(files: Seq<FileRecord>, rows: Seq<FileRecord>, i: int)
    requires
        all_accepted(files, rows),
        0 <= i <= rows.len(),
    ensures
        after_saves(files, rows.take(i)) == files + rows.take(i),
    decreases i,
{
    if i == 0 {
        assert(files + rows.take(0) =~= files);
    } else {
        lemma_accepted_uploads_so_far(files, rows, i - 1);
        assert(rows.take(i).drop_last() =~= rows.take(i - 1));
        assert(rows.take(i).last() == rows[i - 1]);
        assert((files + rows.take(i - 1)).push(rows[i - 1]) =~= files + rows.take(i));
    }
}

/// However many uploads were accepted, in whatever order they took effect:
/// each has made one row, so the table has grown by their number; their
/// identifiers differ from one another, and so do the paths of their blobs;
/// and every one of them is a row of the table.
pub proof fn law_accepted_uploads_are_all_recorded(
    upload_dir: Seq<char>,
    files: Seq<FileRecord>,
    rows: Seq<FileRecord>,
)
    requires
        all_accepted(files, rows),
        forall|i: int| 0 <= i < rows.len() ==> is_stored_under(upload_dir, #[trigger] rows[i]),
    ensures
        after_saves(files, rows) == files + rows,
        after_saves(files, rows).len() == files.len() + rows.len(),
        forall|i: int, j: int|
            0 <= i < j < rows.len() ==> (#[trigger] rows[i]).id != (#[trigger] rows[j]).id,
        forall|i: int, j: int|
            0 <= i < j < rows.len() ==> (#[trigger] rows[i]).storage_path != (
            #[trigger] rows[j]).storage_path,
        forall|i: int|
            0 <= i < rows.len() ==> after_saves(files, rows).contains(#[trigger] rows[i]),
{
    lemma_accepted_uploads_so_far(files, rows, rows.len() as int);
    assert(rows.take(rows.len() as int) =~= rows);
    assert forall|i: int, j: int| 0 <= i < j < rows.len() implies (#[trigger] rows[i]).id != (
    #[trigger] rows[j]).id by {
        lemma_accepted_uploads_so_far(files, rows, j);
        let before = files + rows.take(j);
        assert(before[files.len() + i] == rows[i]);
        if rows[i].id == rows[j].id {
            assert(has_file(before, rows[j].id));
        }
    }
    assert forall|i: int, j: int| 0 <= i < j < rows.len() implies (#[trigger] rows[i]).storage_path
        != (#[trigger] rows[j]).storage_path by {
        let a = rows[i];
        let b = rows[j];
        assert(is_stored_under(upload_dir, a) && is_stored_under(upload_dir, b));
        if a.storage_path == b.storage_path {
            lemma_paths_differ_with_names(
                upload_dir,
                stored_name_of(a.id, a.original_filename),
                stored_name_of(b.id, b.original_filename),
            );
            lemma_stored_name_begins_with_id(a.id, a.original_filename);
            lemma_stored_name_begins_with_id(b.id, b.original_filename);
            assert(a.id == b.id);
        }
    }
    assert forall|i: int| 0 <= i < rows.len() implies after_saves(files, rows).contains(
        #[trigger] rows[i],
    ) by {
        assert((files + rows)[files.len() + i] == rows[i]);
    }
}

/// Uploads that were accepted on an empty table, all into the same
/// directory or all into none, are what the listing of that place holds:
/// as many rows as there were uploads, and each upload once. `listing`
/// stands for what `list_files` returns for `parent`.
pub proof fn law_accepted_uploads_are_all_listed(
    rows: Seq<FileRecord>,
    parent: Option<Seq<char>>,
    listing: Seq<FileRecord>,
)
    requires
        all_accepted(Seq::empty(), rows),
        forall|i: int| 0 <= i < rows.len() ==> (#[trigger] rows[i]).parent_directory_id == parent,
        listing.to_multiset() == files_in(after_saves(Seq::empty(), rows), parent).to_multiset(),
    ensures
        listing.len() == rows.len(),
        listing.to_multiset() == rows.to_multiset(),
        forall|i: int|
            0 <= i < rows.len() ==> listing.to_multiset().count(#[trigger] rows[i]) == 1,
{
    let none = Seq::<FileRecord>::empty();
    lemma_accepted_uploads_so_far(none, rows, rows.len() as int);
    assert(rows.take(rows.len() as int) =~= rows);
    assert(none + rows =~= rows);
    lemma_filter_keeps_all(rows, file_lies_in(parent));
    to_multiset_len(listing);
    to_multiset_len(rows);
    assert forall|i: int, j: int|
        0 <= i < rows.len() && 0 <= j < rows.len() && i != j implies rows[i] != rows[j] by {
        let lo = if i < j { i } else { j };
        let hi = if i < j { j } else { i };
        lemma_accepted_uploads_so_far(none, rows, hi);
        let before = none + rows.take(hi);
        assert(before[lo] == rows[lo]);
        if rows[lo].id == rows[hi].id {
            assert(has_file(before, rows[hi].id));
        }
    }
    rows.lemma_multiset_has_no_duplicates();
    assert forall|i: int| 0 <= i < rows.len() implies listing.to_multiset().count(
        #[trigger] rows[i],
    ) == 1 by {
        assert(rows.contains(rows[i]));
        to_multiset_contains(rows, rows[i]);
    }
}

/// `parent` names a directory of the table, or nothing.
pub open spec fn resolves(dirs: Seq<DirectoryRecord>, parent: Option<Seq<char>>) -> bool {
    match parent {
        Some(p) => has_directory(dirs, p),
        None => true,
    }
}

/// Every file and every directory lies in a directory of the table, or in
/// none.
pub open spec fn references_resolve(s: StoreView) -> bool {
    &&& forall|i: int|
        0 <= i < s.files.len() ==> resolves(
            s.directories,
            (#[trigger] s.files[i]).parent_directory_id,
        )
    &&& forall|i: int|
        0 <= i < s.directories.len() ==> resolves(
            s.directories,
            (#[trigger] s.directories[i]).parent_id,
        )
}

/// After a directory has been deleted neither it nor anything that lay below
/// it is left in the tables.
pub proof fn law_delete_directory_leaves_nothing_below(s: StoreView, id: Seq<char>)
    requires
        has_directory(s.directories, id),
    ensures
        !has_directory(delete_directory_state(s, id).directories, id),
        forall|i: int|
            0 <= i < delete_directory_state(s, id).directories.len() ==> !reaches(
                s.directories,
                (#[trigger] delete_directory_state(s, id).directories[i]).id,
                id,
            ),
        forall|i: int|
            0 <= i < delete_directory_state(s, id).files.len() ==> !file_is_under(
                s.directories,
                #[trigger] delete_directory_state(s, id).files[i],
                id,
            ),
{
    let after = delete_directory_state(s, id);
    assert forall|i: int| 0 <= i < after.directories.len() implies !reaches(
        s.directories,
        (#[trigger] after.directories[i]).id,
        id,
    ) by {
        let j = lemma_filtered_row_is_a_row(
            s.directories,
            directory_is_outside(s.directories, id),
            i,
        );
    }
    assert forall|i: int| 0 <= i < after.files.len() implies !file_is_under(
        s.directories,
        #[trigger] after.files[i],
        id,
    ) by {
        let j = lemma_filtered_row_is_a_row(s.files, file_is_outside(s.directories, id), i);
    }
    if has_directory(after.directories, id) {
        let k = choose|k: int|
            0 <= k < after.directories.len() && (#[trigger] after.directories[k]).id == id;
        lemma_reaches_itself(s.directories, id);
    }
}

/// Deleting a directory breaks no reference: where every file and directory
/// lay in a directory of the table, or in none, it still does afterwards.
pub proof fn law_delete_directory_keeps_references(s: StoreView, id: Seq<char>)
    requires
        s.wf(),
        references_resolve(s),
    ensures
        references_resolve(delete_directory_state(s, id)),
{
    let after = delete_directory_state(s, id);
    if has_directory(s.directories, id) {
        let outside = directory_is_outside(s.directories, id);
        lemma_reaches_itself(s.directories, id);
        assert forall|p: Seq<char>|
            has_directory(s.directories, p) && !reaches(
                s.directories,
                p,
                id,
            ) implies #[trigger] has_directory(after.directories, p) by {
            let k = directory_position(s.directories, p);
            assert(s.directories[k].id == p);
            s.directories.lemma_filter_contains(outside, k);
            let m = choose|m: int|
                0 <= m < after.directories.len() && after.directories[m] == s.directories[k];
            assert(after.directories[m].id == p);
        }
        assert forall|i: int| 0 <= i < after.files.len() implies resolves(
            after.directories,
            (#[trigger] after.files[i]).parent_directory_id,
        ) by {
            let j = lemma_filtered_row_is_a_row(s.files, file_is_outside(s.directories, id), i);
            assert(resolves(s.directories, s.files[j].parent_directory_id));
            match s.files[j].parent_directory_id {
                Some(p) => {
                    assert(has_directory(after.directories, p));
                },
                None => {},
            }
        }
        assert forall|i: int| 0 <= i < after.directories.len() implies resolves(
            after.directories,
            (#[trigger] after.directories[i]).parent_id,
        ) by {
            let j = lemma_filtered_row_is_a_row(s.directories, outside, i);
            let d = s.directories[j];
            assert(resolves(s.directories, d.parent_id));
            match d.parent_id {
                Some(p) => {
                    lemma_row_is_found(s.directories, j);
                    lemma_reaches_through_parent(s.directories, d.id, p, id);
                    assert(has_directory(after.directories, p));
                },
                None => {},
            }
        }
    }
}

/// Recording a file, creating a directory, and moving either breaks no
/// reference, as long as the directory that is named exists: where every
/// file and directory lay in a directory of the table, or in none, it still
/// does afterwards. Deleting a file breaks none either.
pub proof fn law_changes_keep_references(
    s: StoreView,
    f: FileRecord,
    d: DirectoryRecord,
    id: Seq<char>,
    parent: Option<Seq<char>>,
    now: Seq<char>,
)
    requires
        references_resolve(s),
    ensures
        resolves(s.directories, f.parent_directory_id) ==> references_resolve(
            StoreView { files: s.files.push(f), directories: s.directories },
        ),
        resolves(s.directories, d.parent_id) ==> references_resolve(
            StoreView { files: s.files, directories: s.directories.push(d) },
        ),
        resolves(s.directories, parent) ==> references_resolve(
            StoreView { files: with_file_parent(s.files, id, parent), directories: s.directories },
        ),
        resolves(s.directories, parent) ==> references_resolve(
            StoreView {
                files: s.files,
                directories: with_directory_parent(s.directories, id, parent, now),
            },
        ),
        references_resolve(
            StoreView { files: without_file(s.files, id), directories: s.directories },
        ),
{
    let dirs = s.directories;
    if resolves(dirs, f.parent_directory_id) {
        let grown = s.files.push(f);
        assert forall|i: int| 0 <= i < grown.len() implies resolves(
            dirs,
            (#[trigger] grown[i]).parent_directory_id,
        ) by {
            if i < s.files.len() {
                assert(grown[i] == s.files[i]);
            }
        }
    }
    if resolves(dirs, d.parent_id) {
        let grown = dirs.push(d);
        assert forall|p: Seq<char>| has_directory(dirs, p) implies #[trigger] has_directory(
            grown,
            p,
        ) by {
            let k = directory_position(dirs, p);
            assert(grown[k].id == p);
        }
        assert forall|i: int| 0 <= i < s.files.len() implies resolves(
            grown,
            (#[trigger] s.files[i]).parent_directory_id,
        ) by {
            assert(resolves(dirs, s.files[i].parent_directory_id));
        }
        assert forall|i: int| 0 <= i < grown.len() implies resolves(
            grown,
            (#[trigger] grown[i]).parent_id,
        ) by {
            if i < dirs.len() {
                assert(grown[i] == dirs[i]);
                assert(resolves(dirs, dirs[i].parent_id));
            }
        }
    }
    if resolves(dirs, parent) {
        let moved = with_file_parent(s.files, id, parent);
        assert forall|i: int| 0 <= i < moved.len() implies resolves(
            dirs,
            (#[trigger] moved[i]).parent_directory_id,
        ) by {
            assert(resolves(dirs, s.files[i].parent_directory_id));
        }
        let turned = with_directory_parent(dirs, id, parent, now);
        assert forall|p: Seq<char>| has_directory(dirs, p) implies #[trigger] has_directory(
            turned,
            p,
        ) by {
            let k = directory_position(dirs, p);
            assert(turned[k].id == p);
        }
        assert forall|i: int| 0 <= i < s.files.len() implies resolves(
            turned,
            (#[trigger] s.files[i]).parent_directory_id,
        ) by {
            assert(resolves(dirs, s.files[i].parent_directory_id));
        }
        assert forall|i: int| 0 <= i < turned.len() implies resolves(
            turned,
            (#[trigger] turned[i]).parent_id,
        ) by {
            assert(resolves(dirs, dirs[i].parent_id));
        }
    }
    let fewer = without_file(s.files, id);
    assert forall|i: int| 0 <= i < fewer.len() implies resolves(
        dirs,
        (#[trigger] fewer[i]).parent_directory_id,
    ) by {
        let j = lemma_filtered_row_is_a_row(s.files, is_other_file(id), i);
    }
}

} // verus!
