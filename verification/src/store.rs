//! The metadata store: the `files` and `directories` tables and the
//! operations on them. Identifiers and timestamps are handed in, so every
//! operation is a function of the tables and its arguments.

use crate::error::StorageError;
use crate::hierarchy::{
    ancestor, has_directory, lemma_acyclic_is_ranked, lemma_ancestor_last_step,
    lemma_ancestor_stays_none, lemma_empty_is_a_forest, lemma_push_reparents,
    lemma_reparent_keeps_acyclic, lemma_restriction_keeps_acyclic, lemma_row_is_found,
    lemma_update_reparents, parent_of, ranked_by, reaches, step_up, walk_measure, would_cycle,
};
use crate::lex::{bytes_le, bytes_no_later, lemma_bytes_le_total, lemma_bytes_le_transitive};
use crate::models::{copy_opt, opt_chars, Directory, DirectoryRecord, FileMetadata, FileRecord};
use crate::tables::{
    directories_in, directories_inside, directories_outside, directory_is_inside,
    directory_is_outside, directory_lies_in, directory_of, directory_record_of, directory_records,
    file_is_inside, file_is_outside, file_is_under, file_lies_in, file_of, file_record_of,
    file_records, files_in, files_inside, files_outside, has_file, lemma_file_row_is_found,
    lemma_filter_keeps_directories, lemma_filter_keeps_files_unique,
    lemma_move_of_absent_directory, lemma_total_size_push, lemma_without_absent_file,
    lemma_without_file_is_remove, newest_first, ordered_by_name, rows_from, total_size,
    with_directory_parent, with_file_parent, without_file, StoreView,
};
use vstd::prelude::*;
use vstd::seq_lib::{to_multiset_build, to_multiset_insert};
use vstd::string::*;
use vstd::utf8::encode_utf8;

verus! {

/// The two tables.
pub struct MetadataStore {
    files: Vec<FileMetadata>,
    directories: Vec<Directory>,
}

impl View for MetadataStore {
    type V = StoreView;

    closed spec fn view(&self) -> StoreView {
        StoreView {
            files: file_records(self.files@),
            directories: directory_records(self.directories@),
        }
    }
}

impl MetadataStore {
    /// The invariant of the store, which every operation keeps.
    pub open spec fn wf(&self) -> bool {
        self@.wf()
    }

    /// A store with two empty tables.
    pub fn new() -> (store: MetadataStore)
        ensures
            store.wf(),
            store@.files == Seq::<FileRecord>::empty(),
            store@.directories == Seq::<DirectoryRecord>::empty(),
    {
        let store = MetadataStore { files: Vec::new(), directories: Vec::new() };
        proof {
            lemma_empty_is_a_forest();
            assert(store@.files =~= Seq::<FileRecord>::empty());
            assert(store@.directories =~= Seq::<DirectoryRecord>::empty());
        }
        store
    }

    /// The number of file rows.
    pub fn file_count(&self) -> (n: usize)
        ensures
            n == self@.files.len(),
    {
        self.files.len()
    }

    /// The number of directory rows.
    pub fn directory_count(&self) -> (n: usize)
        ensures
            n == self@.directories.len(),
    {
        self.directories.len()
    }

    /// All file rows, in table order.
    pub fn all_files(&self) -> (rows: Vec<FileMetadata>)
        ensures
            file_records(rows@) == self@.files,
    {
        let mut rows: Vec<FileMetadata> = Vec::new();
        let mut i: usize = 0;
        while i < self.files.len()
            invariant
                i <= self.files.len(),
                file_records(rows@) == self@.files.take(i as int),
            decreases self.files.len() - i,
        {
            let ghost so_far = file_records(rows@);
            rows.push(self.files[i].clone());
            assert(file_records(rows@) =~= so_far.push(self@.files[i as int]));
            assert(self@.files.take(i as int + 1) =~= so_far.push(self@.files[i as int]));
            i = i + 1;
        }
        assert(self@.files.take(self@.files.len() as int) =~= self@.files);
        rows
    }

    /// All directory rows, in table order.
    pub fn all_directories(&self) -> (rows: Vec<Directory>)
        ensures
            directory_records(rows@) == self@.directories,
    {
        let mut rows: Vec<Directory> = Vec::new();
        let mut i: usize = 0;
        while i < self.directories.len()
            invariant
                i <= self.directories.len(),
                directory_records(rows@) == self@.directories.take(i as int),
            decreases self.directories.len() - i,
        {
            let ghost so_far = directory_records(rows@);
            rows.push(self.directories[i].clone());
            assert(directory_records(rows@) =~= so_far.push(self@.directories[i as int]));
            assert(self@.directories.take(i as int + 1) =~= so_far.push(
                self@.directories[i as int],
            ));
            i = i + 1;
        }
        assert(self@.directories.take(self@.directories.len() as int) =~= self@.directories);
        rows
    }

    /// The file rows from position `start` on, in table order: the rows
    /// added since the table held `start` rows, where none was removed since.
    pub fn files_from(&self, start: usize) -> (rows: Vec<FileMetadata>)
        ensures
            file_records(rows@) == rows_from(self@.files, start as int),
    {
        let mut rows: Vec<FileMetadata> = Vec::new();
        if start > self.files.len() {
            assert(file_records(rows@) =~= rows_from(self@.files, start as int));
            return rows;
        }
        assert(file_records(rows@) =~= self@.files.subrange(start as int, start as int));
        let mut i: usize = start;
        while i < self.files.len()
            invariant
                start <= i <= self.files.len(),
                file_records(rows@) == self@.files.subrange(start as int, i as int),
            decreases self.files.len() - i,
        {
            let ghost so_far = file_records(rows@);
            rows.push(self.files[i].clone());
            assert(file_records(rows@) =~= so_far.push(self@.files[i as int]));
            assert(self@.files.subrange(start as int, i as int + 1) =~= so_far.push(
                self@.files[i as int],
            ));
            i = i + 1;
        }
        assert(file_records(rows@) =~= rows_from(self@.files, start as int));
        rows
    }

    /// The directory rows from position `start` on, in table order: the rows
    /// added since the table held `start` rows, where none was removed since.
    pub fn directories_from(&self, start: usize) -> (rows: Vec<Directory>)
        ensures
            directory_records(rows@) == rows_from(self@.directories, start as int),
    {
        let mut rows: Vec<Directory> = Vec::new();
        if start > self.directories.len() {
            assert(directory_records(rows@) =~= rows_from(self@.directories, start as int));
            return rows;
        }
        assert(directory_records(rows@) =~= self@.directories.subrange(
            start as int,
            start as int,
        ));
        let mut i: usize = start;
        while i < self.directories.len()
            invariant
                start <= i <= self.directories.len(),
                directory_records(rows@) == self@.directories.subrange(start as int, i as int),
            decreases self.directories.len() - i,
        {
            let ghost so_far = directory_records(rows@);
            rows.push(self.directories[i].clone());
            assert(directory_records(rows@) =~= so_far.push(self@.directories[i as int]));
            assert(self@.directories.subrange(start as int, i as int + 1) =~= so_far.push(
                self@.directories[i as int],
            ));
            i = i + 1;
        }
        assert(directory_records(rows@) =~= rows_from(self@.directories, start as int));
        rows
    }

    /// The position of the row of file `id`.
    fn file_index(&self, id: &String) -> (r: Option<usize>)
        ensures
            match r {
                Some(i) => i < self@.files.len() && self@.files[i as int].id == id@,
                None => !has_file(self@.files, id@),
            },
    {
        let mut i: usize = 0;
        while i < self.files.len()
            invariant
                i <= self.files.len(),
                forall|j: int| 0 <= j < i ==> (#[trigger] self@.files[j]).id != id@,
            decreases self.files.len() - i,
        {
            if self.files[i].id == *id {
                return Some(i);
            }
            i = i + 1;
        }
        None
    }

    /// Whether the table has a row of file `id`.
    pub fn contains_file(&self, id: &str) -> (found: bool)
        ensures
            found == has_file(self@.files, id@),
    {
        let key = String::from_str(id);
        self.file_index(&key).is_some()
    }

    /// Whether the table has a row of directory `id`.
    pub fn contains_directory(&self, id: &str) -> (found: bool)
        ensures
            found == has_directory(self@.directories, id@),
    {
        let key = String::from_str(id);
        self.directory_index(&key).is_some()
    }

    /// The row of file `id`, if there is one.
    pub fn get_file_metadata(&self, id: &str) -> (row: Option<FileMetadata>)
        requires
            self.wf(),
        ensures
            file_record_of(row) == file_of(self@.files, id@),
    {
        let key = String::from_str(id);
        match self.file_index(&key) {
            Some(i) => {
                proof {
                    lemma_file_row_is_found(self@.files, i as int);
                }
                Some(self.files[i].clone())
            },
            None => None,
        }
    }

    /// Adds a file row. An identifier that is already taken is refused, and
    /// the table is then left as it was.
    pub fn insert_file(&mut self, row: FileMetadata) -> (r: Result<(), StorageError>)
        requires
            old(self).wf(),
        ensures
            final(self).wf(),
            final(self)@.directories == old(self)@.directories,
            r is Err == has_file(old(self)@.files, row@.id),
            r is Err ==> r == Err::<(), StorageError>(StorageError::MetadataIO)
                && final(self)@.files == old(self)@.files,
            r is Ok ==> final(self)@.files == old(self)@.files.push(row@),
    {
        if self.file_index(&row.id).is_some() {
            return Err(StorageError::MetadataIO);
        }
        let ghost before = self@.files;
        let ghost rec = row@;
        self.files.push(row);
        proof {
            assert(self@.files =~= before.push(rec));
            assert forall|i: int, j: int| 0 <= i < j < self@.files.len() implies (
            #[trigger] self@.files[i]).id != (#[trigger] self@.files[j]).id by {
                if j == before.len() {
                    assert(before[i].id != rec.id);
                } else {
                    assert(before[i].id != before[j].id);
                }
            }
        }
        Ok(())
    }

    /// Removes the row of file `id`, and says whether there was one.
    pub fn remove_file(&mut self, id: &str) -> (removed: bool)
        requires
            old(self).wf(),
        ensures
            final(self).wf(),
            removed == has_file(old(self)@.files, id@),
            final(self)@.files == without_file(old(self)@.files, id@),
            final(self)@.directories == old(self)@.directories,
    {
        let key = String::from_str(id);
        let ghost before = self@.files;
        match self.file_index(&key) {
            Some(i) => {
                let _gone = self.files.remove(i);
                proof {
                    assert(before[i as int].id == id@);
                    lemma_without_file_is_remove(before, i as int);
                    assert(self@.files =~= before.remove(i as int));
                    assert forall|a: int, b: int| 0 <= a < b < self@.files.len() implies (
                    #[trigger] self@.files[a]).id != (#[trigger] self@.files[b]).id by {
                        let a0 = if a < i { a } else { a + 1 };
                        let b0 = if b < i { b } else { b + 1 };
                        assert(before[a0].id != before[b0].id);
                    }
                }
                true
            },
            None => {
                proof {
                    lemma_without_absent_file(before, id@);
                }
                false
            },
        }
    }

    /// Puts file `id` into `parent` and returns its new row; nothing happens
    /// where there is no such file. Whether `parent` names a directory is not
    /// asked.
    pub fn move_file(&mut self, id: &str, parent: Option<String>) -> (row: Option<FileMetadata>)
        requires
            old(self).wf(),
        ensures
            final(self).wf(),
            final(self)@.files == with_file_parent(old(self)@.files, id@, opt_chars(parent)),
            final(self)@.directories == old(self)@.directories,
            file_record_of(row) == file_of(final(self)@.files, id@),
            row is Some == has_file(old(self)@.files, id@),
    {
        let key = String::from_str(id);
        let ghost before = self@.files;
        match self.file_index(&key) {
            Some(i) => {
                let current = &self.files[i];
                let moved = FileMetadata {
                    id: current.id.clone(),
                    filename: current.filename.clone(),
                    original_filename: current.original_filename.clone(),
                    file_size: current.file_size,
                    mime_type: copy_opt(&current.mime_type),
                    storage_path: current.storage_path.clone(),
                    uploaded_at: current.uploaded_at.clone(),
                    description: copy_opt(&current.description),
                    parent_directory_id: parent,
                };
                let answer = moved.clone();
                self.files.set(i, moved);
                proof {
                    let after = with_file_parent(before, id@, opt_chars(parent));
                    assert forall|j: int| 0 <= j < before.len() implies #[trigger] self@.files[j]
                        == after[j] by {
                        if j != i {
                            if j < i {
                                assert(before[j].id != before[i as int].id);
                            } else {
                                assert(before[i as int].id != before[j].id);
                            }
                        }
                    }
                    assert(self@.files =~= after);
                    assert forall|a: int, b: int| 0 <= a < b < self@.files.len() implies (
                    #[trigger] self@.files[a]).id != (#[trigger] self@.files[b]).id by {
                        assert(before[a].id != before[b].id);
                    }
                    lemma_file_row_is_found(self@.files, i as int);
                }
                Some(answer)
            },
            None => {
                proof {
                    let after = with_file_parent(before, id@, opt_chars(parent));
                    assert forall|j: int| 0 <= j < before.len() implies before[j] == after[j] by {
                        if before[j].id == id@ {
                            assert(has_file(before, id@));
                        }
                    }
                    assert(before =~= after);
                }
                None
            },
        }
    }

    /// The position of the row of directory `id`.
    fn directory_index(&self, id: &String) -> (r: Option<usize>)
        ensures
            match r {
                Some(i) => i < self@.directories.len() && self@.directories[i as int].id == id@,
                None => !has_directory(self@.directories, id@),
            },
    {
        let mut i: usize = 0;
        while i < self.directories.len()
            invariant
                i <= self.directories.len(),
                forall|j: int| 0 <= j < i ==> (#[trigger] self@.directories[j]).id != id@,
            decreases self.directories.len() - i,
        {
            if self.directories[i].id == *id {
                return Some(i);
            }
            i = i + 1;
        }
        None
    }

    /// The row of directory `id`, if there is one.
    pub fn get_directory(&self, id: &str) -> (row: Option<Directory>)
        requires
            self.wf(),
        ensures
            directory_record_of(row) == directory_of(self@.directories, id@),
    {
        let key = String::from_str(id);
        match self.directory_index(&key) {
            Some(i) => {
                proof {
                    lemma_row_is_found(self@.directories, i as int);
                }
                Some(self.directories[i].clone())
            },
            None => None,
        }
    }

    /// Walks up from `start`, parent by parent, and says whether `target` is
    /// met: whether `target` is `start` or lies above it.
    fn walk_meets(&self, start: &String, target: &String) -> (met: bool)
        requires
            self.wf(),
        ensures
            met == reaches(self@.directories, start@, target@),
    {
        let ghost dirs = self@.directories;
        proof {
            lemma_acyclic_is_ranked(dirs);
        }
        let ghost rank = choose|rank: spec_fn(Seq<char>) -> nat| ranked_by(dirs, rank);
        let ghost mut n: nat = 0;
        let mut at: &String = start;
        loop
            invariant
                self.wf(),
                dirs == self@.directories,
                ranked_by(dirs, rank),
                ancestor(dirs, Some(start@), n) == Some(at@),
                forall|k: nat| k < n ==> ancestor(dirs, Some(start@), k) != Some(target@),
            decreases walk_measure(dirs, rank, at@),
        {
            if *at == *target {
                return true;
            }
            proof {
                lemma_ancestor_last_step(dirs, Some(start@), n);
            }
            let next: Option<&String> = match self.directory_index(at) {
                Some(i) => {
                    proof {
                        lemma_row_is_found(dirs, i as int);
                    }
                    match &self.directories[i].parent_id {
                        Some(p) => Some(p),
                        None => None,
                    }
                },
                None => None,
            };
            match next {
                Some(p) => {
                    proof {
                        assert(parent_of(dirs, at@) == Some(p@));
                        n = n + 1;
                    }
                    at = p;
                },
                None => {
                    proof {
                        assert(step_up(dirs, Some(at@)) is None);
                        assert forall|k: nat| ancestor(dirs, Some(start@), k) != Some(
                            target@,
                        ) by {
                            if k > n {
                                lemma_ancestor_stays_none(dirs, Some(start@), n + 1, k);
                            }
                        }
                    }
                    return false;
                },
            }
        }
    }

    /// Whether `id` is the directory `ancestor` or lies below it, at any
    /// depth.
    pub fn is_at_or_below(&self, id: &str, ancestor: &str) -> (met: bool)
        requires
            self.wf(),
        ensures
            met == reaches(self@.directories, id@, ancestor@),
    {
        let from = String::from_str(id);
        let to = String::from_str(ancestor);
        self.walk_meets(&from, &to)
    }

    /// Whether giving `id` the parent `new_parent` would close a cycle.
    fn closes_cycle(&self, id: &String, new_parent: &Option<String>) -> (r: bool)
        requires
            self.wf(),
        ensures
            r == would_cycle(self@.directories, id@, opt_chars(*new_parent)),
    {
        match new_parent {
            Some(p) => self.walk_meets(p, id),
            None => false,
        }
    }

    /// Adds a directory row. An identifier that is already taken is refused,
    /// and so is a row that would close a cycle with rows that already name
    /// it; the table is then left as it was. Whether the parent names a
    /// directory is not asked.
    pub fn insert_directory(&mut self, row: Directory) -> (r: Result<(), StorageError>)
        requires
            old(self).wf(),
        ensures
            final(self).wf(),
            final(self)@.files == old(self)@.files,
            r is Err == (has_directory(old(self)@.directories, row@.id) || would_cycle(
                old(self)@.directories,
                row@.id,
                row@.parent_id,
            )),
            r is Err ==> r == Err::<(), StorageError>(StorageError::MetadataIO)
                && final(self)@.directories == old(self)@.directories,
            r is Ok ==> final(self)@.directories == old(self)@.directories.push(row@),
    {
        if self.directory_index(&row.id).is_some() {
            return Err(StorageError::MetadataIO);
        }
        if self.closes_cycle(&row.id, &row.parent_id) {
            return Err(StorageError::MetadataIO);
        }
        let ghost before = self@.directories;
        let ghost rec = row@;
        self.directories.push(row);
        proof {
            assert(self@.directories =~= before.push(rec));
            lemma_push_reparents(before, rec);
            lemma_reparent_keeps_acyclic(before, self@.directories, rec.id, rec.parent_id);
        }
        Ok(())
    }

    /// Puts directory `id` into `new_parent`, stamps the change with `now`,
    /// and returns the new row; nothing happens where there is no such
    /// directory. A move that would make the directory its own ancestor is
    /// refused before anything else is looked at, and changes nothing.
    pub fn move_directory(&mut self, id: &str, new_parent: Option<String>, now: String) -> (r:
        Result<Option<Directory>, StorageError>)
        requires
            old(self).wf(),
        ensures
            final(self).wf(),
            final(self)@.files == old(self)@.files,
            r is Err == would_cycle(old(self)@.directories, id@, opt_chars(new_parent)),
            r is Err ==> r == Err::<Option<Directory>, StorageError>(StorageError::InvalidMove)
                && final(self)@.directories == old(self)@.directories,
            r is Ok ==> final(self)@.directories == with_directory_parent(
                old(self)@.directories,
                id@,
                opt_chars(new_parent),
                now@,
            ),
            r is Ok ==> directory_record_of(r->Ok_0) == directory_of(final(self)@.directories, id@),
            r is Ok ==> (r->Ok_0 is Some == has_directory(old(self)@.directories, id@)),
    {
        let key = String::from_str(id);
        if self.closes_cycle(&key, &new_parent) {
            return Err(StorageError::InvalidMove);
        }
        let ghost before = self@.directories;
        let ghost after = with_directory_parent(before, id@, opt_chars(new_parent), now@);
        match self.directory_index(&key) {
            Some(i) => {
                let current = &self.directories[i];
                let moved = Directory {
                    id: current.id.clone(),
                    name: current.name.clone(),
                    parent_id: new_parent,
                    created_at: current.created_at.clone(),
                    updated_at: now,
                };
                let answer = moved.clone();
                self.directories.set(i, moved);
                proof {
                    assert forall|j: int|
                        0 <= j < before.len() implies #[trigger] self@.directories[j]
                        == after[j] by {
                        if j < i {
                            assert(before[j].id != before[i as int].id);
                        } else if j > i {
                            assert(before[i as int].id != before[j].id);
                        }
                    }
                    assert(self@.directories =~= after);
                    lemma_update_reparents(before, after, i as int, opt_chars(new_parent));
                    lemma_reparent_keeps_acyclic(before, after, id@, opt_chars(new_parent));
                    lemma_row_is_found(after, i as int);
                }
                Ok(Some(answer))
            },
            None => {
                proof {
                    lemma_move_of_absent_directory(before, id@, opt_chars(new_parent), now@);
                }
                Ok(None)
            },
        }
    }

    /// Removes directory `id` with everything below it: the directories that
    /// lie under it at any depth, and the files that lie in any of them. Says
    /// whether there was such a directory; where there was none, nothing
    /// changes.
    pub fn remove_directory(&mut self, id: &str) -> (removed: bool)
        requires
            old(self).wf(),
        ensures
            final(self).wf(),
            removed == has_directory(old(self)@.directories, id@),
            removed ==> final(self)@.directories == directories_outside(
                old(self)@.directories,
                id@,
            ) && final(self)@.files == files_outside(
                old(self)@.directories,
                old(self)@.files,
                id@,
            ),
            !removed ==> final(self)@ == old(self)@,
    {
        let key = String::from_str(id);
        if self.directory_index(&key).is_none() {
            return false;
        }
        let ghost dirs = self@.directories;
        let ghost files = self@.files;
        let mut kept_dirs: Vec<Directory> = Vec::new();
        let mut i: usize = 0;
        assert(dirs.take(0).filter(directory_is_outside(dirs, id@)) =~= Seq::<
            DirectoryRecord,
        >::empty()) by {
            reveal(Seq::filter);
        }
        while i < self.directories.len()
            invariant
                self.wf(),
                dirs == self@.directories,
                key@ == id@,
                i <= self.directories.len(),
                directory_records(kept_dirs@) == dirs.take(i as int).filter(
                    directory_is_outside(dirs, id@),
                ),
            decreases self.directories.len() - i,
        {
            let row = &self.directories[i];
            let below = self.walk_meets(&row.id, &key);
            proof {
                assert(dirs.take(i as int + 1) =~= dirs.take(i as int).push(dirs[i as int]));
                dirs.take(i as int).lemma_filter_push(
                    dirs[i as int],
                    directory_is_outside(dirs, id@),
                );
            }
            if !below {
                let ghost so_far = directory_records(kept_dirs@);
                kept_dirs.push(row.clone());
                assert(directory_records(kept_dirs@) =~= so_far.push(dirs[i as int]));
            }
            i = i + 1;
        }
        let mut kept_files: Vec<FileMetadata> = Vec::new();
        let mut j: usize = 0;
        assert(files.take(0).filter(file_is_outside(dirs, id@)) =~= Seq::<FileRecord>::empty()) by {
            reveal(Seq::filter);
        }
        while j < self.files.len()
            invariant
                self.wf(),
                dirs == self@.directories,
                files == self@.files,
                key@ == id@,
                j <= self.files.len(),
                file_records(kept_files@) == files.take(j as int).filter(
                    file_is_outside(dirs, id@),
                ),
            decreases self.files.len() - j,
        {
            let row = &self.files[j];
            let under = match &row.parent_directory_id {
                Some(p) => self.walk_meets(p, &key),
                None => false,
            };
            proof {
                assert(under == file_is_under(dirs, files[j as int], id@));
                assert(files.take(j as int + 1) =~= files.take(j as int).push(files[j as int]));
                files.take(j as int).lemma_filter_push(files[j as int], file_is_outside(dirs, id@));
            }
            if !under {
                let ghost so_far = file_records(kept_files@);
                kept_files.push(row.clone());
                assert(file_records(kept_files@) =~= so_far.push(files[j as int]));
            }
            j = j + 1;
        }
        proof {
            assert(dirs.take(dirs.len() as int) =~= dirs);
            assert(files.take(files.len() as int) =~= files);
            lemma_filter_keeps_directories(dirs, directory_is_outside(dirs, id@));
            lemma_restriction_keeps_acyclic(dirs, directories_outside(dirs, id@));
            lemma_filter_keeps_files_unique(files, file_is_outside(dirs, id@));
        }
        self.directories = kept_dirs;
        self.files = kept_files;
        true
    }

    /// The directories that are `id` or lie below it at any depth, in table
    /// order.
    pub fn directories_at_or_below(&self, id: &str) -> (rows: Vec<Directory>)
        requires
            self.wf(),
        ensures
            directory_records(rows@) == directories_inside(self@.directories, id@),
    {
        let key = String::from_str(id);
        let ghost dirs = self@.directories;
        let mut rows: Vec<Directory> = Vec::new();
        let mut i: usize = 0;
        assert(dirs.take(0).filter(directory_is_inside(dirs, id@)) =~= Seq::<
            DirectoryRecord,
        >::empty()) by {
            reveal(Seq::filter);
        }
        while i < self.directories.len()
            invariant
                self.wf(),
                dirs == self@.directories,
                key@ == id@,
                i <= self.directories.len(),
                directory_records(rows@) == dirs.take(i as int).filter(
                    directory_is_inside(dirs, id@),
                ),
            decreases self.directories.len() - i,
        {
            let row = &self.directories[i];
            let inside = self.walk_meets(&row.id, &key);
            proof {
                assert(dirs.take(i as int + 1) =~= dirs.take(i as int).push(dirs[i as int]));
                dirs.take(i as int).lemma_filter_push(
                    dirs[i as int],
                    directory_is_inside(dirs, id@),
                );
            }
            if inside {
                let ghost so_far = directory_records(rows@);
                rows.push(row.clone());
                assert(directory_records(rows@) =~= so_far.push(dirs[i as int]));
            }
            i = i + 1;
        }
        proof {
            assert(dirs.take(dirs.len() as int) =~= dirs);
        }
        rows
    }

    /// The files that lie in `id` or in a directory below it at any depth,
    /// in table order.
    pub fn files_at_or_below(&self, id: &str) -> (rows: Vec<FileMetadata>)
        requires
            self.wf(),
        ensures
            file_records(rows@) == files_inside(self@.directories, self@.files, id@),
    {
        let key = String::from_str(id);
        let ghost dirs = self@.directories;
        let ghost files = self@.files;
        let mut rows: Vec<FileMetadata> = Vec::new();
        let mut j: usize = 0;
        assert(files.take(0).filter(file_is_inside(dirs, id@)) =~= Seq::<FileRecord>::empty()) by {
            reveal(Seq::filter);
        }
        while j < self.files.len()
            invariant
                self.wf(),
                dirs == self@.directories,
                files == self@.files,
                key@ == id@,
                j <= self.files.len(),
                file_records(rows@) == files.take(j as int).filter(file_is_inside(dirs, id@)),
            decreases self.files.len() - j,
        {
            let row = &self.files[j];
            let under = match &row.parent_directory_id {
                Some(p) => self.walk_meets(p, &key),
                None => false,
            };
            proof {
                assert(under == file_is_under(dirs, files[j as int], id@));
                assert(files.take(j as int + 1) =~= files.take(j as int).push(files[j as int]));
                files.take(j as int).lemma_filter_push(files[j as int], file_is_inside(dirs, id@));
            }
            if under {
                let ghost so_far = file_records(rows@);
                rows.push(row.clone());
                assert(file_records(rows@) =~= so_far.push(files[j as int]));
            }
            j = j + 1;
        }
        proof {
            assert(files.take(files.len() as int) =~= files);
        }
        rows
    }

    /// How many files lie directly in directory `id`, and the sum of their
    /// sizes. Files in directories below are not counted. A count or a sum
    /// that does not fit the signed 64-bit range is reported as a failure of
    /// the store.
    pub fn directory_stats(&self, id: &str) -> (r: Result<(i64, i64), StorageError>)
        requires
            self.wf(),
        ensures
            match r {
                Ok((count, size)) => count == files_in(self@.files, Some(id@)).len() && size
                    == total_size(files_in(self@.files, Some(id@))),
                Err(e) => e == StorageError::MetadataIO && (files_in(self@.files, Some(id@)).len()
                    > i64::MAX || total_size(files_in(self@.files, Some(id@))) > i64::MAX
                    || total_size(files_in(self@.files, Some(id@))) < i64::MIN),
            },
    {
        let key = String::from_str(id);
        let ghost files = self@.files;
        let ghost inside = file_lies_in(Some(id@));
        let mut count: u64 = 0;
        let mut size: i128 = 0;
        let mut i: usize = 0;
        assert(files.take(0).filter(inside) =~= Seq::<FileRecord>::empty()) by {
            reveal(Seq::filter);
        }
        while i < self.files.len()
            invariant
                files == self@.files,
                inside == file_lies_in(Some(id@)),
                key@ == id@,
                i <= self.files.len(),
                count == files.take(i as int).filter(inside).len(),
                size == total_size(files.take(i as int).filter(inside)),
                count <= i,
                -0x8000_0000_0000_0000 * i <= size <= 0x8000_0000_0000_0000 * i,
            decreases self.files.len() - i,
        {
            let row = &self.files[i];
            let here = match &row.parent_directory_id {
                Some(p) => *p == key,
                None => false,
            };
            proof {
                assert(here == inside(files[i as int]));
                assert(files.take(i as int + 1) =~= files.take(i as int).push(files[i as int]));
                files.take(i as int).lemma_filter_push(files[i as int], inside);
                lemma_total_size_push(files.take(i as int).filter(inside), files[i as int]);
            }
            if here {
                count = count + 1;
                size = size + row.file_size as i128;
            }
            i = i + 1;
        }
        proof {
            assert(files.take(files.len() as int) =~= files);
        }
        if count > i64::MAX as u64 || size > i64::MAX as i128 || size < i64::MIN as i128 {
            return Err(StorageError::MetadataIO);
        }
        Ok((count as i64, size as i64))
    }

    /// The files that lie directly in `parent`, newest first; with no parent
    /// given, the files that lie in no directory.
    pub fn list_files(&self, parent: &Option<String>) -> (rows: Vec<FileMetadata>)
        requires
            self.wf(),
        ensures
            file_records(rows@).to_multiset() == files_in(
                self@.files,
                opt_chars(*parent),
            ).to_multiset(),
            newest_first(file_records(rows@)),
    {
        let ghost files = self@.files;
        let ghost wanted = file_lies_in(opt_chars(*parent));
        let mut rows: Vec<FileMetadata> = Vec::new();
        let mut i: usize = 0;
        assert(files.take(0).filter(wanted) =~= Seq::<FileRecord>::empty()) by {
            reveal(Seq::filter);
        }
        assert(file_records(rows@) =~= Seq::<FileRecord>::empty());
        while i < self.files.len()
            invariant
                files == self@.files,
                wanted == file_lies_in(opt_chars(*parent)),
                i <= self.files.len(),
                file_records(rows@).to_multiset() == files.take(i as int).filter(
                    wanted,
                ).to_multiset(),
                newest_first(file_records(rows@)),
            decreases self.files.len() - i,
        {
            let row = &self.files[i];
            proof {
                assert(files.take(i as int + 1) =~= files.take(i as int).push(files[i as int]));
                files.take(i as int).lemma_filter_push(files[i as int], wanted);
            }
            if same_text(&row.parent_directory_id, parent) {
                let key = row.uploaded_at.as_str().as_bytes();
                let mut at: usize = 0;
                while at < rows.len() && bytes_no_later(
                    key,
                    rows[at].uploaded_at.as_str().as_bytes(),
                )
                    invariant
                        at <= rows.len(),
                        key@ == encode_utf8(files[i as int].uploaded_at),
                        forall|k: int|
                            0 <= k < at ==> bytes_le(
                                key@,
                                encode_utf8((#[trigger] file_records(rows@)[k]).uploaded_at),
                            ),
                    decreases rows.len() - at,
                {
                    at = at + 1;
                }
                let ghost so_far = file_records(rows@);
                rows.insert(at, row.clone());
                proof {
                    let listed = file_records(rows@);
                    let rec = files[i as int];
                    assert(listed =~= so_far.insert(at as int, rec));
                    to_multiset_insert(so_far, at as int, rec);
                    to_multiset_build(files.take(i as int).filter(wanted), rec);
                    assert forall|a: int, b: int| 0 <= a < b < listed.len() implies bytes_le(
                        encode_utf8(#[trigger] listed[b].uploaded_at),
                        encode_utf8(#[trigger] listed[a].uploaded_at),
                    ) by {
                        if b == at {
                            assert(listed[a] == so_far[a]);
                        } else if a == at {
                            let first_later = encode_utf8(so_far[at as int].uploaded_at);
                            lemma_bytes_le_total(key@, first_later);
                            assert(listed[b] == so_far[b - 1]);
                            if b - 1 > at {
                                assert(bytes_le(
                                    encode_utf8(so_far[b - 1].uploaded_at),
                                    encode_utf8(so_far[at as int].uploaded_at),
                                ));
                                lemma_bytes_le_transitive(
                                    encode_utf8(so_far[b - 1].uploaded_at),
                                    first_later,
                                    key@,
                                );
                            }
                        } else {
                            let a0 = if a < at { a } else { a - 1 };
                            let b0 = if b < at { b } else { b - 1 };
                            assert(listed[a] == so_far[a0]);
                            assert(listed[b] == so_far[b0]);
                            assert(bytes_le(
                                encode_utf8(so_far[b0].uploaded_at),
                                encode_utf8(so_far[a0].uploaded_at),
                            ));
                        }
                    }
                }
            }
            i = i + 1;
        }
        proof {
            assert(files.take(files.len() as int) =~= files);
        }
        rows
    }

    /// The directories that lie directly in `parent`, by name; with no parent
    /// given, the directories that lie in no directory.
    pub fn list_directories(&self, parent: &Option<String>) -> (rows: Vec<Directory>)
        requires
            self.wf(),
        ensures
            directory_records(rows@).to_multiset() == directories_in(
                self@.directories,
                opt_chars(*parent),
            ).to_multiset(),
            ordered_by_name(directory_records(rows@)),
    {
        let ghost dirs = self@.directories;
        let ghost wanted = directory_lies_in(opt_chars(*parent));
        let mut rows: Vec<Directory> = Vec::new();
        let mut i: usize = 0;
        assert(dirs.take(0).filter(wanted) =~= Seq::<DirectoryRecord>::empty()) by {
            reveal(Seq::filter);
        }
        assert(directory_records(rows@) =~= Seq::<DirectoryRecord>::empty());
        while i < self.directories.len()
            invariant
                dirs == self@.directories,
                wanted == directory_lies_in(opt_chars(*parent)),
                i <= self.directories.len(),
                directory_records(rows@).to_multiset() == dirs.take(i as int).filter(
                    wanted,
                ).to_multiset(),
                ordered_by_name(directory_records(rows@)),
            decreases self.directories.len() - i,
        {
            let row = &self.directories[i];
            proof {
                assert(dirs.take(i as int + 1) =~= dirs.take(i as int).push(dirs[i as int]));
                dirs.take(i as int).lemma_filter_push(dirs[i as int], wanted);
            }
            if same_text(&row.parent_id, parent) {
                let key = row.name.as_str().as_bytes();
                let mut at: usize = 0;
                while at < rows.len() && bytes_no_later(rows[at].name.as_str().as_bytes(), key)
                    invariant
                        at <= rows.len(),
                        key@ == encode_utf8(dirs[i as int].name),
                        forall|k: int|
                            0 <= k < at ==> bytes_le(
                                encode_utf8((#[trigger] directory_records(rows@)[k]).name),
                                key@,
                            ),
                    decreases rows.len() - at,
                {
                    at = at + 1;
                }
                let ghost so_far = directory_records(rows@);
                rows.insert(at, row.clone());
                proof {
                    let listed = directory_records(rows@);
                    let rec = dirs[i as int];
                    assert(listed =~= so_far.insert(at as int, rec));
                    to_multiset_insert(so_far, at as int, rec);
                    to_multiset_build(dirs.take(i as int).filter(wanted), rec);
                    assert forall|a: int, b: int| 0 <= a < b < listed.len() implies bytes_le(
                        encode_utf8(#[trigger] listed[a].name),
                        encode_utf8(#[trigger] listed[b].name),
                    ) by {
                        if b == at {
                            assert(listed[a] == so_far[a]);
                        } else if a == at {
                            let first_later = encode_utf8(so_far[at as int].name);
                            lemma_bytes_le_total(first_later, key@);
                            assert(listed[b] == so_far[b - 1]);
                            if b - 1 > at {
                                assert(bytes_le(
                                    encode_utf8(so_far[at as int].name),
                                    encode_utf8(so_far[b - 1].name),
                                ));
                                lemma_bytes_le_transitive(
                                    key@,
                                    first_later,
                                    encode_utf8(so_far[b - 1].name),
                                );
                            }
                        } else {
                            let a0 = if a < at { a } else { a - 1 };
                            let b0 = if b < at { b } else { b - 1 };
                            assert(listed[a] == so_far[a0]);
                            assert(listed[b] == so_far[b0]);
                            assert(bytes_le(
                                encode_utf8(so_far[a0].name),
                                encode_utf8(so_far[b0].name),
                            ));
                        }
                    }
                }
            }
            i = i + 1;
        }
        proof {
            assert(dirs.take(dirs.len() as int) =~= dirs);
        }
        rows
    }
}

/// Whether two optional strings hold the same text, or both none.
pub fn same_text(a: &Option<String>, b: &Option<String>) -> (same: bool)
    ensures
        same == (opt_chars(*a) == opt_chars(*b)),
{
    match a {
        Some(x) => match b {
            Some(y) => *x == *y,
            None => false,
        },
        None => b.is_none(),
    }
}

} // verus!
