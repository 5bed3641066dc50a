//! The storage facade: it names blobs, stamps rows, and keeps the metadata
//! store in step with what the caller did to the blobs on disk.
//!
//! Blobs are written and removed by the caller. For a new file the caller
//! asks where the blob goes, writes it, and then has the row recorded. For a
//! removal the caller removes the blob and then hands in how that went.

use crate::clock::{has_utc_offset, timestamp_now};
use crate::error::StorageError;
use crate::hierarchy::{directory_position, has_directory, would_cycle};
use crate::ids::{fresh_id, is_canonical_id};
use crate::models::{opt_chars, Directory, DirectoryRecord, FileMetadata, FileRecord};
use crate::naming::{storage_path, storage_path_of, stored_name, stored_name_of};
use crate::store::MetadataStore;
use crate::tables::{
    directories_in, directories_inside, directories_outside, directory_of, directory_record_of,
    directory_records, file_of, file_record_of, file_records, files_in, files_inside,
    files_outside, has_file, lemma_move_of_absent_directory, lemma_without_absent_file,
    newest_first, ordered_by_name, rows_from, total_size, with_directory_parent, with_file_parent,
    without_file, StoreView,
};
use vstd::prelude::*;
use vstd::string::*;

verus! {

/// Where the blob of a file is kept.
#[derive(Debug, Clone, PartialEq, Eq)]
pub struct BlobTarget {
    pub id: String,
    pub filename: String,
    pub storage_path: String,
}

/// How the writing of a blob went.
#[derive(Debug, Clone, Copy, PartialEq, Eq, Structural)]
pub enum BlobWrite {
    /// The blob has been written in full.
    Written,
    /// The blob could not be written.
    Failed,
}

/// How the removal of a blob went.
#[derive(Debug, Clone, Copy, PartialEq, Eq, Structural)]
pub enum BlobOutcome {
    /// The blob was there and has been removed.
    Removed,
    /// There was no blob at the path.
    Missing,
    /// The blob could not be removed.
    Failed,
}

/// A file to remove, and how the removal of its blob went.
#[derive(Debug, Clone, PartialEq, Eq)]
pub struct FileRemoval {
    pub id: String,
    pub blob: BlobOutcome,
}

/// The coordinator of blobs and metadata.
pub struct FileStorage {
    upload_dir: String,
    store: MetadataStore,
}

impl View for FileStorage {
    type V = StoreView;

    closed spec fn view(&self) -> StoreView {
        self.store@
    }
}

/// What a new file row holds, given its identifier and upload time.
pub open spec fn new_file_record(
    upload_dir: Seq<char>,
    id: Seq<char>,
    now: Seq<char>,
    original_filename: Seq<char>,
    size: int,
    mime_type: Option<Seq<char>>,
    description: Option<Seq<char>>,
    parent_directory_id: Option<Seq<char>>,
) -> FileRecord {
    FileRecord {
        id,
        filename: stored_name_of(id, original_filename),
        original_filename,
        file_size: size,
        mime_type,
        storage_path: storage_path_of(upload_dir, stored_name_of(id, original_filename)),
        uploaded_at: now,
        description,
        parent_directory_id,
    }
}

/// Why `save_file` refuses to record a file, if it does: the blob was not
/// written, or the identifier is taken, or the content is longer than the
/// signed 64-bit range holds.
pub open spec fn save_file_failure(
    files: Seq<FileRecord>,
    id: Seq<char>,
    length: int,
    blob: BlobWrite,
) -> Option<StorageError> {
    if blob == BlobWrite::Failed {
        Some(StorageError::StorageIO)
    } else if has_file(files, id) || length > i64::MAX {
        Some(StorageError::MetadataIO)
    } else {
        None
    }
}

/// What `delete_file` returns.
pub open spec fn delete_file_result(
    files: Seq<FileRecord>,
    id: Seq<char>,
    blob: BlobOutcome,
) -> Result<bool, StorageError> {
    if !has_file(files, id) {
        Ok(false)
    } else if blob == BlobOutcome::Failed {
        Err(StorageError::StorageIO)
    } else {
        Ok(true)
    }
}

/// The file table that `delete_file` leaves.
pub open spec fn delete_file_table(
    files: Seq<FileRecord>,
    id: Seq<char>,
    blob: BlobOutcome,
) -> Seq<FileRecord> {
    if blob == BlobOutcome::Failed {
        files
    } else {
        without_file(files, id)
    }
}

/// The state that `delete_directory` leaves.
pub open spec fn delete_directory_state(s: StoreView, id: Seq<char>) -> StoreView {
    if has_directory(s.directories, id) {
        StoreView {
            files: files_outside(s.directories, s.files, id),
            directories: directories_outside(s.directories, id),
        }
    } else {
        s
    }
}

/// The identifiers and blob outcomes of a list of removals.
pub open spec fn removals_of(items: Seq<FileRemoval>) -> Seq<(Seq<char>, BlobOutcome)> {
    Seq::new(items.len(), |i: int| (items[i].id@, items[i].blob))
}

/// The texts of a list of strings.
pub open spec fn texts_of(items: Seq<String>) -> Seq<Seq<char>> {
    Seq::new(items.len(), |i: int| items[i]@)
}

/// The removal of one of the blobs of `items` has failed.
pub open spec fn batch_has_failed(items: Seq<(Seq<char>, BlobOutcome)>) -> bool {
    exists|i: int| 0 <= i < items.len() && (#[trigger] items[i]).1 == BlobOutcome::Failed
}

/// How far the removal of a list of files got: the file table it left, and
/// the number of rows removed or the failure that ended it.
pub struct BulkFiles {
    pub files: Seq<FileRecord>,
    pub result: Result<nat, StorageError>,
}

/// Removing the files of `items` one after another, up to the first failure.
pub open spec fn bulk_files(
    files: Seq<FileRecord>,
    items: Seq<(Seq<char>, BlobOutcome)>,
) -> BulkFiles
    decreases items.len(),
{
    if items.len() == 0 {
        BulkFiles { files, result: Ok(0) }
    } else {
        let before = bulk_files(files, items.drop_last());
        let (id, blob) = items.last();
        match before.result {
            Err(_) => before,
            Ok(n) => BulkFiles {
                files: delete_file_table(before.files, id, blob),
                result: match delete_file_result(before.files, id, blob) {
                    Ok(removed) => Ok(
                        if removed {
                            n + 1
                        } else {
                            n
                        },
                    ),
                    Err(e) => Err(e),
                },
            },
        }
    }
}

/// What the removal of a list of directories left, and how many were there.
pub struct BulkDirectories {
    pub state: StoreView,
    pub count: nat,
}

/// Removing the directories of `ids` one after another.
pub open spec fn bulk_directories(s: StoreView, ids: Seq<Seq<char>>) -> BulkDirectories
    decreases ids.len(),
{
    if ids.len() == 0 {
        BulkDirectories { state: s, count: 0 }
    } else {
        let before = bulk_directories(s, ids.drop_last());
        BulkDirectories {
            state: delete_directory_state(before.state, ids.last()),
            count: if has_directory(before.state.directories, ids.last()) {
                before.count + 1
            } else {
                before.count
            },
        }
    }
}

/// The state that `bulk_delete` leaves.
pub open spec fn bulk_delete_state(
    s: StoreView,
    items: Seq<(Seq<char>, BlobOutcome)>,
    ids: Seq<Seq<char>>,
) -> StoreView {
    let after_files = bulk_files(s.files, items);
    let midway = StoreView { files: after_files.files, directories: s.directories };
    match after_files.result {
        Err(_) => midway,
        Ok(_) => bulk_directories(midway, ids).state,
    }
}

/// What `bulk_delete` returns.
pub open spec fn bulk_delete_result(
    s: StoreView,
    items: Seq<(Seq<char>, BlobOutcome)>,
    ids: Seq<Seq<char>>,
) -> Result<(usize, usize), StorageError> {
    let after_files = bulk_files(s.files, items);
    let midway = StoreView { files: after_files.files, directories: s.directories };
    match after_files.result {
        Err(e) => Err(e),
        Ok(n) => Ok((n as usize, bulk_directories(midway, ids).count as usize)),
    }
}

/// A batch that has failed stays as it was at the failure.
pub proof fn lemma_bulk_files_stays_failed(
    files: Seq<FileRecord>,
    items: Seq<(Seq<char>, BlobOutcome)>,
    n: int,
)
    requires
        0 <= n <= items.len(),
        bulk_files(files, items.take(n)).result is Err,
    ensures
        bulk_files(files, items) == bulk_files(files, items.take(n)),
    decreases items.len() - n,
{
    if n < items.len() {
        assert(items.take(n + 1).drop_last() =~= items.take(n));
        lemma_bulk_files_stays_failed(files, items, n + 1);
    } else {
        assert(items.take(n) =~= items);
    }
}

impl FileStorage {
    /// The directory under which blobs are kept.
    pub closed spec fn upload_dir_of(&self) -> Seq<char> {
        self.upload_dir@
    }

    /// The invariant of the tables, which every operation keeps.
    pub open spec fn wf(&self) -> bool {
        self@.wf()
    }

    /// A storage with empty tables that keeps its blobs under `upload_dir`.
    pub fn new(upload_dir: String) -> (storage: FileStorage)
        ensures
            storage.wf(),
            storage.upload_dir_of() == upload_dir@,
            storage@.files == Seq::<FileRecord>::empty(),
            storage@.directories == Seq::<DirectoryRecord>::empty(),
    {
        FileStorage { upload_dir, store: MetadataStore::new() }
    }

    /// The directory under which blobs are kept.
    pub fn upload_dir(&self) -> (dir: String)
        ensures
            dir@ == self.upload_dir_of(),
    {
        self.upload_dir.clone()
    }

    /// The number of file rows.
    pub fn file_count(&self) -> (n: usize)
        ensures
            n == self@.files.len(),
    {
        self.store.file_count()
    }

    /// The number of directory rows.
    pub fn directory_count(&self) -> (n: usize)
        ensures
            n == self@.directories.len(),
    {
        self.store.directory_count()
    }

    /// The file rows from position `start` on, in table order: the rows
    /// added since the table held `start` rows, where none was removed since.
    pub fn files_from(&self, start: usize) -> (rows: Vec<FileMetadata>)
        ensures
            file_records(rows@) == rows_from(self@.files, start as int),
    {
        self.store.files_from(start)
    }

    /// The directory rows from position `start` on, in table order: the rows
    /// added since the table held `start` rows, where none was removed since.
    pub fn directories_from(&self, start: usize) -> (rows: Vec<Directory>)
        ensures
            directory_records(rows@) == rows_from(self@.directories, start as int),
    {
        self.store.directories_from(start)
    }

    /// Whether there is a file `id`.
    pub fn contains_file(&self, id: &str) -> (found: bool)
        ensures
            found == has_file(self@.files, id@),
    {
        self.store.contains_file(id)
    }

    /// Whether there is a directory `id`.
    pub fn contains_directory(&self, id: &str) -> (found: bool)
        ensures
            found == has_directory(self@.directories, id@),
    {
        self.store.contains_directory(id)
    }

    /// All file rows, in table order.
    pub fn all_files(&self) -> (rows: Vec<FileMetadata>)
        ensures
            file_records(rows@) == self@.files,
    {
        self.store.all_files()
    }

    /// All directory rows, in table order.
    pub fn all_directories(&self) -> (rows: Vec<Directory>)
        ensures
            directory_records(rows@) == self@.directories,
    {
        self.store.all_directories()
    }

    /// Takes in a file row that was recorded earlier, as it is. An
    /// identifier that is already taken is refused.
    pub fn restore_file(&mut self, row: FileMetadata) -> (r: Result<(), StorageError>)
        requires
            old(self).wf(),
        ensures
            final(self).wf(),
            final(self).upload_dir_of() == old(self).upload_dir_of(),
            final(self)@.directories == old(self)@.directories,
            r is Err == has_file(old(self)@.files, row@.id),
            r is Err ==> r == Err::<(), StorageError>(StorageError::MetadataIO)
                && final(self)@.files == old(self)@.files,
            r is Ok ==> final(self)@.files == old(self)@.files.push(row@),
    {
        self.store.insert_file(row)
    }

    /// Takes in a directory row that was recorded earlier, as it is. An
    /// identifier that is already taken is refused, and so is a row that
    /// would close a cycle with the rows already taken in.
    pub fn restore_directory(&mut self, row: Directory) -> (r: Result<(), StorageError>)
        requires
            old(self).wf(),
        ensures
            final(self).wf(),
            final(self).upload_dir_of() == old(self).upload_dir_of(),
            final(self)@.files == old(self)@.files,
            r is Err == (has_directory(old(self)@.directories, row@.id) || would_cycle(
                old(self)@.directories,
                row@.id,
                row@.parent_id,
            )),
            r is Err ==> r == Err::<(), StorageError>(StorageError::MetadataIO)
                && final(self)@.directories == old(self)@.directories,
            r is Ok ==> final(self)@.directories == old(self)@.directories.push(row@),
    {
        self.store.insert_directory(row)
    }

    /// Where the blob of file `id` goes, given the name the client gave.
    pub fn blob_target(&self, id: &str, original_filename: &str) -> (target: BlobTarget)
        ensures
            target.id@ == id@,
            target.filename@ == stored_name_of(id@, original_filename@),
            target.storage_path@ == storage_path_of(
                self.upload_dir_of(),
                stored_name_of(id@, original_filename@),
            ),
    {
        let filename = stored_name(id, original_filename);
        let path = storage_path(self.upload_dir.as_str(), filename.as_str());
        BlobTarget { id: String::from_str(id), filename, storage_path: path }
    }

    /// Allocates the identifier of a new file and says where its blob goes.
    /// The caller writes the blob there and then calls `save_file` with the
    /// identifier and with how the writing went.
    pub fn new_blob(&self, original_filename: &str) -> (target: BlobTarget)
        ensures
            is_canonical_id(target.id@),
            target.filename@ == stored_name_of(target.id@, original_filename@),
            target.storage_path@ == storage_path_of(
                self.upload_dir_of(),
                stored_name_of(target.id@, original_filename@),
            ),
    {
        let id = fresh_id();
        self.blob_target(id.as_str(), original_filename)
    }

    /// Records a file uploaded at `now`, after the caller has written its
    /// blob and says in `blob` how that went. Where the blob was not written
    /// nothing is recorded and the failure is reported. The row holds the
    /// stored name and path that `blob_target` gives for `id`, and the length
    /// of `content` as its size. An identifier that is already taken is
    /// refused, and so is content whose length is beyond the signed 64-bit
    /// range. Whether the parent names a directory is not asked.
    pub fn save_file_at(
        &mut self,
        id: &str,
        now: String,
        original_filename: &str,
        content: &[u8],
        mime_type: Option<String>,
        description: Option<String>,
        parent_directory_id: Option<String>,
        blob: BlobWrite,
    ) -> (r: Result<FileMetadata, StorageError>)
        requires
            old(self).wf(),
        ensures
            final(self).wf(),
            final(self).upload_dir_of() == old(self).upload_dir_of(),
            final(self)@.directories == old(self)@.directories,
            match save_file_failure(old(self)@.files, id@, content@.len() as int, blob) {
                Some(e) => r == Err::<FileMetadata, StorageError>(e) && final(self)@.files == old(
                    self,
                )@.files,
                None => r is Ok,
            },
            r is Ok ==> r->Ok_0@ == new_file_record(
                old(self).upload_dir_of(),
                id@,
                now@,
                original_filename@,
                content@.len() as int,
                opt_chars(mime_type),
                opt_chars(description),
                opt_chars(parent_directory_id),
            ) && final(self)@.files == old(self)@.files.push(r->Ok_0@),
    {
        match blob {
            BlobWrite::Failed => {
                return Err(StorageError::StorageIO);
            },
            BlobWrite::Written => {},
        }
        if content.len() as u64 > i64::MAX as u64 {
            return Err(StorageError::MetadataIO);
        }
        let target = self.blob_target(id, original_filename);
        let row = FileMetadata {
            id: target.id,
            filename: target.filename,
            original_filename: String::from_str(original_filename),
            file_size: content.len() as i64,
            mime_type,
            storage_path: target.storage_path,
            uploaded_at: now,
            description,
            parent_directory_id,
        };
        let answer = row.clone();
        match self.store.insert_file(row) {
            Ok(()) => Ok(answer),
            Err(e) => Err(e),
        }
    }

    /// Records a file uploaded now, after the caller has written its blob.
    /// As `save_file_at`, with the time read from the clock: the upload time
    /// is that of the row that comes back, and is given in UTC.
    pub fn save_file(
        &mut self,
        id: &str,
        original_filename: &str,
        content: &[u8],
        mime_type: Option<String>,
        description: Option<String>,
        parent_directory_id: Option<String>,
        blob: BlobWrite,
    ) -> (r: Result<FileMetadata, StorageError>)
        requires
            old(self).wf(),
        ensures
            final(self).wf(),
            final(self).upload_dir_of() == old(self).upload_dir_of(),
            final(self)@.directories == old(self)@.directories,
            match save_file_failure(old(self)@.files, id@, content@.len() as int, blob) {
                Some(e) => r == Err::<FileMetadata, StorageError>(e) && final(self)@.files == old(
                    self,
                )@.files,
                None => r is Ok,
            },
            r is Ok ==> r->Ok_0@ == new_file_record(
                old(self).upload_dir_of(),
                id@,
                r->Ok_0@.uploaded_at,
                original_filename@,
                content@.len() as int,
                opt_chars(mime_type),
                opt_chars(description),
                opt_chars(parent_directory_id),
            ) && final(self)@.files == old(self)@.files.push(r->Ok_0@),
            r is Ok ==> has_utc_offset(r->Ok_0@.uploaded_at),
    {
        let now = timestamp_now();
        self.save_file_at(
            id,
            now,
            original_filename,
            content,
            mime_type,
            description,
            parent_directory_id,
            blob,
        )
    }

    /// The row of file `id`, if there is one.
    pub fn get_file_metadata(&self, id: &str) -> (row: Option<FileMetadata>)
        requires
            self.wf(),
        ensures
            file_record_of(row) == file_of(self@.files, id@),
    {
        self.store.get_file_metadata(id)
    }

    /// The row of file `id`, or the failure that says there is none.
    pub fn lookup_file(&self, id: &str) -> (r: Result<FileMetadata, StorageError>)
        requires
            self.wf(),
        ensures
            match file_of(self@.files, id@) {
                Some(f) => r is Ok && r->Ok_0@ == f,
                None => r == Err::<FileMetadata, StorageError>(StorageError::NotFound),
            },
    {
        match self.store.get_file_metadata(id) {
            Some(row) => Ok(row),
            None => Err(StorageError::NotFound),
        }
    }

    /// The row of directory `id`, or the failure that says there is none.
    pub fn lookup_directory(&self, id: &str) -> (r: Result<Directory, StorageError>)
        requires
            self.wf(),
        ensures
            match directory_of(self@.directories, id@) {
                Some(d) => r is Ok && r->Ok_0@ == d,
                None => r == Err::<Directory, StorageError>(StorageError::NotFound),
            },
    {
        match self.store.get_directory(id) {
            Some(row) => Ok(row),
            None => Err(StorageError::NotFound),
        }
    }

    /// The path of the blob of file `id`, if there is such a file.
    pub fn get_file_path(&self, id: &str) -> (path: Option<String>)
        requires
            self.wf(),
        ensures
            opt_chars(path) == match file_of(self@.files, id@) {
                Some(f) => Some(f.storage_path),
                None => None,
            },
    {
        match self.store.get_file_metadata(id) {
            Some(row) => Some(row.storage_path),
            None => None,
        }
    }

    /// The files that lie directly in `parent_directory_id`, newest first;
    /// with no directory given, the files that lie in none.
    pub fn list_files(&self, parent_directory_id: Option<String>) -> (rows: Vec<FileMetadata>)
        requires
            self.wf(),
        ensures
            file_records(rows@).to_multiset() == files_in(
                self@.files,
                opt_chars(parent_directory_id),
            ).to_multiset(),
            newest_first(file_records(rows@)),
    {
        self.store.list_files(&parent_directory_id)
    }

    /// Removes the row of file `id`, after the caller has removed its blob
    /// and says in `blob` how that went. A blob that was missing is
    /// tolerated. Where the blob could not be removed the row stays and the
    /// failure is reported. Where there is no such file nothing happens,
    /// whatever `blob` says. Returns whether a row was removed.
    pub fn delete_file(&mut self, id: &str, blob: BlobOutcome) -> (r: Result<bool, StorageError>)
        requires
            old(self).wf(),
        ensures
            final(self).wf(),
            final(self).upload_dir_of() == old(self).upload_dir_of(),
            final(self)@.directories == old(self)@.directories,
            r == delete_file_result(old(self)@.files, id@, blob),
            final(self)@.files == delete_file_table(old(self)@.files, id@, blob),
    {
        if !self.store.contains_file(id) {
            proof {
                lemma_without_absent_file(self@.files, id@);
            }
            return Ok(false);
        }
        match blob {
            BlobOutcome::Failed => Err(StorageError::StorageIO),
            _ => {
                let removed = self.store.remove_file(id);
                Ok(removed)
            },
        }
    }

    /// Puts file `id` into `new_parent_directory_id` and returns its new
    /// row; nothing happens where there is no such file. Whether the
    /// directory exists is not asked.
    pub fn move_file(&mut self, id: &str, new_parent_directory_id: Option<String>) -> (row: Option<
        FileMetadata,
    >)
        requires
            old(self).wf(),
        ensures
            final(self).wf(),
            final(self).upload_dir_of() == old(self).upload_dir_of(),
            final(self)@.files == with_file_parent(
                old(self)@.files,
                id@,
                opt_chars(new_parent_directory_id),
            ),
            final(self)@.directories == old(self)@.directories,
            file_record_of(row) == file_of(final(self)@.files, id@),
            row is Some == has_file(old(self)@.files, id@),
    {
        self.store.move_file(id, new_parent_directory_id)
    }

    /// Adds the directory `id`, created at `now`. An identifier that is
    /// already taken is refused, and so is one that rows of the table already
    /// name in a way that would close a cycle. Whether the parent names a
    /// directory is not asked.
    pub fn create_directory_with(
        &mut self,
        id: String,
        now: String,
        name: &str,
        parent_id: Option<String>,
    ) -> (r: Result<Directory, StorageError>)
        requires
            old(self).wf(),
        ensures
            final(self).wf(),
            final(self).upload_dir_of() == old(self).upload_dir_of(),
            final(self)@.files == old(self)@.files,
            r is Err == (has_directory(old(self)@.directories, id@) || would_cycle(
                old(self)@.directories,
                id@,
                opt_chars(parent_id),
            )),
            r is Err ==> r == Err::<Directory, StorageError>(StorageError::MetadataIO)
                && final(self)@.directories == old(self)@.directories,
            r is Ok ==> r->Ok_0@ == (DirectoryRecord {
                id: id@,
                name: name@,
                parent_id: opt_chars(parent_id),
                created_at: now@,
                updated_at: now@,
            }) && final(self)@.directories == old(self)@.directories.push(r->Ok_0@),
    {
        let row = Directory {
            id,
            name: String::from_str(name),
            parent_id,
            created_at: now.clone(),
            updated_at: now,
        };
        let answer = row.clone();
        match self.store.insert_directory(row) {
            Ok(()) => Ok(answer),
            Err(e) => Err(e),
        }
    }

    /// Adds a directory under a fresh identifier, created now. The
    /// identifier and the time are not the caller's to choose, so the
    /// contract speaks of them through the row that comes back: the
    /// identifier has the canonical form and the time is given in UTC.
    pub fn create_directory(&mut self, name: &str, parent_id: Option<String>) -> (r: Result<
        Directory,
        StorageError,
    >)
        requires
            old(self).wf(),
        ensures
            final(self).wf(),
            final(self).upload_dir_of() == old(self).upload_dir_of(),
            final(self)@.files == old(self)@.files,
            r is Err ==> r == Err::<Directory, StorageError>(StorageError::MetadataIO)
                && final(self)@.directories == old(self)@.directories,
            r is Err ==> exists|id: Seq<char>|
                is_canonical_id(id) && (#[trigger] has_directory(old(self)@.directories, id)
                    || would_cycle(old(self)@.directories, id, opt_chars(parent_id))),
            r is Ok ==> r->Ok_0@ == (DirectoryRecord {
                id: r->Ok_0@.id,
                name: name@,
                parent_id: opt_chars(parent_id),
                created_at: r->Ok_0@.created_at,
                updated_at: r->Ok_0@.created_at,
            }) && final(self)@.directories == old(self)@.directories.push(r->Ok_0@),
            r is Ok ==> is_canonical_id(r->Ok_0@.id) && !has_directory(
                old(self)@.directories,
                r->Ok_0@.id,
            ) && !would_cycle(old(self)@.directories, r->Ok_0@.id, opt_chars(parent_id)),
            r is Ok ==> has_utc_offset(r->Ok_0@.created_at),
    {
        let id = fresh_id();
        let now = timestamp_now();
        self.create_directory_with(id, now, name, parent_id)
    }

    /// The row of directory `id`, if there is one.
    pub fn get_directory(&self, id: &str) -> (row: Option<Directory>)
        requires
            self.wf(),
        ensures
            directory_record_of(row) == directory_of(self@.directories, id@),
    {
        self.store.get_directory(id)
    }

    /// The directories that lie directly in `parent_id`, by name; with no
    /// directory given, those that lie in none.
    pub fn list_directories(&self, parent_id: Option<String>) -> (rows: Vec<Directory>)
        requires
            self.wf(),
        ensures
            directory_records(rows@).to_multiset() == directories_in(
                self@.directories,
                opt_chars(parent_id),
            ).to_multiset(),
            ordered_by_name(directory_records(rows@)),
    {
        self.store.list_directories(&parent_id)
    }

    /// How many files lie directly in directory `id`, and the sum of their
    /// sizes; files in directories below are not counted. A count or a sum
    /// beyond the signed 64-bit range is reported as a failure of the store.
    pub fn get_directory_stats(&self, id: &str) -> (r: Result<(i64, i64), StorageError>)
        requires
            self.wf(),
        ensures
            match r {
                Ok((count, size)) => count == files_in(self@.files, Some(id@)).len() && size
                    == total_size(files_in(self@.files, Some(id@))),
                Err(e) => e == StorageError::MetadataIO && (files_in(self@.files, Some(id@)).len()
                    > i64::MAX || total_size(files_in(self@.files, Some(id@))) > i64::MAX
                    || total_size(files_in(self@.files, Some(id@))) < i64::MIN),
            },
    {
        self.store.directory_stats(id)
    }

    /// The directories that are `id` or lie below it at any depth, in table
    /// order: those that `delete_directory` removes.
    pub fn directories_at_or_below(&self, id: &str) -> (rows: Vec<Directory>)
        requires
            self.wf(),
        ensures
            directory_records(rows@) == directories_inside(self@.directories, id@),
    {
        self.store.directories_at_or_below(id)
    }

    /// The files that lie in `id` or in a directory below it at any depth,
    /// in table order: those that `delete_directory` removes.
    pub fn files_at_or_below(&self, id: &str) -> (rows: Vec<FileMetadata>)
        requires
            self.wf(),
        ensures
            file_records(rows@) == files_inside(self@.directories, self@.files, id@),
    {
        self.store.files_at_or_below(id)
    }

    /// Removes directory `id` with the directories below it and the files
    /// that lie in any of them, and says whether there was such a directory.
    /// The blobs of those files are left on disk.
    pub fn delete_directory(&mut self, id: &str) -> (removed: bool)
        requires
            old(self).wf(),
        ensures
            final(self).wf(),
            final(self).upload_dir_of() == old(self).upload_dir_of(),
            removed == has_directory(old(self)@.directories, id@),
            final(self)@ == delete_directory_state(old(self)@, id@),
    {
        self.store.remove_directory(id)
    }

    /// Puts directory `id` into `new_parent_id`, stamps the change with
    /// `now`, and returns the new row; nothing happens where there is no
    /// such directory. A move of a directory into itself or below itself is
    /// refused and changes nothing.
    pub fn move_directory_at(&mut self, id: &str, new_parent_id: Option<String>, now: String) -> (r:
        Result<Option<Directory>, StorageError>)
        requires
            old(self).wf(),
        ensures
            final(self).wf(),
            final(self).upload_dir_of() == old(self).upload_dir_of(),
            final(self)@.files == old(self)@.files,
            r is Err == would_cycle(old(self)@.directories, id@, opt_chars(new_parent_id)),
            r is Err ==> r == Err::<Option<Directory>, StorageError>(StorageError::InvalidMove)
                && final(self)@.directories == old(self)@.directories,
            r is Ok ==> final(self)@.directories == with_directory_parent(
                old(self)@.directories,
                id@,
                opt_chars(new_parent_id),
                now@,
            ),
            r is Ok ==> directory_record_of(r->Ok_0) == directory_of(final(self)@.directories, id@),
            r is Ok ==> (r->Ok_0 is Some == has_directory(old(self)@.directories, id@)),
    {
        self.store.move_directory(id, new_parent_id, now)
    }

    /// Puts directory `id` into `new_parent_id`, stamped with the time of
    /// the clock. As `move_directory_at`; the time is that of the row that
    /// comes back.
    pub fn move_directory(&mut self, id: &str, new_parent_id: Option<String>) -> (r: Result<
        Option<Directory>,
        StorageError,
    >)
        requires
            old(self).wf(),
        ensures
            final(self).wf(),
            final(self).upload_dir_of() == old(self).upload_dir_of(),
            final(self)@.files == old(self)@.files,
            r is Err == would_cycle(old(self)@.directories, id@, opt_chars(new_parent_id)),
            r is Err ==> r == Err::<Option<Directory>, StorageError>(StorageError::InvalidMove)
                && final(self)@.directories == old(self)@.directories,
            r is Ok ==> directory_record_of(r->Ok_0) == directory_of(final(self)@.directories, id@),
            r is Ok ==> (r->Ok_0 is Some == has_directory(old(self)@.directories, id@)),
            r is Ok && r->Ok_0 is None ==> final(self)@.directories == old(self)@.directories,
            r is Ok && r->Ok_0 is Some ==> final(self)@.directories == with_directory_parent(
                old(self)@.directories,
                id@,
                opt_chars(new_parent_id),
                r->Ok_0->Some_0@.updated_at,
            ) && has_utc_offset(r->Ok_0->Some_0@.updated_at),
    {
        let now = timestamp_now();
        let ghost before = self@.directories;
        let r = self.store.move_directory(id, new_parent_id, now);
        proof {
            if r is Ok {
                let after = with_directory_parent(before, id@, opt_chars(new_parent_id), now@);
                if r->Ok_0 is None {
                    lemma_move_of_absent_directory(before, id@, opt_chars(new_parent_id), now@);
                } else {
                    let k = directory_position(after, id@);
                    assert(after[k].id == id@);
                    assert(before[k].id == id@);
                }
            }
        }
        r
    }

    /// The blob to remove next in a batch, of which the removals in `done`
    /// have been tried: the blob of file `id`, if there is such a file. Once
    /// a removal has failed no further blob is to be touched.
    pub fn next_blob_to_remove(&self, done: &Vec<FileRemoval>, id: &str) -> (path: Option<String>)
        requires
            self.wf(),
        ensures
            opt_chars(path) == if batch_has_failed(removals_of(done@)) {
                None
            } else {
                match file_of(self@.files, id@) {
                    Some(f) => Some(f.storage_path),
                    None => None,
                }
            },
    {
        let mut i: usize = 0;
        while i < done.len()
            invariant
                i <= done.len(),
                forall|j: int|
                    0 <= j < i ==> (#[trigger] removals_of(done@)[j]).1 != BlobOutcome::Failed,
            decreases done.len() - i,
        {
            match done[i].blob {
                BlobOutcome::Failed => {
                    assert(removals_of(done@)[i as int].1 == BlobOutcome::Failed);
                    return None;
                },
                _ => {},
            }
            i = i + 1;
        }
        self.get_file_path(id)
    }

    /// Removes the given files and then the given directories, one after
    /// another, and counts those that were there. For each file the caller
    /// has removed the blob and says how that went. The first blob that
    /// could not be removed ends the batch with that failure; what was
    /// removed before it stays removed.
    pub fn bulk_delete(&mut self, files: &Vec<FileRemoval>, directory_ids: &Vec<String>) -> (r:
        Result<(usize, usize), StorageError>)
        requires
            old(self).wf(),
        ensures
            final(self).wf(),
            final(self).upload_dir_of() == old(self).upload_dir_of(),
            r == bulk_delete_result(old(self)@, removals_of(files@), texts_of(directory_ids@)),
            final(self)@ == bulk_delete_state(
                old(self)@,
                removals_of(files@),
                texts_of(directory_ids@),
            ),
    {
        let ghost start = self@;
        let ghost removals = removals_of(files@);
        let ghost ids = texts_of(directory_ids@);
        let mut deleted_files: usize = 0;
        let mut i: usize = 0;
        while i < files.len()
            invariant
                self.wf(),
                self.upload_dir_of() == old(self).upload_dir_of(),
                start == old(self)@,
                removals == removals_of(files@),
                i <= files.len(),
                deleted_files <= i,
                bulk_files(start.files, removals.take(i as int)) == (BulkFiles {
                    files: self@.files,
                    result: Ok(deleted_files as nat),
                }),
                self@.directories == start.directories,
            decreases files.len() - i,
        {
            proof {
                assert(removals.take(i as int + 1).drop_last() =~= removals.take(i as int));
                assert(removals.take(i as int + 1).last() == removals[i as int]);
            }
            match self.delete_file(files[i].id.as_str(), files[i].blob) {
                Ok(removed) => {
                    if removed {
                        deleted_files = deleted_files + 1;
                    }
                },
                Err(e) => {
                    proof {
                        lemma_bulk_files_stays_failed(start.files, removals, i as int + 1);
                    }
                    return Err(e);
                },
            }
            i = i + 1;
        }
        proof {
            assert(removals.take(removals.len() as int) =~= removals);
        }
        let ghost midway = self@;
        let mut deleted_directories: usize = 0;
        let mut j: usize = 0;
        while j < directory_ids.len()
            invariant
                self.wf(),
                self.upload_dir_of() == old(self).upload_dir_of(),
                ids == texts_of(directory_ids@),
                j <= directory_ids.len(),
                deleted_directories <= j,
                bulk_directories(midway, ids.take(j as int)) == (BulkDirectories {
                    state: self@,
                    count: deleted_directories as nat,
                }),
            decreases directory_ids.len() - j,
        {
            proof {
                assert(ids.take(j as int + 1).drop_last() =~= ids.take(j as int));
                assert(ids.take(j as int + 1).last() == ids[j as int]);
            }
            if self.delete_directory(directory_ids[j].as_str()) {
                deleted_directories = deleted_directories + 1;
            }
            j = j + 1;
        }
        proof {
            assert(ids.take(ids.len() as int) =~= ids);
        }
        Ok((deleted_files, deleted_directories))
    }
}

} // verus!
