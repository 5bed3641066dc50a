//! What each request is answered with. The functions here take what was read
//! from a request as plain values, consult or change the storage, and return
//! the answer or the failure with its status; reading the request, touching
//! blobs and writing the answer are left to the caller.

use crate::clock::has_utc_offset;
use crate::error::StorageError;
use crate::hierarchy::{directory_position, has_directory, would_cycle};
use crate::ids::is_canonical_id;
use crate::models::{
    copy_opt, directory_summaries, directory_summary_of, file_summaries,
    lemma_response_shows_the_row, opt_chars, summary_of,
    BulkDeleteResponse, CreateDirectoryRequest, CreateDirectoryResponse, DeleteResponse,
    DirectoryRecord, DirectoryResponse, DirectorySummary, ErrorResponse, FileRecord, FileResponse,
    ListFilesResponse, ListQuery, UploadResponse,
};
use crate::storage::{
    bulk_delete_result, bulk_delete_state, delete_directory_state, delete_file_result,
    delete_file_table, new_file_record, removals_of, save_file_failure, texts_of, BlobOutcome,
    BlobWrite, FileRemoval, FileStorage,
};
use crate::tables::{
    directories_in, directory_of, directory_records, file_of, file_records, files_in,
    newest_first, ordered_by_name, total_size, StoreView,
};
use crate::text::{decimal, decimal_of, join, reads};
use vstd::prelude::*;
use vstd::seq_lib::{to_multiset_contains, to_multiset_len};
use vstd::string::*;

verus! {

/// A failure as it is reported: the HTTP status and the body.
#[derive(Debug, Clone, PartialEq, Eq)]
pub struct ApiError {
    pub status: u16,
    pub body: ErrorResponse,
}

impl ApiError {
    /// The failure carries `status` and the text `error`.
    pub open spec fn reports(self, status: int, error: Seq<char>) -> bool {
        self.status == status && self.body.error@ == error
    }

    /// The failure with the given status and text.
    pub fn new(status: u16, error: &str) -> (e: ApiError)
        ensures
            e.reports(status as int, error@),
    {
        ApiError { status, body: ErrorResponse { error: String::from_str(error) } }
    }

    /// The failure with the given status, whose text is `what` followed by
    /// `cause`.
    pub fn caused(status: u16, what: &str, cause: &str) -> (e: ApiError)
        ensures
            e.reports(status as int, what@ + cause@),
    {
        ApiError { status, body: ErrorResponse { error: join(what, cause) } }
    }
}

/// The result is the failure with `status` and the text `error`.
pub open spec fn fails_with<T>(r: Result<T, ApiError>, status: int, error: Seq<char>) -> bool {
    match r {
        Ok(_) => false,
        Err(e) => e.reports(status, error),
    }
}

/// What a field of an upload form is read as.
#[derive(Debug, Clone, Copy, PartialEq, Eq, Structural)]
pub enum FieldKind {
    /// The file: its name, its media type and its bytes are read.
    File,
    /// The description, read as text.
    Description,
    /// The directory to put the file in, read as text.
    ParentDirectory,
    /// Any other field, which is passed over.
    Other,
}

/// What the form field called `name` is read as.
pub open spec fn field_kind_of(name: Seq<char>) -> FieldKind {
    if name == "file"@ {
        FieldKind::File
    } else if name == "description"@ {
        FieldKind::Description
    } else if name == "parent_directory_id"@ {
        FieldKind::ParentDirectory
    } else {
        FieldKind::Other
    }
}

/// What the form field called `name` is read as.
pub fn field_kind(name: &str) -> (kind: FieldKind)
    ensures
        kind == field_kind_of(name@),
{
    if reads(name, "file") {
        FieldKind::File
    } else if reads(name, "description") {
        FieldKind::Description
    } else if reads(name, "parent_directory_id") {
        FieldKind::ParentDirectory
    } else {
        FieldKind::Other
    }
}

/// What has been read of an upload form so far.
#[derive(Debug, Clone, PartialEq, Eq)]
pub struct UploadForm {
    pub filename: String,
    pub file_data: Vec<u8>,
    pub mime_type: Option<String>,
    pub description: Option<String>,
    pub parent_directory_id: Option<String>,
}

impl UploadForm {
    /// The form of which nothing has been read.
    pub fn new() -> (form: UploadForm)
        ensures
            form.filename@.len() == 0,
            form.file_data@.len() == 0,
            form.mime_type is None,
            form.description is None,
            form.parent_directory_id is None,
    {
        UploadForm {
            filename: String::new(),
            file_data: Vec::new(),
            mime_type: None,
            description: None,
            parent_directory_id: None,
        }
    }

    /// Takes the file field: its bytes, its media type, and its name, which
    /// is `unnamed` where the field gives none.
    pub fn set_file(
        &mut self,
        file_name: Option<String>,
        content_type: Option<String>,
        data: Vec<u8>,
    )
        ensures
            final(self).filename@ == match file_name {
                Some(n) => n@,
                None => "unnamed"@,
            },
            final(self).mime_type == content_type,
            final(self).file_data == data,
            final(self).description == old(self).description,
            final(self).parent_directory_id == old(self).parent_directory_id,
    {
        self.filename = match file_name {
            Some(n) => n,
            None => String::from_str("unnamed"),
        };
        self.mime_type = content_type;
        self.file_data = data;
    }

    /// Takes the description field.
    pub fn set_description(&mut self, text: String)
        ensures
            final(self).description == Some(text),
            final(self).filename == old(self).filename,
            final(self).file_data == old(self).file_data,
            final(self).mime_type == old(self).mime_type,
            final(self).parent_directory_id == old(self).parent_directory_id,
    {
        self.description = Some(text);
    }

    /// Takes the field that names the directory; an empty text names none
    /// and leaves the form as it was.
    pub fn set_parent_directory(&mut self, text: String)
        ensures
            final(self).parent_directory_id == if text@.len() == 0 {
                old(self).parent_directory_id
            } else {
                Some(text)
            },
            final(self).filename == old(self).filename,
            final(self).file_data == old(self).file_data,
            final(self).mime_type == old(self).mime_type,
            final(self).description == old(self).description,
    {
        if !text.as_str().is_empty() {
            self.parent_directory_id = Some(text);
        }
    }

    /// The form holds a file: a name and at least one byte.
    pub open spec fn is_complete(&self) -> bool {
        self.filename@.len() > 0 && self.file_data@.len() > 0
    }

    /// Refuses a form without a file name or without content.
    pub fn check(&self) -> (r: Result<(), ApiError>)
        ensures
            self.is_complete() ==> r is Ok,
            !self.is_complete() ==> fails_with(r, 400, "No file provided"@),
    {
        if self.filename.as_str().is_empty() || self.file_data.len() == 0 {
            Err(ApiError::new(400, "No file provided"))
        } else {
            Ok(())
        }
    }
}

/// The row that records the upload of `form` under the identifier `id` at
/// the time `now`.
pub open spec fn uploaded_record(
    upload_dir: Seq<char>,
    id: Seq<char>,
    now: Seq<char>,
    form: UploadForm,
) -> FileRecord {
    new_file_record(
        upload_dir,
        id,
        now,
        form.filename@,
        form.file_data@.len() as int,
        opt_chars(form.mime_type),
        opt_chars(form.description),
        opt_chars(form.parent_directory_id),
    )
}

/// Answers an upload under the identifier `id`, after the caller has written
/// the blob and says in `blob` how that went: checks the form, records the
/// file and shows its row. A form without a file is refused first; a blob
/// that was not written is reported next, and nothing is then recorded.
pub fn upload_file(
    storage: &mut FileStorage,
    id: &str,
    form: UploadForm,
    blob: BlobWrite,
) -> (r: Result<UploadResponse, ApiError>)
    requires
        old(storage).wf(),
    ensures
        final(storage).wf(),
        final(storage).upload_dir_of() == old(storage).upload_dir_of(),
        final(storage)@.directories == old(storage)@.directories,
        !form.is_complete() ==> fails_with(r, 400, "No file provided"@) && final(storage)@.files
            == old(storage)@.files,
        form.is_complete() ==> match save_file_failure(
            old(storage)@.files,
            id@,
            form.file_data@.len() as int,
            blob,
        ) {
            Some(e) => fails_with(r, 500, "Failed to save file: "@ + e.message_of())
                && final(storage)@.files == old(storage)@.files,
            None => r is Ok,
        },
        r is Ok ==> r->Ok_0.success && r->Ok_0.message@ == "File uploaded successfully"@,
        r is Ok ==> r->Ok_0.file@ == summary_of(
            uploaded_record(old(storage).upload_dir_of(), id@, r->Ok_0.file@.uploaded_at, form),
        ),
        r is Ok ==> final(storage)@.files == old(storage)@.files.push(
            uploaded_record(old(storage).upload_dir_of(), id@, r->Ok_0.file@.uploaded_at, form),
        ),
        r is Ok ==> has_utc_offset(r->Ok_0.file@.uploaded_at),
{
    match form.check() {
        Err(e) => {
            return Err(e);
        },
        Ok(()) => {},
    }
    let saved = storage.save_file(
        id,
        form.filename.as_str(),
        form.file_data.as_slice(),
        form.mime_type,
        form.description,
        form.parent_directory_id,
        blob,
    );
    match saved {
        Ok(metadata) => {
            proof {
                lemma_response_shows_the_row(metadata);
            }
            Ok(
                UploadResponse {
                    success: true,
                    file: FileResponse::from(metadata),
                    message: String::from_str("File uploaded successfully"),
                },
            )
        },
        Err(e) => Err(ApiError::caused(500, "Failed to save file: ", e.message().as_str())),
    }
}

/// What a download is answered with: where the blob is, and the two headers.
#[derive(Debug, Clone, PartialEq, Eq)]
pub struct Download {
    pub path: String,
    pub content_type: String,
    pub content_disposition: String,
}

/// The media type under which a file is sent: the one it was uploaded with,
/// else `application/octet-stream`.
pub open spec fn content_type_of(f: FileRecord) -> Seq<char> {
    match f.mime_type {
        Some(t) => t,
        None => "application/octet-stream"@,
    }
}

/// The disposition under which a file is sent: as an attachment under its
/// original name.
pub open spec fn content_disposition_of(f: FileRecord) -> Seq<char> {
    "attachment; filename=\""@ + f.original_filename + "\""@
}

/// Answers a download: where the blob of file `file_id` is and under which
/// headers it is sent.
pub fn download_file(storage: &FileStorage, file_id: &str) -> (r: Result<Download, ApiError>)
    requires
        storage.wf(),
    ensures
        match file_of(storage@.files, file_id@) {
            Some(f) => r is Ok && r->Ok_0.path@ == f.storage_path && r->Ok_0.content_type@
                == content_type_of(f) && r->Ok_0.content_disposition@ == content_disposition_of(f),
            None => fails_with(r, 404, "File not found"@),
        },
{
    match storage.lookup_file(file_id) {
        Err(e) => Err(ApiError::new(e.status(), "File not found")),
        Ok(metadata) => {
            let content_type = match metadata.mime_type {
                Some(t) => t,
                None => String::from_str("application/octet-stream"),
            };
            let mut disposition = String::from_str("attachment; filename=\"");
            disposition.append(metadata.original_filename.as_str());
            disposition.append("\"");
            Ok(
                Download {
                    path: metadata.storage_path,
                    content_type,
                    content_disposition: disposition,
                },
            )
        },
    }
}

/// Answers a request for the row of file `file_id`.
pub fn get_file_info(storage: &FileStorage, file_id: &str) -> (r: Result<FileResponse, ApiError>)
    requires
        storage.wf(),
    ensures
        match file_of(storage@.files, file_id@) {
            Some(f) => r is Ok && r->Ok_0@ == summary_of(f),
            None => fails_with(r, 404, "File not found"@),
        },
{
    match storage.lookup_file(file_id) {
        Err(e) => Err(ApiError::new(e.status(), "File not found")),
        Ok(metadata) => {
            proof {
                lemma_response_shows_the_row(metadata);
            }
            Ok(FileResponse::from(metadata))
        },
    }
}

/// Answers the removal of file `file_id`, after the caller has removed its
/// blob and says in `blob` how that went.
pub fn delete_file(storage: &mut FileStorage, file_id: &str, blob: BlobOutcome) -> (r: Result<
    DeleteResponse,
    ApiError,
>)
    requires
        old(storage).wf(),
    ensures
        final(storage).wf(),
        final(storage).upload_dir_of() == old(storage).upload_dir_of(),
        final(storage)@.directories == old(storage)@.directories,
        final(storage)@.files == delete_file_table(old(storage)@.files, file_id@, blob),
        match delete_file_result(old(storage)@.files, file_id@, blob) {
            Ok(true) => r is Ok && r->Ok_0.success && r->Ok_0.message@
                == "File deleted successfully"@,
            Ok(false) => fails_with(r, 404, "File not found"@),
            Err(e) => fails_with(r, 500, "Failed to delete file: "@ + e.message_of()),
        },
{
    match storage.delete_file(file_id, blob) {
        Ok(true) => Ok(
            DeleteResponse {
                success: true,
                message: String::from_str("File deleted successfully"),
            },
        ),
        Ok(false) => Err(ApiError::new(StorageError::NotFound.status(), "File not found")),
        Err(e) => Err(ApiError::caused(500, "Failed to delete file: ", e.message().as_str())),
    }
}

/// The answer to the liveness probe.
#[derive(Debug, Clone, PartialEq, Eq)]
pub struct HealthStatus {
    pub status: String,
    pub service: String,
}

/// Answers the liveness probe.
pub fn health_check() -> (h: HealthStatus)
    ensures
        h.status@ == "healthy"@,
        h.service@ == "file-transfer-api"@,
{
    HealthStatus {
        status: String::from_str("healthy"),
        service: String::from_str("file-transfer-api"),
    }
}

/// The statistics of directory `id` fit the signed 64-bit range.
pub open spec fn stats_fit(files: Seq<FileRecord>, id: Seq<char>) -> bool {
    &&& files_in(files, Some(id)).len() <= i64::MAX
    &&& i64::MIN <= total_size(files_in(files, Some(id))) <= i64::MAX
}

/// The summary of directory `d` with its statistics.
pub open spec fn described(files: Seq<FileRecord>, d: DirectoryRecord) -> DirectorySummary {
    directory_summary_of(
        d,
        files_in(files, Some(d.id)).len() as int,
        total_size(files_in(files, Some(d.id))),
    )
}

/// The statistics of every directory that lies directly in `parent` fit.
pub open spec fn every_stats_fit(s: StoreView, parent: Option<Seq<char>>) -> bool {
    forall|i: int|
        0 <= i < directories_in(s.directories, parent).len() ==> stats_fit(
            s.files,
            (#[trigger] directories_in(s.directories, parent)[i]).id,
        )
}

/// `response` shows `files` and `dirs`, which are the files and directories
/// that lie directly in `parent`, each in the order of its listing.
pub open spec fn shows(
    response: ListFilesResponse,
    s: StoreView,
    parent: Option<Seq<char>>,
    files: Seq<FileRecord>,
    dirs: Seq<DirectoryRecord>,
) -> bool {
    &&& files.to_multiset() == files_in(s.files, parent).to_multiset()
    &&& newest_first(files)
    &&& dirs.to_multiset() == directories_in(s.directories, parent).to_multiset()
    &&& ordered_by_name(dirs)
    &&& file_summaries(response.files@) == Seq::new(files.len(), |i: int| summary_of(files[i]))
    &&& directory_summaries(response.directories@) == Seq::new(
        dirs.len(),
        |i: int| described(s.files, dirs[i]),
    )
    &&& response.total == files.len() + dirs.len()
}

/// `response` is the listing of `parent`: its files, newest first, its
/// directories, by name and each with its statistics, and their number.
pub open spec fn is_listing(
    response: ListFilesResponse,
    s: StoreView,
    parent: Option<Seq<char>>,
) -> bool {
    exists|files: Seq<FileRecord>, dirs: Seq<DirectoryRecord>|
        shows(response, s, parent, files, dirs)
}

/// Answers a listing: the files and the directories that lie directly in the
/// directory of the query, or in none where the query names none.
pub fn list_files(storage: &FileStorage, query: ListQuery) -> (r: Result<
    ListFilesResponse,
    ApiError,
>)
    requires
        storage.wf(),
    ensures
        r is Ok ==> is_listing(r->Ok_0, storage@, opt_chars(query.parent_directory_id)),
        r is Err ==> (fails_with(
            r,
            500,
            "Failed to get directory stats: "@ + StorageError::MetadataIO.message_of(),
        ) && !every_stats_fit(storage@, opt_chars(query.parent_directory_id))) || (fails_with(
            r,
            500,
            "Failed to list files: "@ + StorageError::MetadataIO.message_of(),
        ) && files_in(storage@.files, opt_chars(query.parent_directory_id)).len() + directories_in(
            storage@.directories,
            opt_chars(query.parent_directory_id),
        ).len() > usize::MAX),
        every_stats_fit(storage@, opt_chars(query.parent_directory_id)) && files_in(
            storage@.files,
            opt_chars(query.parent_directory_id),
        ).len() + directories_in(
            storage@.directories,
            opt_chars(query.parent_directory_id),
        ).len() <= usize::MAX ==> r is Ok,
{
    let ghost s = storage@;
    let ghost parent = opt_chars(query.parent_directory_id);
    let files = storage.list_files(copy_opt(&query.parent_directory_id));
    let directories = storage.list_directories(query.parent_directory_id);
    let ghost listed_files = file_records(files@);
    let ghost listed_dirs = directory_records(directories@);
    proof {
        to_multiset_len(listed_files);
        to_multiset_len(files_in(s.files, parent));
        to_multiset_len(listed_dirs);
        to_multiset_len(directories_in(s.directories, parent));
    }
    let mut directory_responses: Vec<DirectoryResponse> = Vec::new();
    let mut i: usize = 0;
    while i < directories.len()
        invariant
            storage.wf(),
            s == storage@,
            parent == opt_chars(query.parent_directory_id),
            listed_dirs == directory_records(directories@),
            listed_dirs.to_multiset() == directories_in(s.directories, parent).to_multiset(),
            i <= directories.len(),
            directory_summaries(directory_responses@) == Seq::new(
                i as nat,
                |k: int| described(s.files, listed_dirs[k]),
            ),
            forall|k: int| 0 <= k < i ==> stats_fit(s.files, (#[trigger] listed_dirs[k]).id),
        decreases directories.len() - i,
    {
        let row = directories[i].clone();
        match storage.get_directory_stats(row.id.as_str()) {
            Ok((file_count, total)) => {
                let ghost so_far = directory_summaries(directory_responses@);
                directory_responses.push(DirectoryResponse::describe(row, file_count, total));
                assert(directory_summaries(directory_responses@) =~= so_far.push(
                    described(s.files, listed_dirs[i as int]),
                ));
                assert(directory_summaries(directory_responses@) =~= Seq::new(
                    (i + 1) as nat,
                    |k: int| described(s.files, listed_dirs[k]),
                ));
            },
            Err(e) => {
                proof {
                    let d = listed_dirs[i as int];
                    let inside = directories_in(s.directories, parent);
                    assert(listed_dirs.contains(d));
                    to_multiset_contains(listed_dirs, d);
                    to_multiset_contains(inside, d);
                    let k = choose|k: int| 0 <= k < inside.len() && inside[k] == d;
                    assert(!stats_fit(s.files, inside[k].id));
                }
                return Err(
                    ApiError::caused(500, "Failed to get directory stats: ", e.message().as_str()),
                );
            },
        }
        i = i + 1;
    }
    let total = match files.len().checked_add(directory_responses.len()) {
        Some(t) => t,
        None => {
            return Err(
                ApiError::caused(
                    500,
                    "Failed to list files: ",
                    StorageError::MetadataIO.message().as_str(),
                ),
            );
        },
    };
    let mut file_responses: Vec<FileResponse> = Vec::new();
    let mut j: usize = 0;
    while j < files.len()
        invariant
            listed_files == file_records(files@),
            j <= files.len(),
            file_summaries(file_responses@) == Seq::new(
                j as nat,
                |k: int| summary_of(listed_files[k]),
            ),
        decreases files.len() - j,
    {
        let ghost so_far = file_summaries(file_responses@);
        let metadata = files[j].clone();
        proof {
            lemma_response_shows_the_row(metadata);
        }
        file_responses.push(FileResponse::from(metadata));
        assert(file_summaries(file_responses@) =~= so_far.push(summary_of(listed_files[j as int])));
        assert(file_summaries(file_responses@) =~= Seq::new(
            (j + 1) as nat,
            |k: int| summary_of(listed_files[k]),
        ));
        j = j + 1;
    }
    let response = ListFilesResponse {
        files: file_responses,
        directories: directory_responses,
        total,
    };
    proof {
        assert(shows(response, s, parent, listed_files, listed_dirs));
    }
    Ok(response)
}

/// `after` is `before` with a new directory called `name` in `parent`, and
/// `shown` is that directory with its statistics.
pub open spec fn created(
    before: StoreView,
    after: StoreView,
    shown: DirectorySummary,
    name: Seq<char>,
    parent: Option<Seq<char>>,
) -> bool {
    let d = DirectoryRecord {
        id: shown.id,
        name,
        parent_id: parent,
        created_at: shown.created_at,
        updated_at: shown.created_at,
    };
    &&& after.directories == before.directories.push(d)
    &&& shown == described(before.files, d)
    &&& is_canonical_id(d.id)
    &&& has_utc_offset(d.created_at)
    &&& !has_directory(before.directories, d.id)
    &&& !would_cycle(before.directories, d.id, parent)
}

/// Answers the creation of a directory: creates it under a fresh identifier
/// and shows it with its statistics. The creation fails only where an
/// identifier of the canonical form is taken or would close a cycle; the
/// statistics fail only where files already name the new identifier and
/// their count or sizes are beyond the signed 64-bit range, and the
/// directory then stays created.
pub fn create_directory(storage: &mut FileStorage, payload: CreateDirectoryRequest) -> (r: Result<
    CreateDirectoryResponse,
    ApiError,
>)
    requires
        old(storage).wf(),
    ensures
        final(storage).wf(),
        final(storage).upload_dir_of() == old(storage).upload_dir_of(),
        final(storage)@.files == old(storage)@.files,
        r is Ok ==> r->Ok_0.success && r->Ok_0.message@ == "Directory created successfully"@
            && created(
            old(storage)@,
            final(storage)@,
            r->Ok_0.directory@,
            payload.name@,
            opt_chars(payload.parent_id),
        ),
        r is Err ==> (fails_with(
            r,
            500,
            "Failed to create directory: "@ + StorageError::MetadataIO.message_of(),
        ) && final(storage)@.directories == old(storage)@.directories && exists|id: Seq<char>|
            is_canonical_id(id) && (#[trigger] has_directory(old(storage)@.directories, id)
                || would_cycle(old(storage)@.directories, id, opt_chars(payload.parent_id))))
            || (fails_with(
            r,
            500,
            "Failed to get directory stats: "@ + StorageError::MetadataIO.message_of(),
        ) && exists|d: DirectoryRecord|
            final(storage)@.directories == old(storage)@.directories.push(d) && d.name
                == payload.name@ && d.parent_id == opt_chars(payload.parent_id)
                && is_canonical_id(d.id) && !stats_fit(old(storage)@.files, d.id)),
{
    let made = storage.create_directory(payload.name.as_str(), payload.parent_id);
    match made {
        Err(e) => Err(ApiError::caused(500, "Failed to create directory: ", e.message().as_str())),
        Ok(directory) => match storage.get_directory_stats(directory.id.as_str()) {
            Err(e) => Err(
                ApiError::caused(500, "Failed to get directory stats: ", e.message().as_str()),
            ),
            Ok((file_count, total)) => Ok(
                CreateDirectoryResponse {
                    success: true,
                    directory: DirectoryResponse::describe(directory, file_count, total),
                    message: String::from_str("Directory created successfully"),
                },
            ),
        },
    }
}

/// Answers a request for directory `dir_id`: its row with its statistics.
pub fn get_directory_info(storage: &FileStorage, dir_id: &str) -> (r: Result<
    DirectoryResponse,
    ApiError,
>)
    requires
        storage.wf(),
    ensures
        match directory_of(storage@.directories, dir_id@) {
            None => fails_with(r, 404, "Directory not found"@),
            Some(d) => if stats_fit(storage@.files, d.id) {
                r is Ok && r->Ok_0@ == described(storage@.files, d)
            } else {
                fails_with(
                    r,
                    500,
                    "Failed to get directory stats: "@ + StorageError::MetadataIO.message_of(),
                )
            },
        },
{
    match storage.lookup_directory(dir_id) {
        Err(e) => Err(ApiError::new(e.status(), "Directory not found")),
        Ok(directory) => {
            proof {
                let k = directory_position(storage@.directories, dir_id@);
                assert(storage@.directories[k].id == dir_id@);
            }
            match storage.get_directory_stats(dir_id) {
                Err(e) => Err(
                    ApiError::caused(500, "Failed to get directory stats: ", e.message().as_str()),
                ),
                Ok((file_count, total)) => Ok(
                    DirectoryResponse::describe(directory, file_count, total),
                ),
            }
        },
    }
}

/// Answers the removal of directory `dir_id` with everything below it.
pub fn delete_directory(storage: &mut FileStorage, dir_id: &str) -> (r: Result<
    DeleteResponse,
    ApiError,
>)
    requires
        old(storage).wf(),
    ensures
        final(storage).wf(),
        final(storage).upload_dir_of() == old(storage).upload_dir_of(),
        final(storage)@ == delete_directory_state(old(storage)@, dir_id@),
        has_directory(old(storage)@.directories, dir_id@) ==> r is Ok && r->Ok_0.success
            && r->Ok_0.message@ == "Directory deleted successfully"@,
        !has_directory(old(storage)@.directories, dir_id@) ==> fails_with(
            r,
            404,
            "Directory not found"@,
        ),
{
    if storage.delete_directory(dir_id) {
        Ok(
            DeleteResponse {
                success: true,
                message: String::from_str("Directory deleted successfully"),
            },
        )
    } else {
        Err(ApiError::new(StorageError::NotFound.status(), "Directory not found"))
    }
}

/// The text that reports what a removal of several entries removed.
pub open spec fn bulk_message_of(files: nat, directories: nat) -> Seq<char> {
    "Deleted "@ + decimal_of(files) + " files and "@ + decimal_of(directories) + " directories"@
}

/// Answers the removal of several files and directories, after the caller
/// has removed the blobs of the files and says for each how that went.
pub fn bulk_delete(
    storage: &mut FileStorage,
    files: &Vec<FileRemoval>,
    directory_ids: &Vec<String>,
) -> (r: Result<BulkDeleteResponse, ApiError>)
    requires
        old(storage).wf(),
    ensures
        final(storage).wf(),
        final(storage).upload_dir_of() == old(storage).upload_dir_of(),
        final(storage)@ == bulk_delete_state(
            old(storage)@,
            removals_of(files@),
            texts_of(directory_ids@),
        ),
        match bulk_delete_result(old(storage)@, removals_of(files@), texts_of(directory_ids@)) {
            Ok((deleted_files, deleted_directories)) => r is Ok && r->Ok_0.success
                && r->Ok_0.deleted_files == deleted_files && r->Ok_0.deleted_directories
                == deleted_directories && r->Ok_0.message@ == bulk_message_of(
                deleted_files as nat,
                deleted_directories as nat,
            ),
            Err(e) => fails_with(r, 500, "Failed to bulk delete: "@ + e.message_of()),
        },
{
    match storage.bulk_delete(files, directory_ids) {
        Err(e) => Err(ApiError::caused(500, "Failed to bulk delete: ", e.message().as_str())),
        Ok((deleted_files, deleted_directories)) => {
            let mut message = String::from_str("Deleted ");
            message.append(decimal(deleted_files).as_str());
            message.append(" files and ");
            message.append(decimal(deleted_directories).as_str());
            message.append(" directories");
            Ok(
                BulkDeleteResponse {
                    success: true,
                    deleted_files,
                    deleted_directories,
                    message,
                },
            )
        },
    }
}

} // verus!
