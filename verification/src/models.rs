//! Rows of the two metadata tables and their mathematical views.

use vstd::prelude::*;

verus! {

/// View of an optional string: the characters it holds, if any.
pub open spec fn opt_chars(o: Option<String>) -> Option<Seq<char>> {
    match o {
        Some(s) => Some(s@),
        None => None,
    }
}

/// Copies an optional string.
pub fn copy_opt(o: &Option<String>) -> (r: Option<String>)
    ensures
        r == *o,
{
    match o {
        Some(s) => Some(s.clone()),
        None => None,
    }
}

/// One row of the `files` table.
#[derive(Debug, PartialEq, Eq)]
pub struct FileMetadata {
    pub id: String,
    pub filename: String,
    pub original_filename: String,
    pub file_size: i64,
    pub mime_type: Option<String>,
    pub storage_path: String,
    pub uploaded_at: String,
    pub description: Option<String>,
    pub parent_directory_id: Option<String>,
}

/// What a file row holds, as plain mathematical values.
pub struct FileRecord {
    pub id: Seq<char>,
    pub filename: Seq<char>,
    pub original_filename: Seq<char>,
    pub file_size: int,
    pub mime_type: Option<Seq<char>>,
    pub storage_path: Seq<char>,
    pub uploaded_at: Seq<char>,
    pub description: Option<Seq<char>>,
    pub parent_directory_id: Option<Seq<char>>,
}

impl View for FileMetadata {
    type V = FileRecord;

    open spec fn view(&self) -> FileRecord {
        FileRecord {
            id: self.id@,
            filename: self.filename@,
            original_filename: self.original_filename@,
            file_size: self.file_size as int,
            mime_type: opt_chars(self.mime_type),
            storage_path: self.storage_path@,
            uploaded_at: self.uploaded_at@,
            description: opt_chars(self.description),
            parent_directory_id: opt_chars(self.parent_directory_id),
        }
    }
}

impl Clone for FileMetadata {
    /// A copy of the row, field for field.
    fn clone(&self) -> (r: FileMetadata)
        ensures
            r == *self,
    {
        FileMetadata {
            id: self.id.clone(),
            filename: self.filename.clone(),
            original_filename: self.original_filename.clone(),
            file_size: self.file_size,
            mime_type: copy_opt(&self.mime_type),
            storage_path: self.storage_path.clone(),
            uploaded_at: self.uploaded_at.clone(),
            description: copy_opt(&self.description),
            parent_directory_id: copy_opt(&self.parent_directory_id),
        }
    }
}

/// One row of the `directories` table.
#[derive(Debug, PartialEq, Eq)]
pub struct Directory {
    pub id: String,
    pub name: String,
    pub parent_id: Option<String>,
    pub created_at: String,
    pub updated_at: String,
}

/// What a directory row holds, as plain mathematical values.
pub struct DirectoryRecord {
    pub id: Seq<char>,
    pub name: Seq<char>,
    pub parent_id: Option<Seq<char>>,
    pub created_at: Seq<char>,
    pub updated_at: Seq<char>,
}

impl View for Directory {
    type V = DirectoryRecord;

    open spec fn view(&self) -> DirectoryRecord {
        DirectoryRecord {
            id: self.id@,
            name: self.name@,
            parent_id: opt_chars(self.parent_id),
            created_at: self.created_at@,
            updated_at: self.updated_at@,
        }
    }
}

impl Clone for Directory {
    /// A copy of the row, field for field.
    fn clone(&self) -> (r: Directory)
        ensures
            r == *self,
    {
        Directory {
            id: self.id.clone(),
            name: self.name.clone(),
            parent_id: copy_opt(&self.parent_id),
            created_at: self.created_at.clone(),
            updated_at: self.updated_at.clone(),
        }
    }
}

/// A file as it is shown to clients: the row without the place of its blob
/// and without its directory.
#[derive(Debug, Clone, PartialEq, Eq)]
pub struct FileResponse {
    pub id: String,
    pub filename: String,
    pub original_filename: String,
    pub file_size: i64,
    pub mime_type: Option<String>,
    pub uploaded_at: String,
    pub description: Option<String>,
}

/// What a file response holds, as plain mathematical values.
pub struct FileSummary {
    pub id: Seq<char>,
    pub filename: Seq<char>,
    pub original_filename: Seq<char>,
    pub file_size: int,
    pub mime_type: Option<Seq<char>>,
    pub uploaded_at: Seq<char>,
    pub description: Option<Seq<char>>,
}

impl View for FileResponse {
    type V = FileSummary;

    open spec fn view(&self) -> FileSummary {
        FileSummary {
            id: self.id@,
            filename: self.filename@,
            original_filename: self.original_filename@,
            file_size: self.file_size as int,
            mime_type: opt_chars(self.mime_type),
            uploaded_at: self.uploaded_at@,
            description: opt_chars(self.description),
        }
    }
}

/// The summary under which a file row is shown.
pub open spec fn summary_of(f: FileRecord) -> FileSummary {
    FileSummary {
        id: f.id,
        filename: f.filename,
        original_filename: f.original_filename,
        file_size: f.file_size,
        mime_type: f.mime_type,
        uploaded_at: f.uploaded_at,
        description: f.description,
    }
}

impl From<FileMetadata> for FileResponse {
    fn from(metadata: FileMetadata) -> (response: FileResponse) {
        FileResponse {
            id: metadata.id,
            filename: metadata.filename,
            original_filename: metadata.original_filename,
            file_size: metadata.file_size,
            mime_type: metadata.mime_type,
            uploaded_at: metadata.uploaded_at,
            description: metadata.description,
        }
    }
}

impl vstd::std_specs::convert::FromSpecImpl<FileMetadata> for FileResponse {
    open spec fn obeys_from_spec() -> bool {
        true
    }

    open spec fn from_spec(metadata: FileMetadata) -> FileResponse {
        FileResponse {
            id: metadata.id,
            filename: metadata.filename,
            original_filename: metadata.original_filename,
            file_size: metadata.file_size,
            mime_type: metadata.mime_type,
            uploaded_at: metadata.uploaded_at,
            description: metadata.description,
        }
    }
}

/// The response to a file row is its summary.
pub proof fn lemma_response_shows_the_row(metadata: FileMetadata)
    ensures
        <FileResponse as vstd::std_specs::convert::FromSpec<FileMetadata>>::from_spec(metadata)@
            == summary_of(metadata@),
{
}

/// A directory as it is shown to clients: the row with the statistics of
/// the files that lie directly in it.
#[derive(Debug, Clone, PartialEq, Eq)]
pub struct DirectoryResponse {
    pub id: String,
    pub name: String,
    pub parent_id: Option<String>,
    pub created_at: String,
    pub updated_at: String,
    pub file_count: i64,
    pub total_size: i64,
}

/// What a directory response holds, as plain mathematical values.
pub struct DirectorySummary {
    pub id: Seq<char>,
    pub name: Seq<char>,
    pub parent_id: Option<Seq<char>>,
    pub created_at: Seq<char>,
    pub updated_at: Seq<char>,
    pub file_count: int,
    pub total_size: int,
}

impl View for DirectoryResponse {
    type V = DirectorySummary;

    open spec fn view(&self) -> DirectorySummary {
        DirectorySummary {
            id: self.id@,
            name: self.name@,
            parent_id: opt_chars(self.parent_id),
            created_at: self.created_at@,
            updated_at: self.updated_at@,
            file_count: self.file_count as int,
            total_size: self.total_size as int,
        }
    }
}

/// The summary under which a directory row is shown, given its statistics.
pub open spec fn directory_summary_of(
    d: DirectoryRecord,
    file_count: int,
    total_size: int,
) -> DirectorySummary {
    DirectorySummary {
        id: d.id,
        name: d.name,
        parent_id: d.parent_id,
        created_at: d.created_at,
        updated_at: d.updated_at,
        file_count,
        total_size,
    }
}

impl DirectoryResponse {
    /// The response to a directory row with the given statistics.
    pub fn describe(directory: Directory, file_count: i64, total_size: i64) -> (response:
        DirectoryResponse)
        ensures
            response@ == directory_summary_of(directory@, file_count as int, total_size as int),
    {
        DirectoryResponse {
            id: directory.id,
            name: directory.name,
            parent_id: directory.parent_id,
            created_at: directory.created_at,
            updated_at: directory.updated_at,
            file_count,
            total_size,
        }
    }
}

/// The answer to an upload.
#[derive(Debug, Clone, PartialEq, Eq)]
pub struct UploadResponse {
    pub success: bool,
    pub file: FileResponse,
    pub message: String,
}

/// The body of an answer that reports a failure.
#[derive(Debug, Clone, PartialEq, Eq)]
pub struct ErrorResponse {
    pub error: String,
}

/// The answer to a removal.
#[derive(Debug, Clone, PartialEq, Eq)]
pub struct DeleteResponse {
    pub success: bool,
    pub message: String,
}

/// The answer to a listing: the files and the directories of one directory,
/// and how many entries that makes.
#[derive(Debug, Clone, PartialEq, Eq)]
pub struct ListFilesResponse {
    pub files: Vec<FileResponse>,
    pub directories: Vec<DirectoryResponse>,
    pub total: usize,
}

/// The query of a listing.
#[derive(Debug, Clone, PartialEq, Eq)]
pub struct ListQuery {
    pub parent_directory_id: Option<String>,
}

/// The request to create a directory.
#[derive(Debug, Clone, PartialEq, Eq)]
pub struct CreateDirectoryRequest {
    pub name: String,
    pub parent_id: Option<String>,
}

/// The answer to the creation of a directory.
#[derive(Debug, Clone, PartialEq, Eq)]
pub struct CreateDirectoryResponse {
    pub success: bool,
    pub directory: DirectoryResponse,
    pub message: String,
}

/// The request to remove several files and directories at once.
#[derive(Debug, Clone, PartialEq, Eq)]
pub struct BulkDeleteRequest {
    pub file_ids: Vec<String>,
    pub directory_ids: Vec<String>,
}

/// The answer to a removal of several files and directories.
#[derive(Debug, Clone, PartialEq, Eq)]
pub struct BulkDeleteResponse {
    pub success: bool,
    pub deleted_files: usize,
    pub deleted_directories: usize,
    pub message: String,
}

/// The summaries of a vector of file responses.
pub open spec fn file_summaries(rows: Seq<FileResponse>) -> Seq<FileSummary> {
    Seq::new(rows.len(), |i: int| rows[i]@)
}

/// The summaries of a vector of directory responses.
pub open spec fn directory_summaries(rows: Seq<DirectoryResponse>) -> Seq<DirectorySummary> {
    Seq::new(rows.len(), |i: int| rows[i]@)
}

} // verus!
