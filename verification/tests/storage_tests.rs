use fileshare::error::StorageError;
use fileshare::models::{Directory, FileMetadata};
use fileshare::storage::{BlobOutcome, BlobWrite, FileRemoval, FileStorage};

fn storage() -> FileStorage {
    FileStorage::new("./uploads".to_string())
}

trait Reaches {
    fn store_reaches(&self, start: &str, target: &str) -> bool;
}

impl Reaches for FileStorage {
    fn store_reaches(&self, start: &str, target: &str) -> bool {
        let mut at = Some(start.to_string());
        let mut steps = 0;
        while let Some(p) = at {
            if p == target {
                return true;
            }
            steps += 1;
            assert!(steps <= 64);
            at = self.get_directory(&p).and_then(|row| row.parent_id);
        }
        false
    }
}

fn is_canonical(id: &str) -> bool {
    id.len() == 36
        && id.chars().enumerate().all(|(i, c)| match i {
            8 | 13 | 18 | 23 => c == '-',
            _ => c.is_ascii_digit() || ('a'..='f').contains(&c),
        })
}

fn save(
    st: &mut FileStorage,
    name: &str,
    content: &[u8],
    mime: Option<&str>,
    parent: Option<String>,
) -> FileMetadata {
    let target = st.new_blob(name);
    st.save_file(&target.id, name, content, mime.map(|m| m.to_string()), None, parent, BlobWrite::Written)
        .expect("a fresh identifier is not taken")
}

fn mkdir(st: &mut FileStorage, name: &str, parent: Option<String>) -> Directory {
    st.create_directory(name, parent).expect("a fresh identifier is not taken")
}

#[test]
fn directory_with_one_file() {
    let mut st = storage();
    let d1 = mkdir(&mut st, "docs", None);
    let f1 = save(&mut st, "r.txt", b"hi", Some("text/plain"), Some(d1.id.clone()));
    assert_eq!(st.list_files(Some(d1.id.clone())), vec![f1.clone()]);
    assert_eq!(st.get_directory_stats(&d1.id), Ok((1, 2)));
    assert_eq!(f1.mime_type, Some("text/plain".to_string()));
    assert_eq!(f1.original_filename, "r.txt");
    assert_eq!(f1.filename, format!("{}.txt", f1.id));
}

#[test]
fn binary_upload_records_size_and_path() {
    let mut st = storage();
    let content: Vec<u8> = (0..1024u32).map(|i| (i * 7 % 251) as u8).collect();
    let target = st.new_blob("a.bin");
    let f = st.save_file(&target.id, "a.bin", &content, None, None, None, BlobWrite::Written).unwrap();
    assert_eq!(f.file_size, 1024);
    assert_eq!(f.storage_path, target.storage_path);
    assert_eq!(f.storage_path, format!("./uploads/{}.bin", f.id));
    assert_eq!(st.get_file_path(&f.id), Some(f.storage_path.clone()));
    assert_eq!(f.mime_type, None);
    assert_eq!(f.parent_directory_id, None);
}

#[test]
fn move_into_own_child_is_refused() {
    let mut st = storage();
    let a = mkdir(&mut st, "a", None);
    let b = mkdir(&mut st, "b", Some(a.id.clone()));
    assert_eq!(st.move_directory(&a.id, Some(b.id.clone())), Err(StorageError::InvalidMove));
    let a_now = st.get_directory(&a.id).unwrap();
    assert_eq!(a_now.parent_id, None);
    assert_eq!(a_now, a);
    assert_eq!(st.get_directory(&b.id).unwrap(), b);
}

#[test]
fn delete_file_twice() {
    let mut st = storage();
    let f = save(&mut st, "x.pdf", b"%PDF-1.4", Some("application/pdf"), None);
    assert_eq!(st.delete_file(&f.id, BlobOutcome::Removed), Ok(true));
    assert_eq!(st.delete_file(&f.id, BlobOutcome::Missing), Ok(false));
    assert_eq!(st.get_file_metadata(&f.id), None);
}

#[test]
fn delete_directory_takes_its_files() {
    let mut st = storage();
    let d = mkdir(&mut st, "d", None);
    let f = save(&mut st, "y", b"...", None, Some(d.id.clone()));
    assert_eq!(f.filename, f.id);
    assert!(st.delete_directory(&d.id));
    assert_eq!(st.get_file_metadata(&f.id), None);
    assert_eq!(st.get_directory(&d.id), None);
}

#[test]
fn fifty_uploads_into_the_root() {
    let mut st = storage();
    let mut ids = Vec::new();
    for i in 0..50 {
        let f = save(&mut st, &format!("f{}.dat", i), &[i as u8; 3], None, None);
        ids.push(f.id);
    }
    let listed = st.list_files(None);
    assert_eq!(listed.len(), 50);
    for pair in listed.windows(2) {
        assert!(pair[0].uploaded_at.as_bytes() >= pair[1].uploaded_at.as_bytes());
    }
    for id in &ids {
        assert_eq!(listed.iter().filter(|f| &f.id == id).count(), 1);
    }
    let mut seen = ids.clone();
    seen.sort();
    seen.dedup();
    assert_eq!(seen.len(), 50);
}

#[test]
fn fresh_identifiers_have_the_canonical_form() {
    let st = storage();
    let t1 = st.new_blob("a.txt");
    let t2 = st.new_blob("a.txt");
    assert!(is_canonical(&t1.id));
    assert!(is_canonical(&t2.id));
    assert_ne!(t1.id, t2.id);
    assert_eq!(t1.filename, format!("{}.txt", t1.id));
    assert_eq!(t1.storage_path, format!("./uploads/{}.txt", t1.id));
}

#[test]
fn created_directory_is_stamped_once() {
    let mut st = storage();
    let d = mkdir(&mut st, "docs", Some("no-such-directory".to_string()));
    assert!(is_canonical(&d.id));
    assert_eq!(d.name, "docs");
    assert_eq!(d.parent_id, Some("no-such-directory".to_string()));
    assert_eq!(d.created_at, d.updated_at);
    assert!(d.created_at.len() >= 20);
    assert!(d.created_at.contains('T'));
    assert!(d.created_at.ends_with("+00:00"));
    assert_eq!(st.get_directory(&d.id), Some(d));
}

#[test]
fn blob_target_is_derived_from_id_and_name() {
    let st = FileStorage::new("/var/blobs/".to_string());
    let t = st.blob_target("id-1", "photo.JPG");
    assert_eq!(t.id, "id-1");
    assert_eq!(t.filename, "id-1.JPG");
    assert_eq!(t.storage_path, "/var/blobs/id-1.JPG");
    let plain = st.blob_target("id-2", "README");
    assert_eq!(plain.filename, "id-2");
    assert_eq!(plain.storage_path, "/var/blobs/id-2");
    assert_eq!(st.upload_dir(), "/var/blobs/");
}

#[test]
fn save_file_at_records_every_field() {
    let mut st = storage();
    let f = st
        .save_file_at(
            "id-1",
            "2024-01-02T03:04:05+00:00".to_string(),
            "notes.md",
            b"hello",
            Some("text/markdown".to_string()),
            Some("my notes".to_string()),
            Some("dir-9".to_string()),
            BlobWrite::Written,
        )
        .unwrap();
    assert_eq!(
        f,
        FileMetadata {
            id: "id-1".to_string(),
            filename: "id-1.md".to_string(),
            original_filename: "notes.md".to_string(),
            file_size: 5,
            mime_type: Some("text/markdown".to_string()),
            storage_path: "./uploads/id-1.md".to_string(),
            uploaded_at: "2024-01-02T03:04:05+00:00".to_string(),
            description: Some("my notes".to_string()),
            parent_directory_id: Some("dir-9".to_string()),
        }
    );
    assert_eq!(st.get_file_metadata("id-1"), Some(f));
}

#[test]
fn empty_content_is_recorded_with_size_zero() {
    let mut st = storage();
    let f = st.save_file_at("id-1", "t".to_string(), "empty.txt", b"", None, None, None, BlobWrite::Written).unwrap();
    assert_eq!(f.file_size, 0);
    assert_eq!(st.get_file_metadata("id-1").unwrap().file_size, 0);
}

#[test]
fn taken_file_identifier_is_refused() {
    let mut st = storage();
    st.save_file_at("id-1", "t1".to_string(), "a", b"1", None, None, None, BlobWrite::Written).unwrap();
    let again = st.save_file_at("id-1", "t2".to_string(), "b", b"22", None, None, None, BlobWrite::Written);
    assert_eq!(again, Err(StorageError::MetadataIO));
    assert_eq!(st.get_file_metadata("id-1").unwrap().original_filename, "a");
    assert_eq!(st.list_files(None).len(), 1);
}

#[test]
fn failed_blob_removal_keeps_the_row() {
    let mut st = storage();
    st.save_file_at("id-1", "t1".to_string(), "a", b"1", None, None, None, BlobWrite::Written).unwrap();
    assert_eq!(st.delete_file("id-1", BlobOutcome::Failed), Err(StorageError::StorageIO));
    assert!(st.get_file_metadata("id-1").is_some());
    assert_eq!(st.delete_file("id-1", BlobOutcome::Missing), Ok(true));
    assert!(st.get_file_metadata("id-1").is_none());
    assert_eq!(st.delete_file("nobody", BlobOutcome::Failed), Ok(false));
}

#[test]
fn list_files_separates_directories_and_the_root() {
    let mut st = storage();
    st.save_file_at("f1", "2024-01-01".to_string(), "a", b"1", None, None, None, BlobWrite::Written).unwrap();
    st.save_file_at("f2", "2024-01-03".to_string(), "b", b"1", None, None, Some("d".to_string()), BlobWrite::Written)
        .unwrap();
    st.save_file_at("f3", "2024-01-02".to_string(), "c", b"1", None, None, Some("d".to_string()), BlobWrite::Written)
        .unwrap();
    st.save_file_at("f4", "2024-01-04".to_string(), "e", b"1", None, None, Some("x".to_string()), BlobWrite::Written)
        .unwrap();
    let ids = |rows: Vec<FileMetadata>| rows.into_iter().map(|f| f.id).collect::<Vec<_>>();
    assert_eq!(ids(st.list_files(Some("d".to_string()))), vec!["f2", "f3"]);
    assert_eq!(ids(st.list_files(None)), vec!["f1"]);
    assert_eq!(ids(st.list_files(Some("x".to_string()))), vec!["f4"]);
    assert_eq!(ids(st.list_files(Some("other".to_string()))), Vec::<String>::new());
}

#[test]
fn list_files_comes_newest_first() {
    let mut st = storage();
    for (id, at) in [("a", "2024-03-01"), ("b", "2024-01-01"), ("c", "2024-05-01"), ("d", "2024-02-01")] {
        st.save_file_at(id, at.to_string(), "n", b"1", None, None, None, BlobWrite::Written).unwrap();
    }
    let ids: Vec<String> = st.list_files(None).into_iter().map(|f| f.id).collect();
    assert_eq!(ids, vec!["c", "a", "d", "b"]);
}

#[test]
fn list_directories_comes_by_name() {
    let mut st = storage();
    for (id, name) in [("1", "pear"), ("2", "apple"), ("3", "zebra"), ("4", "Apple"), ("5", "app")] {
        st.create_directory_with(id.to_string(), "t".to_string(), name, None).unwrap();
    }
    st.create_directory_with("6".to_string(), "t".to_string(), "inner", Some("1".to_string()))
        .unwrap();
    let names: Vec<String> = st.list_directories(None).into_iter().map(|d| d.name).collect();
    assert_eq!(names, vec!["Apple", "app", "apple", "pear", "zebra"]);
    let inner: Vec<String> =
        st.list_directories(Some("1".to_string())).into_iter().map(|d| d.id).collect();
    assert_eq!(inner, vec!["6"]);
}

#[test]
fn stats_count_direct_children_only() {
    let mut st = storage();
    st.create_directory_with("top".to_string(), "t".to_string(), "top", None).unwrap();
    st.create_directory_with("sub".to_string(), "t".to_string(), "sub", Some("top".to_string()))
        .unwrap();
    st.save_file_at("f1", "t".to_string(), "a", &[0u8; 10], None, None, Some("top".to_string()), BlobWrite::Written)
        .unwrap();
    st.save_file_at("f2", "t".to_string(), "b", &[0u8; 32], None, None, Some("top".to_string()), BlobWrite::Written)
        .unwrap();
    st.save_file_at("f3", "t".to_string(), "c", &[0u8; 500], None, None, Some("sub".to_string()), BlobWrite::Written)
        .unwrap();
    assert_eq!(st.get_directory_stats("top"), Ok((2, 42)));
    assert_eq!(st.get_directory_stats("sub"), Ok((1, 500)));
    assert_eq!(st.get_directory_stats("empty"), Ok((0, 0)));
    let listed = st.list_files(Some("top".to_string()));
    let sum: i64 = listed.iter().map(|f| f.file_size).sum();
    assert_eq!(st.get_directory_stats("top"), Ok((listed.len() as i64, sum)));
}

#[test]
fn taken_directory_identifier_is_refused() {
    let mut st = storage();
    st.create_directory_with("d".to_string(), "t".to_string(), "one", None).unwrap();
    let again = st.create_directory_with("d".to_string(), "t".to_string(), "two", None);
    assert_eq!(again, Err(StorageError::MetadataIO));
    assert_eq!(st.get_directory("d").unwrap().name, "one");
}

#[test]
fn directory_that_would_close_a_cycle_is_refused() {
    let mut st = storage();
    st.create_directory_with("child".to_string(), "t".to_string(), "c", Some("ghost".to_string()))
        .unwrap();
    let r = st.create_directory_with(
        "ghost".to_string(),
        "t".to_string(),
        "g",
        Some("child".to_string()),
    );
    assert_eq!(r, Err(StorageError::MetadataIO));
    assert_eq!(st.get_directory("ghost"), None);
    let own = st.create_directory_with("self".to_string(), "t".to_string(), "s", Some("self".to_string()));
    assert_eq!(own, Err(StorageError::MetadataIO));
    st.create_directory_with("ghost".to_string(), "t".to_string(), "g", None).unwrap();
    assert_eq!(st.move_directory("ghost", Some("child".to_string())), Err(StorageError::InvalidMove));
}

#[test]
fn move_directory_sets_parent_and_time() {
    let mut st = storage();
    st.create_directory_with("a".to_string(), "t0".to_string(), "a", None).unwrap();
    st.create_directory_with("b".to_string(), "t0".to_string(), "b", None).unwrap();
    let moved = st.move_directory_at("b", Some("a".to_string()), "t1".to_string()).unwrap().unwrap();
    assert_eq!(
        moved,
        Directory {
            id: "b".to_string(),
            name: "b".to_string(),
            parent_id: Some("a".to_string()),
            created_at: "t0".to_string(),
            updated_at: "t1".to_string(),
        }
    );
    assert_eq!(st.get_directory("b"), Some(moved));
    assert_eq!(st.get_directory("a").unwrap().updated_at, "t0");
    let back = st.move_directory_at("b", None, "t2".to_string()).unwrap().unwrap();
    assert_eq!(back.parent_id, None);
    assert_eq!(back.updated_at, "t2");
}

#[test]
fn move_directory_into_itself_is_refused() {
    let mut st = storage();
    st.create_directory_with("a".to_string(), "t0".to_string(), "a", None).unwrap();
    let r = st.move_directory_at("a", Some("a".to_string()), "t1".to_string());
    assert_eq!(r, Err(StorageError::InvalidMove));
    assert_eq!(st.get_directory("a").unwrap().updated_at, "t0");
    let nobody = st.move_directory_at("nobody", Some("nobody".to_string()), "t1".to_string());
    assert_eq!(nobody, Err(StorageError::InvalidMove));
}

#[test]
fn move_directory_below_itself_is_refused_at_any_depth() {
    let mut st = storage();
    st.create_directory_with("a".to_string(), "t0".to_string(), "a", None).unwrap();
    st.create_directory_with("b".to_string(), "t0".to_string(), "b", Some("a".to_string())).unwrap();
    st.create_directory_with("c".to_string(), "t0".to_string(), "c", Some("b".to_string())).unwrap();
    st.create_directory_with("d".to_string(), "t0".to_string(), "d", Some("c".to_string())).unwrap();
    for below in ["b", "c", "d"] {
        let r = st.move_directory_at("a", Some(below.to_string()), "t1".to_string());
        assert_eq!(r, Err(StorageError::InvalidMove));
    }
    assert_eq!(st.get_directory("a").unwrap().parent_id, None);
    assert_eq!(st.get_directory("a").unwrap().updated_at, "t0");
    let ok = st.move_directory_at("d", Some("a".to_string()), "t1".to_string());
    assert_eq!(ok.unwrap().unwrap().parent_id, Some("a".to_string()));
    let up = st.move_directory_at("c", None, "t2".to_string());
    assert_eq!(up.unwrap().unwrap().parent_id, None);
    let now_fine = st.move_directory_at("a", Some("c".to_string()), "t3".to_string());
    assert_eq!(now_fine.unwrap().unwrap().parent_id, Some("c".to_string()));
    let closes = st.move_directory_at("c", Some("d".to_string()), "t4".to_string());
    assert_eq!(closes, Err(StorageError::InvalidMove));
}

#[test]
fn move_of_a_missing_directory_returns_nothing() {
    let mut st = storage();
    st.create_directory_with("a".to_string(), "t0".to_string(), "a", None).unwrap();
    assert_eq!(st.move_directory_at("nobody", Some("a".to_string()), "t1".to_string()), Ok(None));
    assert_eq!(st.move_directory("nobody", None), Ok(None));
    assert_eq!(st.list_directories(None).len(), 1);
}

#[test]
fn move_directory_stamps_the_clock() {
    let mut st = storage();
    st.create_directory_with("a".to_string(), "t0".to_string(), "a", None).unwrap();
    st.create_directory_with("b".to_string(), "t0".to_string(), "b", None).unwrap();
    let moved = st.move_directory("b", Some("a".to_string())).unwrap().unwrap();
    assert_eq!(moved.parent_id, Some("a".to_string()));
    assert_eq!(moved.created_at, "t0");
    assert_ne!(moved.updated_at, "t0");
    assert!(moved.updated_at.ends_with("+00:00"));
}

#[test]
fn move_file_changes_only_the_parent() {
    let mut st = storage();
    let f = st.save_file_at("f", "t".to_string(), "a.txt", b"abc", None, None, None, BlobWrite::Written).unwrap();
    let moved = st.move_file("f", Some("anywhere".to_string())).unwrap();
    assert_eq!(moved.parent_directory_id, Some("anywhere".to_string()));
    assert_eq!(FileMetadata { parent_directory_id: None, ..moved.clone() }, f);
    assert_eq!(st.get_file_metadata("f"), Some(moved));
    assert_eq!(st.move_file("nobody", None), None);
    assert_eq!(st.move_file("f", None).unwrap().parent_directory_id, None);
}

#[test]
fn delete_directory_cascades_through_the_subtree() {
    let mut st = storage();
    st.create_directory_with("a".to_string(), "t".to_string(), "a", None).unwrap();
    st.create_directory_with("b".to_string(), "t".to_string(), "b", Some("a".to_string())).unwrap();
    st.create_directory_with("c".to_string(), "t".to_string(), "c", Some("b".to_string())).unwrap();
    st.create_directory_with("z".to_string(), "t".to_string(), "z", None).unwrap();
    for (id, parent) in [("f0", None), ("f1", Some("a")), ("f2", Some("b")), ("f3", Some("c")), ("f4", Some("z"))] {
        st.save_file_at(id, "t".to_string(), "n", b"1", None, None, parent.map(|p: &str| p.to_string()), BlobWrite::Written)
            .unwrap();
    }
    assert!(st.delete_directory("b"));
    assert!(st.get_directory("a").is_some());
    assert!(st.get_directory("b").is_none());
    assert!(st.get_directory("c").is_none());
    assert!(st.get_directory("z").is_some());
    let left: Vec<bool> =
        ["f0", "f1", "f2", "f3", "f4"].iter().map(|id| st.get_file_metadata(id).is_some()).collect();
    assert_eq!(left, vec![true, true, false, false, true]);
    assert!(!st.delete_directory("b"));
    assert!(!st.delete_directory("nobody"));
}

#[test]
fn create_then_delete_leaves_no_trace() {
    let mut st = storage();
    st.create_directory_with("keep".to_string(), "t".to_string(), "keep", None).unwrap();
    st.save_file_at("f", "t".to_string(), "n", b"1", None, None, Some("keep".to_string()), BlobWrite::Written).unwrap();
    let dirs_before = st.list_directories(None);
    let files_before = st.list_files(Some("keep".to_string()));
    let d = mkdir(&mut st, "tmp", Some("keep".to_string()));
    assert!(st.delete_directory(&d.id));
    assert_eq!(st.list_directories(None), dirs_before);
    assert_eq!(st.list_directories(Some("keep".to_string())), Vec::<Directory>::new());
    assert_eq!(st.list_files(Some("keep".to_string())), files_before);
}

#[test]
fn bulk_delete_counts_what_was_there() {
    let mut st = storage();
    st.create_directory_with("d1".to_string(), "t".to_string(), "d1", None).unwrap();
    st.create_directory_with("d2".to_string(), "t".to_string(), "d2", Some("d1".to_string())).unwrap();
    for id in ["f1", "f2", "f3"] {
        st.save_file_at(id, "t".to_string(), "n", b"1", None, None, None, BlobWrite::Written).unwrap();
    }
    let files = vec![
        FileRemoval { id: "f1".to_string(), blob: BlobOutcome::Removed },
        FileRemoval { id: "missing".to_string(), blob: BlobOutcome::Missing },
        FileRemoval { id: "f1".to_string(), blob: BlobOutcome::Missing },
        FileRemoval { id: "f3".to_string(), blob: BlobOutcome::Missing },
    ];
    let dirs = vec!["d1".to_string(), "d2".to_string(), "nobody".to_string()];
    assert_eq!(st.bulk_delete(&files, &dirs), Ok((2, 1)));
    assert!(st.get_file_metadata("f2").is_some());
    assert!(st.get_file_metadata("f1").is_none());
    assert!(st.get_directory("d2").is_none());
    assert_eq!(st.bulk_delete(&Vec::new(), &Vec::new()), Ok((0, 0)));
}

#[test]
fn bulk_delete_stops_at_the_first_failure() {
    let mut st = storage();
    st.create_directory_with("d1".to_string(), "t".to_string(), "d1", None).unwrap();
    for id in ["f1", "f2", "f3"] {
        st.save_file_at(id, "t".to_string(), "n", b"1", None, None, None, BlobWrite::Written).unwrap();
    }
    let files = vec![
        FileRemoval { id: "f1".to_string(), blob: BlobOutcome::Removed },
        FileRemoval { id: "f2".to_string(), blob: BlobOutcome::Failed },
        FileRemoval { id: "f3".to_string(), blob: BlobOutcome::Removed },
    ];
    assert_eq!(st.bulk_delete(&files, &vec!["d1".to_string()]), Err(StorageError::StorageIO));
    assert!(st.get_file_metadata("f1").is_none());
    assert!(st.get_file_metadata("f2").is_some());
    assert!(st.get_file_metadata("f3").is_some());
    assert!(st.get_directory("d1").is_some());
}

#[test]
fn stats_beyond_the_range_are_a_failure() {
    let mut st = storage();
    let mut store = fileshare::store::MetadataStore::new();
    for id in ["f1", "f2"] {
        store
            .insert_file(FileMetadata {
                id: id.to_string(),
                filename: id.to_string(),
                original_filename: "n".to_string(),
                file_size: i64::MAX,
                mime_type: None,
                storage_path: id.to_string(),
                uploaded_at: "t".to_string(),
                description: None,
                parent_directory_id: Some("d".to_string()),
            })
            .unwrap();
    }
    assert_eq!(store.directory_stats("d"), Err(StorageError::MetadataIO));
    assert_eq!(store.directory_stats("e"), Ok((0, 0)));
    assert_eq!(st.delete_file("f1", BlobOutcome::Removed), Ok(false));
}

#[test]
fn error_status_and_message() {
    assert_eq!(StorageError::NotFound.status(), 404);
    assert_eq!(StorageError::InvalidMove.status(), 400);
    assert_eq!(StorageError::StorageIO.status(), 500);
    assert_eq!(StorageError::MetadataIO.status(), 500);
    assert_eq!(StorageError::NotFound.message(), "not found");
    assert_eq!(StorageError::StorageIO.message(), "blob storage failed");
    assert_eq!(StorageError::MetadataIO.message(), "metadata store failed");
    assert_eq!(
        StorageError::InvalidMove.message(),
        "a directory cannot be moved into itself or below itself"
    );
}

#[test]
fn lookup_reports_what_is_not_found() {
    let mut st = storage();
    let f = st.save_file_at("f", "t".to_string(), "a.txt", b"abc", None, None, None, BlobWrite::Written).unwrap();
    let d = st.create_directory_with("d".to_string(), "t".to_string(), "docs", None).unwrap();
    assert_eq!(st.lookup_file("f"), Ok(f));
    assert_eq!(st.lookup_file("d"), Err(StorageError::NotFound));
    assert_eq!(st.lookup_directory("d"), Ok(d));
    assert_eq!(st.lookup_directory("f"), Err(StorageError::NotFound));
}

#[test]
fn tables_are_handed_out_and_taken_in_again() {
    let mut st = storage();
    st.create_directory_with("b".to_string(), "t".to_string(), "b", Some("a".to_string())).unwrap();
    st.create_directory_with("a".to_string(), "t".to_string(), "a", None).unwrap();
    st.save_file_at("f1", "t".to_string(), "x.txt", b"abc", None, None, Some("b".to_string()), BlobWrite::Written).unwrap();
    st.save_file_at("f2", "t".to_string(), "y", b"", None, None, None, BlobWrite::Written).unwrap();
    let files = st.all_files();
    let dirs = st.all_directories();
    assert_eq!(files.iter().map(|f| f.id.as_str()).collect::<Vec<_>>(), vec!["f1", "f2"]);
    assert_eq!(dirs.iter().map(|d| d.id.as_str()).collect::<Vec<_>>(), vec!["b", "a"]);

    let mut again = FileStorage::new("elsewhere".to_string());
    for d in dirs.iter() {
        assert_eq!(again.restore_directory(d.clone()), Ok(()));
    }
    for f in files.iter() {
        assert_eq!(again.restore_file(f.clone()), Ok(()));
    }
    assert_eq!(again.all_files(), files);
    assert_eq!(again.all_directories(), dirs);
    assert_eq!(again.get_file_path("f1"), Some("./uploads/f1.txt".to_string()));
    assert_eq!(again.restore_file(files[0].clone()), Err(StorageError::MetadataIO));
    assert_eq!(again.restore_directory(dirs[0].clone()), Err(StorageError::MetadataIO));
    assert_eq!(again.all_files().len(), 2);
    assert_eq!(again.all_directories().len(), 2);
}

#[test]
fn restored_rows_cannot_close_a_cycle() {
    let mut st = storage();
    let row = |id: &str, parent: &str| Directory {
        id: id.to_string(),
        name: id.to_string(),
        parent_id: Some(parent.to_string()),
        created_at: "t".to_string(),
        updated_at: "t".to_string(),
    };
    assert_eq!(st.restore_directory(row("a", "b")), Ok(()));
    assert_eq!(st.restore_directory(row("b", "c")), Ok(()));
    assert_eq!(st.restore_directory(row("c", "a")), Err(StorageError::MetadataIO));
    assert_eq!(st.restore_directory(row("c", "d")), Ok(()));
    assert_eq!(st.all_directories().len(), 3);
}

#[test]
fn content_length_is_recorded_exactly() {
    let mut st = storage();
    let sizes = [1usize, 2, 255, 256, 4096, 65537];
    for (i, n) in sizes.iter().enumerate() {
        let f = st
            .save_file_at(&format!("f{}", i), "t".to_string(), "n.bin", &vec![7u8; *n], None, None, None, BlobWrite::Written)
            .unwrap();
        assert_eq!(f.file_size, *n as i64);
    }
}

#[test]
fn no_directory_is_its_own_ancestor_after_moves() {
    let mut st = storage();
    let names: Vec<String> = (0..8).map(|i| format!("d{}", i)).collect();
    for n in &names {
        st.create_directory_with(n.clone(), "t".to_string(), n, None).unwrap();
    }
    let mut seed: u32 = 12345;
    let mut refused = 0;
    let mut accepted = 0;
    for step in 0..400 {
        seed = seed.wrapping_mul(1103515245).wrapping_add(12345);
        let a = ((seed >> 16) % 8) as usize;
        seed = seed.wrapping_mul(1103515245).wrapping_add(12345);
        let b = ((seed >> 16) % 9) as usize;
        let target = if b == 8 { None } else { Some(names[b].clone()) };
        let would_close = match &target {
            Some(t) => st.store_reaches(t, &names[a]),
            None => false,
        };
        let r = st.move_directory_at(&names[a], target.clone(), format!("t{}", step));
        if would_close {
            assert_eq!(r, Err(StorageError::InvalidMove));
            refused += 1;
        } else {
            assert_eq!(r.unwrap().unwrap().parent_id, target);
            accepted += 1;
        }
        for d in st.all_directories() {
            let mut at = d.parent_id.clone();
            let mut steps = 0;
            while let Some(p) = at {
                assert_ne!(p, d.id);
                steps += 1;
                assert!(steps <= 8);
                at = st.get_directory(&p).and_then(|row| row.parent_id);
            }
        }
    }
    assert!(refused > 0);
    assert!(accepted > 0);
}

#[test]
fn saved_file_is_stamped_in_utc() {
    let mut st = storage();
    let f = save(&mut st, "a.txt", b"abc", None, None);
    assert!(f.uploaded_at.ends_with("+00:00"));
    assert_eq!(&f.uploaded_at[10..11], "T");
    assert_eq!(&f.uploaded_at[4..5], "-");
    assert!(f.uploaded_at.as_str() > "2020-01-01T00:00:00+00:00");
}

#[test]
fn failed_blob_write_records_nothing() {
    let mut st = storage();
    let r = st.save_file_at(
        "id-1",
        "t".to_string(),
        "a.txt",
        b"abc",
        None,
        None,
        None,
        BlobWrite::Failed,
    );
    assert_eq!(r, Err(StorageError::StorageIO));
    assert_eq!(st.get_file_metadata("id-1"), None);
    assert_eq!(st.all_files().len(), 0);
    let target = st.new_blob("a.txt");
    let r = st.save_file(&target.id, "a.txt", b"abc", None, None, None, BlobWrite::Failed);
    assert_eq!(r, Err(StorageError::StorageIO));
    assert_eq!(st.all_files().len(), 0);
    let ok = st.save_file(&target.id, "a.txt", b"abc", None, None, None, BlobWrite::Written);
    assert_eq!(ok.unwrap().id, target.id);
    let taken = st.save_file(&target.id, "a.txt", b"abc", None, None, None, BlobWrite::Failed);
    assert_eq!(taken, Err(StorageError::StorageIO));
    assert_eq!(st.all_files().len(), 1);
}

#[test]
fn a_failed_batch_touches_no_further_blob() {
    let mut st = storage();
    for id in ["f1", "f2", "f3"] {
        st.save_file_at(id, "t".to_string(), "n.txt", b"1", None, None, None, BlobWrite::Written)
            .unwrap();
    }
    let mut done: Vec<FileRemoval> = Vec::new();
    assert_eq!(st.next_blob_to_remove(&done, "f1"), Some("./uploads/f1.txt".to_string()));
    assert_eq!(st.next_blob_to_remove(&done, "nobody"), None);
    done.push(FileRemoval { id: "f1".to_string(), blob: BlobOutcome::Removed });
    done.push(FileRemoval { id: "nobody".to_string(), blob: BlobOutcome::Missing });
    assert_eq!(st.next_blob_to_remove(&done, "f2"), Some("./uploads/f2.txt".to_string()));
    done.push(FileRemoval { id: "f2".to_string(), blob: BlobOutcome::Failed });
    assert_eq!(st.next_blob_to_remove(&done, "f3"), None);
    done.push(FileRemoval { id: "f3".to_string(), blob: BlobOutcome::Missing });
    assert_eq!(st.next_blob_to_remove(&done, "f1"), None);
    assert_eq!(st.bulk_delete(&done, &Vec::new()), Err(StorageError::StorageIO));
    assert!(!st.contains_file("f1"));
    assert!(st.contains_file("f2"));
    assert!(st.contains_file("f3"));
}

#[test]
fn subtree_is_what_delete_directory_removes() {
    let mut st = storage();
    for (id, parent) in [("a", None), ("b", Some("a")), ("c", Some("b")), ("z", None)] {
        st.create_directory_with(id.to_string(), "t".to_string(), id, parent.map(|p: &str| p.to_string()))
            .unwrap();
    }
    for (id, parent) in [("f0", None), ("f1", Some("a")), ("f2", Some("b")), ("f3", Some("c")), ("f4", Some("z"))] {
        st.save_file_at(
            id,
            "t".to_string(),
            "n",
            b"1",
            None,
            None,
            parent.map(|p: &str| p.to_string()),
            BlobWrite::Written,
        )
        .unwrap();
    }
    let dirs: Vec<String> = st.directories_at_or_below("b").into_iter().map(|d| d.id).collect();
    let files: Vec<String> = st.files_at_or_below("b").into_iter().map(|f| f.id).collect();
    assert_eq!(dirs, vec!["b", "c"]);
    assert_eq!(files, vec!["f2", "f3"]);
    assert_eq!(st.directories_at_or_below("nobody").len(), 0);
    assert_eq!(st.files_at_or_below("nobody").len(), 0);
    assert!(st.delete_directory("b"));
    for id in &dirs {
        assert!(!st.contains_directory(id));
    }
    for id in &files {
        assert!(!st.contains_file(id));
    }
    assert!(st.contains_directory("a") && st.contains_directory("z"));
    assert!(st.contains_file("f0") && st.contains_file("f1") && st.contains_file("f4"));
    assert_eq!(st.directories_at_or_below("b").len(), 0);
}

#[test]
fn accepted_uploads_have_distinct_ids_and_paths() {
    let mut st = storage();
    let mut rows = Vec::new();
    for i in 0..20 {
        rows.push(save(&mut st, "same.txt", &[i as u8], None, None));
    }
    assert_eq!(st.all_files(), rows);
    for i in 0..rows.len() {
        for j in (i + 1)..rows.len() {
            assert_ne!(rows[i].id, rows[j].id);
            assert_ne!(rows[i].storage_path, rows[j].storage_path);
        }
    }
    let listed = st.list_files(None);
    assert_eq!(listed.len(), 20);
    for f in &rows {
        assert_eq!(listed.iter().filter(|g| *g == f).count(), 1);
    }
}

#[test]
fn rows_added_since_a_count_are_handed_out() {
    let mut st = storage();
    st.create_directory_with("a".to_string(), "t".to_string(), "a", None).unwrap();
    let dirs_before = st.directory_count();
    let files_before = st.file_count();
    assert_eq!((dirs_before, files_before), (1, 0));
    let b = st.create_directory_with("b".to_string(), "t".to_string(), "b", None).unwrap();
    let f = st
        .save_file_at("f", "t".to_string(), "n", b"1", None, None, None, BlobWrite::Written)
        .unwrap();
    assert_eq!(st.directories_from(dirs_before), vec![b]);
    assert_eq!(st.files_from(files_before), vec![f]);
    assert_eq!(st.directories_from(2), Vec::<Directory>::new());
    assert_eq!(st.directories_from(7), Vec::<Directory>::new());
    assert_eq!(st.files_from(0).len(), 1);
    assert_eq!(st.directories_from(0), st.all_directories());
}
