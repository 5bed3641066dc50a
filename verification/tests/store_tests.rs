use fileshare::lex::bytes_no_later;
use fileshare::models::{Directory, FileMetadata, FileResponse};
use fileshare::store::{same_text, MetadataStore};
use fileshare::text::{decimal, join, reads};

fn file(id: &str, at: &str, parent: Option<&str>, size: i64) -> FileMetadata {
    FileMetadata {
        id: id.to_string(),
        filename: id.to_string(),
        original_filename: "n".to_string(),
        file_size: size,
        mime_type: None,
        storage_path: format!("up/{}", id),
        uploaded_at: at.to_string(),
        description: None,
        parent_directory_id: parent.map(|p| p.to_string()),
    }
}

fn dir(id: &str, name: &str, parent: Option<&str>) -> Directory {
    Directory {
        id: id.to_string(),
        name: name.to_string(),
        parent_id: parent.map(|p| p.to_string()),
        created_at: "t".to_string(),
        updated_at: "t".to_string(),
    }
}

#[test]
fn bytes_order_is_lexicographic() {
    assert!(bytes_no_later(b"", b""));
    assert!(bytes_no_later(b"", b"a"));
    assert!(!bytes_no_later(b"a", b""));
    assert!(bytes_no_later(b"abc", b"abd"));
    assert!(!bytes_no_later(b"abd", b"abc"));
    assert!(bytes_no_later(b"ab", b"abc"));
    assert!(!bytes_no_later(b"abc", b"ab"));
    assert!(bytes_no_later(b"abc", b"abc"));
    assert!(bytes_no_later(b"Z", b"a"));
    assert!(bytes_no_later(&[0x7f], &[0x80]));
}

#[test]
fn bytes_order_agrees_with_slices() {
    let words: [&[u8]; 6] = [b"", b"a", b"ab", b"b", b"ba", b"\xff"];
    for a in words {
        for b in words {
            assert_eq!(bytes_no_later(a, b), a <= b);
        }
    }
}

#[test]
fn decimal_numerals() {
    assert_eq!(decimal(0), "0");
    assert_eq!(decimal(7), "7");
    assert_eq!(decimal(10), "10");
    assert_eq!(decimal(509), "509");
    assert_eq!(decimal(1234567890), "1234567890");
    assert_eq!(decimal(usize::MAX), usize::MAX.to_string());
}

#[test]
fn join_and_reads() {
    assert_eq!(join("Failed: ", "cause"), "Failed: cause");
    assert_eq!(join("", ""), "");
    assert!(reads("file", "file"));
    assert!(!reads("file", "files"));
    assert!(!reads("File", "file"));
}

#[test]
fn same_text_compares_optional_strings() {
    assert!(same_text(&None, &None));
    assert!(same_text(&Some("a".to_string()), &Some("a".to_string())));
    assert!(!same_text(&Some("a".to_string()), &Some("b".to_string())));
    assert!(!same_text(&Some("a".to_string()), &None));
    assert!(!same_text(&None, &Some("".to_string())));
}

#[test]
fn new_store_is_empty() {
    let st = MetadataStore::new();
    assert_eq!(st.file_count(), 0);
    assert_eq!(st.directory_count(), 0);
    assert_eq!(st.get_file_metadata("x"), None);
    assert_eq!(st.get_directory("x"), None);
    assert_eq!(st.list_files(&None), Vec::<FileMetadata>::new());
    assert_eq!(st.list_directories(&None), Vec::<Directory>::new());
}

#[test]
fn insert_and_find_rows() {
    let mut st = MetadataStore::new();
    assert_eq!(st.insert_file(file("f1", "t1", None, 3)), Ok(()));
    assert_eq!(st.insert_file(file("f2", "t2", Some("d"), 4)), Ok(()));
    assert_eq!(st.insert_directory(dir("d", "docs", None)), Ok(()));
    assert_eq!(st.file_count(), 2);
    assert_eq!(st.directory_count(), 1);
    assert_eq!(st.get_file_metadata("f2"), Some(file("f2", "t2", Some("d"), 4)));
    assert_eq!(st.get_directory("d"), Some(dir("d", "docs", None)));
    assert_eq!(st.get_file_metadata("d"), None);
    assert_eq!(st.get_directory("f1"), None);
}

#[test]
fn remove_file_is_idempotent() {
    let mut st = MetadataStore::new();
    st.insert_file(file("f1", "t1", None, 3)).unwrap();
    st.insert_file(file("f2", "t2", None, 3)).unwrap();
    assert!(st.remove_file("f1"));
    assert_eq!(st.file_count(), 1);
    assert!(!st.remove_file("f1"));
    assert_eq!(st.file_count(), 1);
    assert_eq!(st.get_file_metadata("f2"), Some(file("f2", "t2", None, 3)));
}

#[test]
fn ancestors_are_found_by_walking_up() {
    let mut st = MetadataStore::new();
    st.insert_directory(dir("a", "a", None)).unwrap();
    st.insert_directory(dir("b", "b", Some("a"))).unwrap();
    st.insert_directory(dir("c", "c", Some("b"))).unwrap();
    st.insert_directory(dir("x", "x", Some("gone"))).unwrap();
    assert!(st.is_at_or_below("c", "a"));
    assert!(st.is_at_or_below("c", "b"));
    assert!(st.is_at_or_below("c", "c"));
    assert!(!st.is_at_or_below("a", "c"));
    assert!(!st.is_at_or_below("c", "x"));
    assert!(st.is_at_or_below("x", "gone"));
    assert!(st.is_at_or_below("nobody", "nobody"));
    assert!(!st.is_at_or_below("nobody", "a"));
}

#[test]
fn equal_upload_times_keep_both_rows() {
    let mut st = MetadataStore::new();
    st.insert_file(file("f1", "same", None, 1)).unwrap();
    st.insert_file(file("f2", "same", None, 2)).unwrap();
    st.insert_file(file("f3", "later", None, 3)).unwrap();
    let listed = st.list_files(&None);
    assert_eq!(listed.len(), 3);
    assert_eq!(listed[0].id, "f1");
    let mut ids: Vec<String> = listed.into_iter().map(|f| f.id).collect();
    ids.sort();
    assert_eq!(ids, vec!["f1", "f2", "f3"]);
}

#[test]
fn negative_sizes_enter_the_sum() {
    let mut st = MetadataStore::new();
    st.insert_file(file("f1", "t", Some("d"), i64::MAX)).unwrap();
    st.insert_file(file("f2", "t", Some("d"), -1)).unwrap();
    st.insert_file(file("f3", "t", Some("d"), 1)).unwrap();
    assert_eq!(st.directory_stats("d"), Ok((3, i64::MAX)));
}

#[test]
fn response_drops_path_and_directory() {
    let row = FileMetadata {
        id: "i".to_string(),
        filename: "i.txt".to_string(),
        original_filename: "o.txt".to_string(),
        file_size: 9,
        mime_type: Some("text/plain".to_string()),
        storage_path: "up/i.txt".to_string(),
        uploaded_at: "t".to_string(),
        description: Some("d".to_string()),
        parent_directory_id: Some("p".to_string()),
    };
    assert_eq!(
        FileResponse::from(row),
        FileResponse {
            id: "i".to_string(),
            filename: "i.txt".to_string(),
            original_filename: "o.txt".to_string(),
            file_size: 9,
            mime_type: Some("text/plain".to_string()),
            uploaded_at: "t".to_string(),
            description: Some("d".to_string()),
        }
    );
}

#[test]
fn contains_tells_the_tables_apart() {
    let mut st = MetadataStore::new();
    st.insert_file(file("f1", "t1", None, 3)).unwrap();
    st.insert_directory(dir("d", "docs", None)).unwrap();
    assert!(st.contains_file("f1"));
    assert!(!st.contains_file("d"));
    assert!(st.contains_directory("d"));
    assert!(!st.contains_directory("f1"));
    assert_eq!(st.all_files(), vec![file("f1", "t1", None, 3)]);
    assert_eq!(st.all_directories(), vec![dir("d", "docs", None)]);
}

#[test]
fn store_moves_and_removes_directories() {
    let mut st = MetadataStore::new();
    st.insert_directory(dir("a", "a", None)).unwrap();
    st.insert_directory(dir("b", "b", Some("a"))).unwrap();
    st.insert_file(file("f", "t", Some("b"), 1)).unwrap();
    assert_eq!(
        st.move_directory("a", Some("b".to_string()), "now".to_string()),
        Err(fileshare::error::StorageError::InvalidMove)
    );
    let moved = st.move_directory("b", None, "now".to_string()).unwrap().unwrap();
    assert_eq!(moved.parent_id, None);
    assert_eq!(moved.updated_at, "now");
    assert_eq!(st.move_file("f", Some("a".to_string())).unwrap().parent_directory_id, Some("a".to_string()));
    assert!(st.remove_directory("a"));
    assert!(!st.contains_file("f"));
    assert!(st.contains_directory("b"));
    assert!(!st.remove_directory("a"));
}
