use paper_store::store::FileStore;
use paper_store::store::StoreError;

#[test]
fn write_then_read_round_trip() {
    let mut store = FileStore::new();
    store.write_data_file(b"paper.html", b"<html></html>".to_vec());
    assert_eq!(store.read_data_file(b"paper.html").unwrap(), b"<html></html>".to_vec());
}

#[test]
fn overwrite_replaces_content() {
    let mut store = FileStore::new();
    store.write_data_file(b"a.txt", b"one".to_vec());
    store.write_data_file(b"a.txt", b"two".to_vec());
    assert_eq!(store.read_data_file(b"a.txt").unwrap(), b"two".to_vec());
}

#[test]
fn read_missing_file_is_an_error() {
    let store = FileStore::new();
    assert_eq!(store.read_data_file(b"absent.txt"), Err(StoreError::MissingFile));
}

#[test]
fn list_returns_written_names_as_a_set() {
    let mut store = FileStore::new();
    store.write_data_file(b"a.txt", b"1".to_vec());
    store.write_data_file(b"sub/b.png", b"2".to_vec());
    store.write_data_file(b"sub/deep/c.txt", b"3".to_vec());
    let mut names = store.list_data_files();
    names.sort();
    let mut expected = vec![b"a.txt".to_vec(), b"sub/b.png".to_vec(), b"sub/deep/c.txt".to_vec()];
    expected.sort();
    assert_eq!(names, expected);
}

#[test]
fn list_has_no_duplicates_after_overwrite() {
    let mut store = FileStore::new();
    store.write_data_file(b"a.txt", b"1".to_vec());
    store.write_data_file(b"a.txt", b"2".to_vec());
    assert_eq!(store.list_data_files().len(), 1);
}

#[test]
fn exists_reports_presence_without_error() {
    let mut store = FileStore::new();
    assert!(!store.check_data_file_exists(b"a.txt"));
    store.write_data_file(b"a.txt", b"1".to_vec());
    assert!(store.check_data_file_exists(b"a.txt"));
}

#[test]
fn delete_is_idempotent() {
    let mut store = FileStore::new();
    store.delete_data_file(b"never-written.txt");
    store.write_data_file(b"a.txt", b"1".to_vec());
    store.delete_data_file(b"a.txt");
    assert!(!store.check_data_file_exists(b"a.txt"));
    store.delete_data_file(b"a.txt");
    assert!(!store.check_data_file_exists(b"a.txt"));
}

#[test]
fn delete_leaves_other_entries() {
    let mut store = FileStore::new();
    store.write_data_file(b"a.txt", b"1".to_vec());
    store.write_data_file(b"b.txt", b"2".to_vec());
    store.delete_data_file(b"a.txt");
    assert_eq!(store.read_data_file(b"b.txt").unwrap(), b"2".to_vec());
    assert_eq!(store.list_data_files().len(), 1);
}

#[test]
fn read_binary_encodes_with_base64() {
    let mut store = FileStore::new();
    store.write_data_file(b"blob.bin", b"hi".to_vec());
    assert_eq!(store.read_data_file_binary(b"blob.bin").unwrap(), "aGk=".to_string());
}

#[test]
fn read_binary_padding_follows_content_length() {
    let mut store = FileStore::new();
    store.write_data_file(b"one.bin", b"M".to_vec());
    store.write_data_file(b"three.bin", b"Man".to_vec());
    store.write_data_file(b"four.bin", b"Mani".to_vec());
    assert_eq!(store.read_data_file_binary(b"one.bin").unwrap(), "TQ==".to_string());
    assert_eq!(store.read_data_file_binary(b"three.bin").unwrap(), "TWFu".to_string());
    assert_eq!(store.read_data_file_binary(b"four.bin").unwrap(), "TWFuaQ==".to_string());
}

#[test]
fn read_binary_of_empty_file_is_empty() {
    let mut store = FileStore::new();
    store.write_data_file(b"empty.bin", Vec::new());
    assert_eq!(store.read_data_file_binary(b"empty.bin").unwrap(), String::new());
}

#[test]
fn read_binary_missing_file_is_an_error() {
    let store = FileStore::new();
    assert_eq!(store.read_data_file_binary(b"absent.bin"), Err(StoreError::MissingFile));
}
