use paper_store::store::FileStore;
use paper_store::store::StoreError;

fn source_tree(entries: &[(&[u8], &[u8])]) -> FileStore {
    let mut fs = FileStore::new();
    for (name, content) in entries {
        fs.write_data_file(name, content.to_vec());
    }
    fs
}

#[test]
fn copy_file_flattens_to_basename() {
    let source = source_tree(&[(b"/docs/paper.pdf", b"%PDF")]);
    let mut store = FileStore::new();
    let stored = store.copy_file_to_data(&source, b"/docs/paper.pdf").unwrap();
    assert_eq!(stored, b"paper.pdf".to_vec());
    assert_eq!(store.read_data_file(b"paper.pdf").unwrap(), b"%PDF".to_vec());
    assert!(!store.check_data_file_exists(b"/docs/paper.pdf"));
}

#[test]
fn copy_file_missing_source_is_an_error() {
    let source = source_tree(&[]);
    let mut store = FileStore::new();
    assert_eq!(
        store.copy_file_to_data(&source, b"/docs/none.pdf"),
        Err(StoreError::SourceMissing)
    );
    assert_eq!(store.list_data_files().len(), 0);
}

#[test]
fn copy_file_without_basename_is_an_error() {
    let source = source_tree(&[(b"/docs/", b"odd")]);
    let mut store = FileStore::new();
    assert_eq!(store.copy_file_to_data(&source, b"/docs/"), Err(StoreError::InvalidName));
}

#[test]
fn ingest_copies_document_and_sibling_image() {
    let html: &[u8] = b"<html><body><img src=\"images/fig1.png\"></body></html>";
    let png: &[u8] = b"\x89PNG-bytes";
    let source = source_tree(&[(b"/docs/paper.html", html), (b"/docs/images/fig1.png", png)]);
    let mut store = FileStore::new();
    let stored = store.copy_html_with_images(&source, b"/docs/paper.html").unwrap();
    assert_eq!(stored, b"paper.html".to_vec());
    assert_eq!(store.read_data_file(b"paper.html").unwrap(), html.to_vec());
    assert_eq!(store.read_data_file(b"images/fig1.png").unwrap(), png.to_vec());
}

#[test]
fn ingest_skips_external_url_without_error() {
    let html: &[u8] = b"<img src=\"https://example.com/fig.png\">";
    let source = source_tree(&[(b"/docs/paper.html", html)]);
    let mut store = FileStore::new();
    let stored = store.copy_html_with_images(&source, b"/docs/paper.html").unwrap();
    assert_eq!(stored, b"paper.html".to_vec());
    assert_eq!(store.list_data_files().len(), 1);
}

#[test]
fn ingest_skips_missing_sibling_silently() {
    let html: &[u8] = b"<img src=\"missing.png\">";
    let source = source_tree(&[(b"/docs/paper.html", html)]);
    let mut store = FileStore::new();
    let stored = store.copy_html_with_images(&source, b"/docs/paper.html").unwrap();
    assert_eq!(stored, b"paper.html".to_vec());
    assert_eq!(store.list_data_files().len(), 1);
}

#[test]
fn ingest_misses_attribute_beyond_lookahead_window() {
    let mut html: Vec<u8> = b"<img ".to_vec();
    html.extend(std::iter::repeat(b'x').take(1100));
    html.extend_from_slice(b" src=\"fig1.png\">");
    let source = source_tree(&[
        (b"/docs/paper.html", html.as_slice()),
        (b"/docs/fig1.png", b"png"),
    ]);
    let mut store = FileStore::new();
    let stored = store.copy_html_with_images(&source, b"/docs/paper.html").unwrap();
    assert_eq!(stored, b"paper.html".to_vec());
    assert!(!store.check_data_file_exists(b"fig1.png"));
}

#[test]
fn ingest_decodes_percent_escapes_in_references() {
    let html: &[u8] = b"<img src=\"fig%201.png\">";
    let source = source_tree(&[(b"/docs/paper.html", html), (b"/docs/fig 1.png", b"png")]);
    let mut store = FileStore::new();
    store.copy_html_with_images(&source, b"/docs/paper.html").unwrap();
    assert_eq!(store.read_data_file(b"fig 1.png").unwrap(), b"png".to_vec());
}

#[test]
fn ingest_handles_single_quotes_and_uppercase_tags() {
    let html: &[u8] = b"<IMG SRC='a.png'> <Img sRc=\"b.png\">";
    let source = source_tree(&[
        (b"/docs/paper.html", html),
        (b"/docs/a.png", b"A"),
        (b"/docs/b.png", b"B"),
    ]);
    let mut store = FileStore::new();
    store.copy_html_with_images(&source, b"/docs/paper.html").unwrap();
    assert_eq!(store.read_data_file(b"a.png").unwrap(), b"A".to_vec());
    assert_eq!(store.read_data_file(b"b.png").unwrap(), b"B".to_vec());
}

#[test]
fn ingest_without_parent_directory_resolves_beside_document() {
    let html: &[u8] = b"<img src=\"pic.png\">";
    let source = source_tree(&[(b"paper.html", html), (b"pic.png", b"P")]);
    let mut store = FileStore::new();
    let stored = store.copy_html_with_images(&source, b"paper.html").unwrap();
    assert_eq!(stored, b"paper.html".to_vec());
    assert_eq!(store.read_data_file(b"pic.png").unwrap(), b"P".to_vec());
}

#[test]
fn ingest_missing_source_is_an_error() {
    let source = source_tree(&[]);
    let mut store = FileStore::new();
    assert_eq!(
        store.copy_html_with_images(&source, b"/docs/none.html"),
        Err(StoreError::SourceMissing)
    );
}

#[test]
fn ingest_tag_without_src_is_skipped() {
    let html: &[u8] = b"<img alt=\"no source here\"> text";
    let source = source_tree(&[(b"/docs/paper.html", html)]);
    let mut store = FileStore::new();
    let stored = store.copy_html_with_images(&source, b"/docs/paper.html").unwrap();
    assert_eq!(stored, b"paper.html".to_vec());
    assert_eq!(store.list_data_files().len(), 1);
}
