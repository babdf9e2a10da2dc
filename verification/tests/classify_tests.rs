use paper_store::classify::classify;
use paper_store::classify::AssetClass;

#[test]
fn rejects_http_url() {
    assert_eq!(classify(b"http://x/y.png"), AssetClass::AbsoluteUrl);
}

#[test]
fn rejects_https_url() {
    assert_eq!(classify(b"https://x/y.png"), AssetClass::AbsoluteUrl);
}

#[test]
fn rejects_data_uri() {
    assert_eq!(classify(b"data:image/png;base64,AAA"), AssetClass::DataUri);
}

#[test]
fn rejects_blob_uri() {
    assert_eq!(classify(b"blob:abc"), AssetClass::BlobUri);
}

#[test]
fn rejects_file_uri() {
    assert_eq!(classify(b"file:///x"), AssetClass::FileUri);
}

#[test]
fn rejects_absolute_path() {
    assert_eq!(classify(b"/abs/path.png"), AssetClass::AbsolutePath);
}

#[test]
fn accepts_relative_subpath() {
    assert_eq!(classify(b"images/fig1.png"), AssetClass::RelativePath);
}

#[test]
fn accepts_plain_filename() {
    assert_eq!(classify(b"fig1.png"), AssetClass::RelativePath);
}

#[test]
fn rejects_empty_value() {
    assert_eq!(classify(b""), AssetClass::Empty);
    assert_eq!(classify(b"   "), AssetClass::Empty);
}

#[test]
fn trims_before_classifying() {
    assert_eq!(classify(b"  fig1.png \n"), AssetClass::RelativePath);
    assert_eq!(classify(b"  http://x "), AssetClass::AbsoluteUrl);
}

#[test]
fn prefix_match_is_case_sensitive() {
    assert_eq!(classify(b"HTTP://x"), AssetClass::RelativePath);
}

#[test]
fn scheme_prefix_alone_is_enough() {
    assert_eq!(classify(b"file:x"), AssetClass::FileUri);
    assert_eq!(classify(b"data:"), AssetClass::DataUri);
}

#[test]
fn scheme_needs_its_whole_prefix() {
    assert_eq!(classify(b"http:/x"), AssetClass::RelativePath);
    assert_eq!(classify(b"dat:x"), AssetClass::RelativePath);
}
