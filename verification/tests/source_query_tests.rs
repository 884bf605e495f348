use omni_ingest::query::render_rows;
use omni_ingest::source::{source_kind, SourceKind};

#[test]
fn absolute_url_is_remote() {
    assert_eq!(source_kind("https://example.com/omni_min2024.asc"), SourceKind::Remote);
    assert_eq!(source_kind("http://localhost:8000/data.txt"), SourceKind::Remote);
}

#[test]
fn path_is_local() {
    assert_eq!(source_kind("data/omni_min2024.asc"), SourceKind::Local);
    assert_eq!(source_kind("/var/data/omni.asc"), SourceKind::Local);
    assert_eq!(source_kind("omni.asc"), SourceKind::Local);
    assert_eq!(source_kind(""), SourceKind::Local);
}

#[test]
fn kind_follows_the_url_check() {
    assert_eq!(SourceKind::from_url_check(true), SourceKind::Remote);
    assert_eq!(SourceKind::from_url_check(false), SourceKind::Local);
}

#[test]
fn empty_result_renders_nothing() {
    assert_eq!(render_rows(0, "[]".to_string()), None);
}

#[test]
fn rows_render_as_the_document() {
    let doc = "[\n  {\n    \"day\": 15\n  }\n]".to_string();
    assert_eq!(render_rows(1, doc.clone()), Some(doc.clone()));
    assert_eq!(render_rows(7, doc.clone()), Some(doc));
}
