use docvec::chunker::{assign_identities, jsonl_line, TextChunk, TextChunker};
use docvec::error::AppError;

// md5("abc") = 900150983cd24fb0d6963f7d28e17f72

#[test]
fn test_assign_identities_drops_blanks_and_renumbers() {
    let chunks = vec![
        "hello".to_string(),
        " \n\t ".to_string(),
        "world".to_string(),
    ];
    let records = assign_identities("abc", &chunks);
    assert_eq!(records.len(), 2);
    assert_eq!(records[0].id, "900150983cd24fb0d6963f7d28e17f72-0");
    assert_eq!(records[0].text, "hello");
    assert_eq!(records[0].source, "abc");
    assert_eq!(records[1].id, "900150983cd24fb0d6963f7d28e17f72-1");
    assert_eq!(records[1].text, "world");
}

#[test]
fn test_assign_identities_same_path_same_prefix() {
    let a = assign_identities("abc", &vec!["x".to_string()]);
    let b = assign_identities("abc", &vec!["y".to_string()]);
    assert_eq!(a[0].id, b[0].id);
    let c = assign_identities("abd", &vec!["x".to_string()]);
    assert_ne!(a[0].id, c[0].id);
}

#[test]
fn test_jsonl_line_escapes() {
    let chunk = TextChunk {
        id: "a-0".to_string(),
        text: "say \"hi\"\nback\\slash\ttab".to_string(),
        source: "docs/a.md".to_string(),
    };
    let line = jsonl_line(&chunk);
    assert_eq!(
        line,
        "{\"id\":\"a-0\",\"text\":\"say \\\"hi\\\"\\nback\\\\slash\\ttab\",\"source\":\"docs/a.md\"}"
    );
}

#[test]
fn test_jsonl_line_control_characters() {
    let chunk = TextChunk {
        id: "i".to_string(),
        text: "a\u{1}b".to_string(),
        source: "s".to_string(),
    };
    let line = jsonl_line(&chunk);
    assert_eq!(line, "{\"id\":\"i\",\"text\":\"a\\u0001b\",\"source\":\"s\"}");
}

#[test]
fn test_save() {
    let tc = TextChunker::new(
        "/Users/fyyx/Documents/laravel-comments-documentation".to_string(),
        400,
        20,
    );
    // the library's share of a run: deriving the record file path and
    // turning content into records; walking the directory and writing the
    // file stay with the caller
    assert_eq!(
        tc.output_file(),
        "artifacts/chunks/laravel-comments-documentation_chunks_SZ_400_O_20.jsonl"
    );
    let records = tc.process_content(
        "/Users/fyyx/Documents/laravel-comments-documentation/a.md",
        "Some documentation text.",
    );
    assert!(records.is_ok());
}

#[test]
fn test_chunker_output_path() {
    let tc = TextChunker::new("/home/me/laravel.docs".to_string(), 400, 20);
    assert_eq!(
        tc.output_file(),
        "artifacts/chunks/laravel-docs_chunks_SZ_400_O_20.jsonl"
    );
    assert_eq!(tc.input_dir(), "/home/me/laravel.docs");
}

#[test]
fn test_chunker_output_path_ignores_trailing_slash() {
    let tc = TextChunker::new("/home/me/laravel.docs/".to_string(), 400, 20);
    assert_eq!(
        tc.output_file(),
        "artifacts/chunks/laravel-docs_chunks_SZ_400_O_20.jsonl"
    );
}

#[test]
fn test_unicode_whitespace_chunk_is_blank() {
    // a no-break-space chunk trims to nothing and is dropped
    let chunks = vec!["kept".to_string(), "\u{a0}\u{2003}".to_string()];
    let records = assign_identities("abc", &chunks);
    assert_eq!(records.len(), 1);
    assert_eq!(records[0].text, "kept");
}

#[test]
fn test_process_content_small_document() {
    let tc = TextChunker::new("docs".to_string(), 100, 0);
    let records = tc.process_content("docs/a.md", "A short document.").unwrap();
    assert_eq!(records.len(), 1);
    assert_eq!(records[0].text, "A short document.");
    assert_eq!(records[0].source, "docs/a.md");
    assert!(records[0].id.ends_with("-0"));
}

#[test]
fn test_process_content_rejects_bad_config() {
    let tc = TextChunker::new("docs".to_string(), 10, 10);
    let r = tc.process_content("docs/a.md", "whatever");
    assert_eq!(r.unwrap_err(), AppError::SegmentationConfig);
}

#[test]
fn test_process_content_blank_document_yields_no_records() {
    let tc = TextChunker::new("docs".to_string(), 100, 0);
    let records = tc.process_content("docs/a.md", " \n \t ").unwrap();
    assert_eq!(records.len(), 0);
}
