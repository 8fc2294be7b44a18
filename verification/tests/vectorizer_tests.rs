use docvec::error::AppError;
use docvec::vectorizer::{
    batch_pairs, documents_from_rows, Metric, SqliteVector, VectorParams,
};

#[test]
fn test_metric_names() {
    assert_eq!(Metric::Cosine.as_str(), "cosine");
    assert_eq!(Metric::Dot.as_str(), "dot");
    assert_eq!(Metric::Euclidean.as_str(), "euclidean");
}

#[test]
fn test_vector_params_builder() {
    let p = VectorParams::new(384).with_metric(Metric::Euclidean);
    assert_eq!(p.dimension(), 384);
    assert_eq!(p.metric().as_str(), "euclidean");
    assert_eq!(VectorParams::new(3).metric().as_str(), "cosine");
}

#[test]
fn test_generate_batch_sql() {
    let sql = SqliteVector::generate_batch_sql("insert into t (embedding) values ", 3, "(?)");
    assert_eq!(sql, "insert into t (embedding) values (?),(?),(?)");
    let one = SqliteVector::generate_batch_sql("insert into m (id, metadata) values ", 1, "(?, ?)");
    assert_eq!(one, "insert into m (id, metadata) values (?, ?)");
}

#[test]
fn test_batch_pairs_assign_contiguous_ids() {
    // seven texts in batches of three get ids 1..=7 with no gaps or
    // duplicates, in input order
    let texts = vec!["a", "b", "c", "d", "e", "f", "g"];
    let mut ids = Vec::new();
    let mut start = 0usize;
    while start < texts.len() {
        let len = (texts.len() - start).min(3);
        let pairs = batch_pairs(&texts, start, len);
        assert_eq!(pairs.len(), len);
        for (j, (id, text)) in pairs.iter().enumerate() {
            assert_eq!(*id, (start + j + 1) as i64);
            assert_eq!(text, texts[start + j]);
            ids.push(*id);
        }
        start += len;
    }
    assert_eq!(ids, vec![1, 2, 3, 4, 5, 6, 7]);
}

#[test]
fn test_documents_from_rows_filters_silently() {
    let rows = vec![
        (1i64, Some("{\"text\":\"first doc\"}".to_string())),
        (2i64, None),
        (3i64, Some("not json at all".to_string())),
        (4i64, Some("{\"other\":\"field\"}".to_string())),
        (5i64, Some("{\"text\":\"second doc\",\"extra\":7}".to_string())),
        (6i64, Some("{\"text\":42}".to_string())),
    ];
    let docs = documents_from_rows(&rows);
    assert_eq!(docs, vec!["first doc", "second doc"]);
}

#[test]
fn test_stored_record_round_trips_through_retrieval() {
    // a persisted chunk record, stored verbatim as row metadata, yields its
    // text back at query time — the emitter's escaping and the JSON parsing
    // at retrieval agree
    let chunk = docvec::chunker::TextChunk {
        id: "p-0".to_string(),
        text: "a \"quoted\"\nline with a \\ and a\ttab".to_string(),
        source: "docs/p.md".to_string(),
    };
    let line = docvec::chunker::jsonl_line(&chunk);
    let rows = vec![(1i64, Some(line))];
    let docs = documents_from_rows(&rows);
    assert_eq!(docs, vec![chunk.text]);
}

#[test]
fn test_documents_from_zero_rows_is_empty_not_error() {
    let rows: Vec<(i64, Option<String>)> = Vec::new();
    let docs = documents_from_rows(&rows);
    assert!(docs.is_empty());
}

#[test]
fn test_sqlite_metadata_tables() {
    let store = SqliteVector::new(":memory:").unwrap();
    assert!(store.set_metadata("docs").is_ok());
    // creating it again is fine: IF NOT EXISTS
    assert!(store.set_metadata("docs").is_ok());
    assert!(store.drop_collection("docs").is_ok());
}

#[test]
fn test_vector_table_needs_extension() {
    // without the sqlite-vec extension registered for the process, creating
    // a vec0 virtual table surfaces as a storage error
    let store = SqliteVector::new(":memory:").unwrap();
    let r = store.create_vector_collection("docs", VectorParams::new(3));
    assert_eq!(r.unwrap_err(), AppError::Storage);
}
