//! Embedding persistence and similarity retrieval over a sqlite-vec store.
//!
//! Texts are embedded in fixed-size batches; each batch's vectors and its
//! (id, text) metadata are committed in one transaction, with globally
//! contiguous one-based ids, so batches persist independently without
//! coordination. Retrieval embeds a query, asks the store for the nearest
//! rows and keeps the rows whose metadata holds a text payload.
//!
//! The numeric content of an embedding is opaque here: the store keeps it,
//! the model produces it, and the library never reads it.

use vstd::prelude::*;

use rusqlite::types::Value;

use crate::error::{AppError, CommitStage};
use crate::strutil::{chars_to_string, push_str_chars, str_views, usize_to_chars};

verus! {

/// Metric for vector similarity.
#[derive(Debug, Clone, Copy)]
pub enum Metric {
    Cosine,
    Dot,
    Euclidean,
}

impl Metric {
    /// The metric's configuration name.
    pub fn as_str(&self) -> (r: &'static str)
        ensures
            *self is Cosine ==> r@ == "cosine"@,
            *self is Dot ==> r@ == "dot"@,
            *self is Euclidean ==> r@ == "euclidean"@,
    {
        match self {
            Metric::Cosine => "cosine",
            Metric::Dot => "dot",
            Metric::Euclidean => "euclidean",
        }
    }
}

/// Parameters of a vector collection: the vector dimension and the metric.
pub struct VectorParams {
    dimension: u32,
    metric: Metric,
}

impl VectorParams {
    /// The configured dimension.
    pub closed spec fn spec_dimension(&self) -> u32 {
        self.dimension
    }

    /// The configured metric.
    pub closed spec fn spec_metric(&self) -> Metric {
        self.metric
    }

    /// Parameters with the given dimension and the cosine metric.
    pub fn new(dimension: u32) -> (r: Self)
        ensures
            r.spec_dimension() == dimension,
            r.spec_metric() is Cosine,
    {
        Self { dimension, metric: Metric::Cosine }
    }

    /// The same parameters with another metric.
    pub fn with_metric(self, metric: Metric) -> (r: Self)
        ensures
            r.spec_dimension() == self.spec_dimension(),
            r.spec_metric() == metric,
    {
        Self { dimension: self.dimension, metric }
    }

    /// The dimension the parameters carry.
    pub fn dimension(&self) -> (r: u32)
        ensures
            r == self.spec_dimension(),
    {
        self.dimension
    }

    /// The metric the parameters carry.
    pub fn metric(&self) -> (r: Metric)
        ensures
            r == self.spec_metric(),
    {
        self.metric
    }
}

#[verifier::external_type_specification]
#[verifier::external_body]
pub struct ExConnection(rusqlite::Connection);

#[verifier::external_type_specification]
#[verifier::external_body]
pub struct ExRusqliteError(rusqlite::Error);

#[verifier::external_type_specification]
#[verifier::external_body]
pub struct ExTextEmbedding(fastembed::TextEmbedding);

#[verifier::external_type_specification]
#[verifier::external_body]
pub struct ExFastembedError(fastembed::Error);

/// Embedding vectors as the model hands them out, carried opaquely: the
/// library tracks only how many vectors a batch holds.
#[verifier::external_body]
pub struct EmbeddingBatch {
    vecs: Vec<fastembed::Embedding>,
}

/// How many vectors a batch holds.
pub uninterp spec fn emb_count(b: EmbeddingBatch) -> nat;

impl EmbeddingBatch {
    /// Relies on `Vec::len` of the wrapped vector list.
    #[verifier::external_body]
    pub(crate) fn count(&self) -> (r: usize)
        ensures
            r == emb_count(*self),
    {
        self.vecs.len()
    }
}

/// Relies on fastembed's `TextEmbedding::embed`: embeds each text of the
/// batch with the loaded model.
#[verifier::external_body]
fn embed_texts(model: &mut fastembed::TextEmbedding, texts: &Vec<String>) -> (r: Result<
    EmbeddingBatch,
    fastembed::Error,
>)
{
    match model.embed(texts.as_slice(), None) {
        Ok(vecs) => Ok(EmbeddingBatch { vecs }),
        Err(e) => Err(e),
    }
}

/// Relies on fastembed's `TextEmbedding::try_new`: loads the AllMiniLML6V2
/// text embedding model from the local cache, fetching it there first when
/// it is absent.
#[verifier::external_body]
fn load_model() -> (r: Result<fastembed::TextEmbedding, fastembed::Error>)
{
    fastembed::TextEmbedding::try_new(
        fastembed::TextInitOptions::new(fastembed::EmbeddingModel::AllMiniLML6V2)
            .with_cache_dir("~/.fastembed_cache".into())
            .with_show_download_progress(true),
    )
}

/// `fmt` repeated `n` times, comma-separated.
pub open spec fn repeat_with_commas(fmt: Seq<char>, n: nat) -> Seq<char>
    decreases n,
{
    if n == 0 {
        Seq::empty()
    } else if n == 1 {
        fmt
    } else {
        repeat_with_commas(fmt, (n - 1) as nat) + seq![','] + fmt
    }
}

/// The statement that creates a collection's vector table.
pub open spec fn create_table_sql_of(coll: Seq<char>, dim: nat) -> Seq<char> {
    "CREATE VIRTUAL TABLE IF NOT EXISTS "@ + coll + " USING vec0(embedding FLOAT["@
        + crate::strutil::dec_str(dim) + "])"@
}

/// The statement that creates a collection's metadata side table.
pub open spec fn metadata_table_sql_of(coll: Seq<char>) -> Seq<char> {
    "CREATE TABLE IF NOT EXISTS "@ + coll + "_metadata (id INTEGER PRIMARY KEY, metadata BLOB)"@
}

/// The statement that drops one table.
pub open spec fn drop_sql_of(table: Seq<char>) -> Seq<char> {
    "DROP TABLE IF EXISTS "@ + table
}

/// The base of the batched embedding insert for a collection.
pub open spec fn insert_embeddings_base_of(coll: Seq<char>) -> Seq<char> {
    "insert into "@ + coll + " (embedding) values "@
}

/// The base of the batched metadata insert for a collection.
pub open spec fn insert_metadata_base_of(coll: Seq<char>) -> Seq<char> {
    "insert into "@ + coll + "_metadata (id, metadata) values "@
}

/// The similarity search over a collection joined with its metadata,
/// nearest first, limited to the requested row count.
pub open spec fn search_sql_of(coll: Seq<char>) -> Seq<char> {
    "SELECT v.rowid, m.metadata FROM "@ + coll + " v LEFT JOIN "@ + coll
        + "_metadata m ON v.rowid = m.id WHERE v.embedding MATCH ?1 AND k=?2 ORDER BY distance LIMIT ?2"@
}

fn create_table_sql(coll: &str, dim: usize) -> (r: String)
    ensures
        r@ == create_table_sql_of(coll@, dim as nat),
{
    let mut out: Vec<char> = Vec::new();
    push_str_chars(&mut out, "CREATE VIRTUAL TABLE IF NOT EXISTS ");
    push_str_chars(&mut out, coll);
    push_str_chars(&mut out, " USING vec0(embedding FLOAT[");
    let mut digits = usize_to_chars(dim);
    out.append(&mut digits);
    push_str_chars(&mut out, "])");
    proof {
        assert(out@ =~= create_table_sql_of(coll@, dim as nat));
    }
    chars_to_string(&out)
}

fn metadata_table_sql(coll: &str) -> (r: String)
    ensures
        r@ == metadata_table_sql_of(coll@),
{
    let mut out: Vec<char> = Vec::new();
    push_str_chars(&mut out, "CREATE TABLE IF NOT EXISTS ");
    push_str_chars(&mut out, coll);
    push_str_chars(&mut out, "_metadata (id INTEGER PRIMARY KEY, metadata BLOB)");
    proof {
        assert(out@ =~= metadata_table_sql_of(coll@));
    }
    chars_to_string(&out)
}

fn drop_table_sql(coll: &str, meta: bool) -> (r: String)
    ensures
        !meta ==> r@ == drop_sql_of(coll@),
        meta ==> r@ == drop_sql_of(coll@ + "_metadata"@),
{
    let mut out: Vec<char> = Vec::new();
    push_str_chars(&mut out, "DROP TABLE IF EXISTS ");
    push_str_chars(&mut out, coll);
    if meta {
        push_str_chars(&mut out, "_metadata");
        proof {
            assert(out@ =~= drop_sql_of(coll@ + "_metadata"@));
        }
    } else {
        proof {
            assert(out@ =~= drop_sql_of(coll@));
        }
    }
    chars_to_string(&out)
}

fn insert_embeddings_sql(coll: &str, n: usize) -> (r: String)
    requires
        n >= 1,
    ensures
        r@ == insert_embeddings_base_of(coll@) + repeat_with_commas("(?)"@, n as nat),
{
    let mut base: Vec<char> = Vec::new();
    push_str_chars(&mut base, "insert into ");
    push_str_chars(&mut base, coll);
    push_str_chars(&mut base, " (embedding) values ");
    proof {
        assert(base@ =~= insert_embeddings_base_of(coll@));
    }
    let base_s = chars_to_string(&base);
    SqliteVector::generate_batch_sql(base_s.as_str(), n, "(?)")
}

fn insert_metadata_sql(coll: &str, n: usize) -> (r: String)
    requires
        n >= 1,
    ensures
        r@ == insert_metadata_base_of(coll@) + repeat_with_commas("(?, ?)"@, n as nat),
{
    let mut base: Vec<char> = Vec::new();
    push_str_chars(&mut base, "insert into ");
    push_str_chars(&mut base, coll);
    push_str_chars(&mut base, "_metadata (id, metadata) values ");
    proof {
        assert(base@ =~= insert_metadata_base_of(coll@));
    }
    let base_s = chars_to_string(&base);
    SqliteVector::generate_batch_sql(base_s.as_str(), n, "(?, ?)")
}

fn search_sql(coll: &str) -> (r: String)
    ensures
        r@ == search_sql_of(coll@),
{
    let mut out: Vec<char> = Vec::new();
    push_str_chars(&mut out, "SELECT v.rowid, m.metadata FROM ");
    push_str_chars(&mut out, coll);
    push_str_chars(&mut out, " v LEFT JOIN ");
    push_str_chars(&mut out, coll);
    push_str_chars(
        &mut out,
        "_metadata m ON v.rowid = m.id WHERE v.embedding MATCH ?1 AND k=?2 ORDER BY distance LIMIT ?2",
    );
    proof {
        assert(out@ =~= search_sql_of(coll@));
    }
    chars_to_string(&out)
}

/// A sqlite-backed vector store. One collection is one `vec0` virtual table
/// plus a metadata side table. Opening the store does not register the
/// sqlite-vec extension; a caller that needs vector tables registers it for
/// the process first.
pub struct SqliteVector {
    conn: rusqlite::Connection,
}

impl SqliteVector {
    /// Relies on rusqlite's `Connection::open` at the given path.
    #[verifier::external_body]
    fn open_connection(db_path: &str) -> (r: Result<rusqlite::Connection, rusqlite::Error>)
    {
        rusqlite::Connection::open(db_path)
    }

    /// Opens a store at `db_path`; an unopenable path surfaces as a
    /// construction error.
    pub fn new(db_path: &str) -> (r: Result<Self, AppError>)
        ensures
            r matches Err(e) ==> e == AppError::CacheConstruction,
    {
        match Self::open_connection(db_path) {
            Ok(conn) => Ok(Self { conn }),
            Err(_) => Err(AppError::CacheConstruction),
        }
    }

    /// Relies on rusqlite's `Connection::execute` with no parameters;
    /// returns whatever the statement's outcome was.
    #[verifier::external_body]
    fn execute(&self, sql: &str) -> (r: Result<usize, rusqlite::Error>)
    {
        self.conn.execute(sql, [])
    }

    /// Relies on rusqlite transactions (`transaction`, `execute`, `commit`):
    /// the embedding rows and the metadata rows land atomically, both or
    /// neither. The embedding parameters are each vector's raw bytes (via
    /// bytemuck); the metadata parameters alternate id and text.
    #[verifier::external_body]
    fn commit_batch(
        &mut self,
        emb_sql: &str,
        meta_sql: &str,
        embs: &EmbeddingBatch,
        metas: &Vec<(i64, String)>,
    ) -> (r: Result<(), rusqlite::Error>)
    {
        let tx = self.conn.transaction()?;
        let embp = embs.vecs.iter().map(|v| {
            let b: Vec<u8> = bytemuck::cast_slice(v.as_slice()).to_vec();
            Value::from(b)
        });
        tx.execute(emb_sql, rusqlite::params_from_iter(embp))?;
        let metp = metas.iter().flat_map(|(i, t)| [Value::from(*i), Value::from(t.clone())]);
        tx.execute(meta_sql, rusqlite::params_from_iter(metp))?;
        tx.commit()
    }

    /// Relies on rusqlite's `prepare` and `query_map`: hands back the
    /// (rowid, metadata) rows the statement yields, in statement order. The
    /// parameters are the first query vector's raw bytes and the row limit.
    #[verifier::external_body]
    fn query_rows(&self, sql: &str, embs: &EmbeddingBatch, limit: i64) -> (r: Result<
        Vec<(i64, Option<String>)>,
        rusqlite::Error,
    >)
        requires
            emb_count(*embs) >= 1,
    {
        let mut stmt = self.conn.prepare(sql)?;
        let bytes: Vec<u8> = bytemuck::cast_slice(embs.vecs[0].as_slice()).to_vec();
        let params = [rusqlite::types::Value::from(bytes), rusqlite::types::Value::from(limit)];
        let rows = stmt.query_map(rusqlite::params_from_iter(params), |row| {
            let id: i64 = row.get(0)?;
            let metadata: Option<String> = row.get(1)?;
            Ok((id, metadata))
        })?;
        let mut results = Vec::new();
        for row in rows {
            results.push(row?);
        }
        Ok(results)
    }

    /// A batched insert statement: the base statement followed by
    /// `items_len` copies of the per-row value template, comma-separated.
    pub fn generate_batch_sql(base_sql: &str, items_len: usize, value_format: &str) -> (r: String)
        requires
            items_len >= 1,
        ensures
            r@ == base_sql@ + repeat_with_commas(value_format@, items_len as nat),
    {
        let mut out: Vec<char> = Vec::new();
        push_str_chars(&mut out, base_sql);
        let mut j: usize = 0;
        while j < items_len
            invariant
                j <= items_len,
                out@ == base_sql@ + repeat_with_commas(value_format@, j as nat),
            decreases items_len - j,
        {
            if j > 0 {
                out.push(',');
            }
            push_str_chars(&mut out, value_format);
            proof {
                if j == 0 {
                    assert(base_sql@ + Seq::<char>::empty() + value_format@ =~= base_sql@
                        + repeat_with_commas(value_format@, 1));
                } else {
                    assert(base_sql@ + repeat_with_commas(value_format@, j as nat) + seq![',']
                        + value_format@ =~= base_sql@ + (repeat_with_commas(
                        value_format@,
                        j as nat,
                    ) + seq![','] + value_format@));
                    assert(out@ =~= base_sql@ + repeat_with_commas(
                        value_format@,
                        (j + 1) as nat,
                    ));
                }
            }
            j += 1;
        }
        chars_to_string(&out)
    }

    /// Runs the similarity search over a collection with the first vector of
    /// `embs` as the query, nearest first, at most `limit` rows; any storage
    /// failure surfaces as a storage error.
    pub fn search(&self, collection: &str, embs: &EmbeddingBatch, limit: u32) -> (r: Result<
        Vec<(i64, Option<String>)>,
        AppError,
    >)
        requires
            emb_count(*embs) >= 1,
        ensures
            r matches Err(e) ==> e == AppError::Storage,
    {
        let sql = search_sql(collection);
        match self.query_rows(sql.as_str(), embs, limit as i64) {
            Ok(rows) => Ok(rows),
            Err(_) => Err(AppError::Storage),
        }
    }

    /// Creates the collection's vector table for the given parameters, and
    /// its metadata side table; any storage failure surfaces as a storage
    /// error.
    pub fn create_vector_collection(&self, name: &str, params: VectorParams) -> (r: Result<
        (),
        AppError,
    >)
        ensures
            r matches Err(e) ==> e == AppError::Storage,
    {
        let sql = create_table_sql(name, params.dimension as usize);
        match self.execute(sql.as_str()) {
            Ok(_) => {},
            Err(_) => {
                return Err(AppError::Storage);
            },
        }
        self.set_metadata(name)
    }

    /// Creates the collection's metadata side table when it is absent.
    pub fn set_metadata(&self, collection: &str) -> (r: Result<(), AppError>)
        ensures
            r matches Err(e) ==> e == AppError::Storage,
    {
        let sql = metadata_table_sql(collection);
        match self.execute(sql.as_str()) {
            Ok(_) => Ok(()),
            Err(_) => Err(AppError::Storage),
        }
    }

    /// Drops a collection's two tables.
    pub fn drop_collection(&self, collection: &str) -> (r: Result<(), AppError>)
        ensures
            r matches Err(e) ==> e == AppError::Storage,
    {
        let main_sql = drop_table_sql(collection, false);
        match self.execute(main_sql.as_str()) {
            Ok(_) => {},
            Err(_) => {
                return Err(AppError::Storage);
            },
        }
        let meta_sql = drop_table_sql(collection, true);
        match self.execute(meta_sql.as_str()) {
            Ok(_) => Ok(()),
            Err(_) => Err(AppError::Storage),
        }
    }
}

/// How many texts go into one persisted batch.
pub const BATCH_SIZE: usize = 500;

/// The texts of one batch: exactly the slice of `texts` that starts at
/// `start`, copied in order.
fn batch_slice(texts: &Vec<&str>, start: usize, len: usize) -> (r: Vec<String>)
    requires
        start + len <= texts@.len(),
    ensures
        r@.len() == len,
        forall|j: int| 0 <= j < len ==> (#[trigger] r@[j])@ == texts@[start + j]@,
{
    let mut r: Vec<String> = Vec::new();
    let mut j: usize = 0;
    let n = texts.len();
    while j < len
        invariant
            j <= len,
            n == texts@.len(),
            start + len <= n,
            r@.len() == j,
            forall|m: int| 0 <= m < j ==> (#[trigger] r@[m])@ == texts@[start + m]@,
        decreases len - j,
    {
        r.push(texts[start + j].to_owned());
        j += 1;
    }
    r
}

/// Accepts an embedding batch only when it holds one vector per text of the
/// batch; anything else is the embedding failure.
fn expect_count(embs: &EmbeddingBatch, expected: usize) -> (r: Result<(), AppError>)
    ensures
        r is Ok <==> emb_count(*embs) == expected,
        r matches Err(e) ==> e == AppError::EmbeddingFailure,
{
    if embs.count() == expected {
        Ok(())
    } else {
        Err(AppError::EmbeddingFailure)
    }
}

/// The (global id, text) pairs of one batch: the text at global position
/// `start + j` gets id `start + j + 1`, so ids are one-based and contiguous
/// across consecutive batches.
pub fn batch_pairs(texts: &Vec<&str>, start: usize, len: usize) -> (r: Vec<(i64, String)>)
    requires
        start + len <= texts@.len(),
        start + len <= i64::MAX,
    ensures
        r@.len() == len,
        forall|j: int|
            0 <= j < len ==> (#[trigger] r@[j]).0 == start + j + 1 && r@[j].1@ == texts@[start
                + j]@,
{
    let mut r: Vec<(i64, String)> = Vec::new();
    let mut j: usize = 0;
    let n = texts.len();
    while j < len
        invariant
            j <= len,
            n == texts@.len(),
            start + len <= n,
            start + len <= i64::MAX,
            r@.len() == j,
            forall|m: int|
                0 <= m < j ==> (#[trigger] r@[m]).0 == start + m + 1 && r@[m].1@ == texts@[start
                    + m]@,
        decreases len - j,
    {
        let id = (start + j + 1) as i64;
        let text = texts[start + j].to_owned();
        r.push((id, text));
        j += 1;
    }
    r
}

/// Law: splitting `m` texts into batches of size `b` and giving the text at
/// position `j` of batch `q` the id `q * b + j + 1` assigns exactly the ids
/// `1 ..= m`, in order and without gaps or duplicates: position `i` always
/// gets id `i + 1`.
pub proof fn lemma_global_ids_contiguous(i: nat, b: nat)
    requires
        b >= 1,
    ensures
        (i / b) * b + (i % b) + 1 == i + 1,
{
    vstd::arithmetic::div_mod::lemma_fundamental_div_mod(i as int, b as int);
    vstd::arithmetic::mul::lemma_mul_is_commutative(b as int, i as int / b as int);
}

/// The `text` field of a metadata payload, when the payload parses as JSON
/// and the field is a string; a function of the payload text alone.
pub uninterp spec fn text_field_of(s: Seq<char>) -> Option<Seq<char>>;

/// Relies on serde_json (`from_str`, `Value::get`, `Value::as_str`): parses
/// the payload as JSON and extracts its `text` field when it is a string.
#[verifier::external_body]
fn parse_text_field(s: &str) -> (r: Option<String>)
    ensures
        match r {
            Some(t) => text_field_of(s@) == Some(t@),
            None => text_field_of(s@) is None,
        },
{
    match serde_json::from_str::<serde_json::Value>(s) {
        Ok(v) => match v.get("text").and_then(|t| t.as_str()) {
            Some(t) => Some(t.to_string()),
            None => None,
        },
        Err(_) => None,
    }
}

/// The rows as (id, payload characters) pairs.
pub open spec fn row_views(rows: Seq<(i64, Option<String>)>) -> Seq<(i64, Option<Seq<char>>)> {
    rows.map_values(
        |r: (i64, Option<String>)|
            (
                r.0,
                match r.1 {
                    Some(s) => Some(s@),
                    None => None,
                },
            ),
    )
}

/// The documents a row list yields, in row order: each row whose payload is
/// present and holds a text field contributes that text; every other row is
/// dropped.
pub open spec fn docs_of(rows: Seq<(i64, Option<Seq<char>>)>) -> Seq<Seq<char>>
    decreases rows.len(),
{
    if rows.len() == 0 {
        Seq::empty()
    } else {
        let rest = docs_of(rows.drop_last());
        match rows.last().1 {
            Some(md) => match text_field_of(md) {
                Some(t) => rest.push(t),
                None => rest,
            },
            None => rest,
        }
    }
}

/// Extracts the stored documents from search rows. Rows with missing or
/// malformed metadata, or without a text field, are silently dropped, not
/// errors; a row list that is empty, or empties out, yields the empty
/// document list.
pub fn documents_from_rows(rows: &Vec<(i64, Option<String>)>) -> (r: Vec<String>)
    ensures
        str_views(r@) == docs_of(row_views(rows@)),
        rows@.len() == 0 ==> r@.len() == 0,
{
    let mut r: Vec<String> = Vec::new();
    let mut i: usize = 0;
    let n = rows.len();
    while i < n
        invariant
            i <= n,
            n == rows@.len(),
            str_views(r@) == docs_of(row_views(rows@).take(i as int)),
        decreases n - i,
    {
        proof {
            let pre = row_views(rows@).take((i + 1) as int);
            assert(pre.drop_last() =~= row_views(rows@).take(i as int));
            assert(pre.last() == row_views(rows@)[i as int]);
        }
        match &rows[i].1 {
            Some(payload) => {
                match parse_text_field(payload.as_str()) {
                    Some(t) => {
                        let ghost old_r = r@;
                        r.push(t);
                        proof {
                            assert(str_views(r@) =~= str_views(old_r).push(r@[r@.len() - 1]@));
                        }
                    },
                    None => {},
                }
            },
            None => {},
        }
        i += 1;
    }
    proof {
        assert(row_views(rows@).take(n as int) =~= row_views(rows@));
    }
    r
}

/// Queries a named collection through the cache: the handle is looked up,
/// or built on a first access; the query is embedded with the given model;
/// and the nearest stored texts come back, rows without a text payload
/// silently dropped. Zero stored rows yield an empty list, not an error.
pub fn query_cached(
    cache: &crate::cache::CollectionCache,
    db_path: &str,
    name: &str,
    dimension: usize,
    model: &mut fastembed::TextEmbedding,
    text: &str,
    top_k: Option<usize>,
) -> (r: Result<Vec<String>, AppError>)
    ensures
        r matches Err(e) ==> e == AppError::CacheConstruction || e == AppError::EmbeddingFailure
            || e == AppError::Storage,
{
    let handle = match cache.get_or_create(name, db_path, dimension) {
        Ok(h) => h,
        Err(e) => {
            return Err(e);
        },
    };
    let lim: usize = match top_k {
        Some(l) => l,
        None => 20,
    };
    let lim32: u32 = #[verifier::truncate] (lim as u32);
    let mut q: Vec<String> = Vec::new();
    q.push(text.to_owned());
    let embs = match embed_texts(model, &q) {
        Ok(b) => b,
        Err(_) => {
            return Err(AppError::EmbeddingFailure);
        },
    };
    if embs.count() == 0 {
        return Err(AppError::EmbeddingFailure);
    }
    let rows = match handle.store.search(name, &embs, lim32) {
        Ok(rows) => rows,
        Err(e) => {
            return Err(e);
        },
    };
    Ok(documents_from_rows(&rows))
}

/// The documents of the search behind one query: what `documents_from_rows`
/// keeps of the rows.
pub struct LaravelResult {
    /// The stored texts of the nearest matches, nearest first.
    pub documents: Vec<String>,
}

/// Embeds texts and persists or retrieves them against one collection of a
/// sqlite-vec store.
pub struct Vectorizer {
    store: SqliteVector,
    /// The collection (table) name this vectorizer works against.
    pub model_name: String,
    dimension: usize,
    model: fastembed::TextEmbedding,
}

impl Vectorizer {
    /// The configured vector dimension.
    pub closed spec fn spec_dimension(&self) -> nat {
        self.dimension as nat
    }

    /// The collection name, as characters.
    pub closed spec fn spec_model_name(&self) -> Seq<char> {
        self.model_name@
    }

    /// Loads the embedding model, opens the store at `db_path` and binds
    /// them to the collection `model_name`. A failure of either
    /// initialization surfaces as a construction error; nothing is cached,
    /// so the caller may retry.
    pub fn new(db_path: &str, model_name: &str, dimension: usize) -> (r: Result<Self, AppError>)
        ensures
            match r {
                Ok(v) => v.spec_model_name() == model_name@ && v.spec_dimension()
                    == dimension as nat,
                Err(e) => e == AppError::CacheConstruction,
            },
    {
        let model = match load_model() {
            Ok(m) => m,
            Err(_) => {
                return Err(AppError::CacheConstruction);
            },
        };
        let store = match SqliteVector::new(db_path) {
            Ok(s) => s,
            Err(_) => {
                return Err(AppError::CacheConstruction);
            },
        };
        Ok(Self { store, model_name: model_name.to_owned(), dimension, model })
    }

    /// Creates this collection's tables, with the configured dimension and
    /// the cosine metric.
    pub fn create_table(&self) -> (r: Result<(), AppError>)
        ensures
            r matches Err(e) ==> e == AppError::Storage,
    {
        let params = VectorParams::new(self.dimension as u32).with_metric(Metric::Cosine);
        self.store.create_vector_collection(self.model_name.as_str(), params)
    }

    /// Persists `texts` in batches of `BATCH_SIZE`, in order. Each batch is
    /// embedded in one call and committed — vectors and (id, text) metadata
    /// together — in one transaction; the text at global position `i` gets
    /// id `i + 1`. Batches already committed stay committed: a failure
    /// reports the failing batch's index and step so ingestion can resume
    /// there.
    pub fn store_docs(&mut self, texts: Vec<&str>) -> (r: Result<(), AppError>)
        requires
            texts@.len() <= i64::MAX,
        ensures
            texts@.len() == 0 ==> r is Ok,
            match r {
                Ok(()) => true,
                Err(e) => (e matches AppError::BatchCommit { index, stage: _ } && (index as int)
                    * (BATCH_SIZE as int) < texts@.len()) || e == AppError::EmbeddingFailure,
            },
    {
        let n = texts.len();
        let mut start: usize = 0;
        let mut batch_index: usize = 0;
        while start < n
            invariant
                start <= n,
                batch_index <= start,
                n == texts@.len(),
                n <= i64::MAX,
                start < n ==> start == batch_index * BATCH_SIZE,
            decreases n - start,
        {
            let len = if n - start < BATCH_SIZE {
                n - start
            } else {
                BATCH_SIZE
            };
            let batch = batch_slice(&texts, start, len);
            let embs = match embed_texts(&mut self.model, &batch) {
                Ok(b) => b,
                Err(_) => {
                    return Err(
                        AppError::BatchCommit { index: batch_index, stage: CommitStage::Embedding },
                    );
                },
            };
            match expect_count(&embs, len) {
                Ok(()) => {},
                Err(e) => {
                    // the model returned a malformed result: not one vector
                    // per text
                    return Err(e);
                },
            }
            let pairs = batch_pairs(&texts, start, len);
            let emb_sql = insert_embeddings_sql(self.model_name.as_str(), len);
            let meta_sql = insert_metadata_sql(self.model_name.as_str(), len);
            match self.store.commit_batch(
                emb_sql.as_str(),
                meta_sql.as_str(),
                &embs,
                &pairs,
            ) {
                Ok(()) => {},
                Err(_) => {
                    return Err(
                        AppError::BatchCommit { index: batch_index, stage: CommitStage::Storage },
                    );
                },
            }
            start += len;
            batch_index += 1;
        }
        Ok(())
    }

    /// Embeds the query text and asks the store for the nearest rows, 20 by
    /// default. Fails with an embedding error when the model yields no
    /// vector, and with a storage error when the store does.
    pub fn search(&mut self, text: &str, limit: Option<usize>) -> (r: Result<
        Vec<(i64, Option<String>)>,
        AppError,
    >)
        ensures
            r matches Err(e) ==> e == AppError::EmbeddingFailure || e == AppError::Storage,
    {
        let lim: usize = match limit {
            Some(l) => l,
            None => 20,
        };
        let lim32: u32 = #[verifier::truncate] (lim as u32);
        let mut q: Vec<String> = Vec::new();
        q.push(text.to_owned());
        let embs = match embed_texts(&mut self.model, &q) {
            Ok(b) => b,
            Err(_) => {
                return Err(AppError::EmbeddingFailure);
            },
        };
        if embs.count() == 0 {
            return Err(AppError::EmbeddingFailure);
        }
        match self.store.search(self.model_name.as_str(), &embs, lim32) {
            Ok(rows) => Ok(rows),
            Err(e) => Err(e),
        }
    }

    /// Queries the collection and hands back the stored texts of the
    /// nearest matches: rows whose metadata yields no text are dropped, and
    /// an empty row list yields an empty document list, not an error.
    pub fn query_documents(&mut self, text: &str, limit: Option<usize>) -> (r: Result<
        Vec<String>,
        AppError,
    >)
        ensures
            r matches Err(e) ==> e == AppError::EmbeddingFailure || e == AppError::Storage,
    {
        let rows = match self.search(text, limit) {
            Ok(rows) => rows,
            Err(e) => {
                return Err(e);
            },
        };
        Ok(documents_from_rows(&rows))
    }

    /// Drops this collection's two tables.
    pub fn clean(&self) -> (r: Result<(), AppError>)
        ensures
            r matches Err(e) ==> e == AppError::Storage,
    {
        self.store.drop_collection(self.model_name.as_str())
    }
}

} // verus!
