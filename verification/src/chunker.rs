//! Chunk identity assignment and the persisted chunk record format.
//!
//! A document's chunks get identities derived from the source path alone: the
//! md5 digest of the path, hex-encoded, followed by the chunk's index among
//! the kept (non-blank) chunks. Records are persisted as one JSON object per
//! line.

use vstd::prelude::*;

use md5::Digest;
use md5::Md5;

use crate::error::AppError;
use crate::strutil::{
    bytes_to_hex_chars, chars_to_string, dec_str, hex_of, is_blank, json_escaped, push_json_escaped,
    push_str_chars, str_is_blank, str_to_chars, str_views, usize_to_chars,
};
use crate::text_splitter::{
    all_within, has_empty_sep, split_text_spec, RecursiveCharacterTextSplitter,
};

verus! {

/// One text chunk with its identity and originating file path.
#[derive(Debug)]
pub struct TextChunk {
    /// Identity, unique per (source file, position).
    pub id: String,
    /// The chunk's text; never blank.
    pub text: String,
    /// The source file path.
    pub source: String,
}

/// The md5 digest of the path string's bytes. Named, not written out: the
/// wrapper below is the only place it is assumed.
pub uninterp spec fn md5_of(s: Seq<char>) -> Seq<u8>;

/// Relies on the md5 crate's `Md5::digest` (through the `Digest` trait): the
/// digest depends on the input bytes alone and is 16 bytes long.
#[verifier::external_body]
fn md5_digest(s: &str) -> (r: Vec<u8>)
    ensures
        r@ == md5_of(s@),
        r@.len() == 16,
{
    Md5::digest(s.as_bytes()).to_vec()
}

/// The identity prefix a source path yields: its md5 digest, hex-encoded.
pub open spec fn uid_of(path: Seq<char>) -> Seq<char> {
    hex_of(md5_of(path))
}

/// The identity of the chunk at (kept) index `idx` of the file at `path`.
pub open spec fn chunk_id(path: Seq<char>, idx: nat) -> Seq<char> {
    uid_of(path) + seq!['-'] + dec_str(idx)
}

/// The chunk texts that survive the blank filter, in order.
pub open spec fn kept(cs: Seq<Seq<char>>) -> Seq<Seq<char>>
    decreases cs.len(),
{
    if cs.len() == 0 {
        Seq::empty()
    } else if is_blank(cs.last()) {
        kept(cs.drop_last())
    } else {
        kept(cs.drop_last()).push(cs.last())
    }
}

/// Builds the identified records for one document: blank chunks are dropped
/// and do not consume an index; the kept chunks are numbered consecutively
/// from zero, each with identity `"<path-md5-hex>-<index>"`.
pub fn assign_identities(path: &str, chunks: &Vec<String>) -> (r: Vec<TextChunk>)
    ensures
        r@.len() == kept(str_views(chunks@)).len(),
        forall|i: int|
            0 <= i < r@.len() ==> {
                &&& (#[trigger] r@[i]).text@ == kept(str_views(chunks@))[i]
                &&& r@[i].id@ == chunk_id(path@, i as nat)
                &&& r@[i].source@ == path@
            },
{
    let uid = md5_digest(path);
    let mut r: Vec<TextChunk> = Vec::new();
    let mut i: usize = 0;
    let n = chunks.len();
    while i < n
        invariant
            i <= n,
            n == chunks@.len(),
            uid@ == md5_of(path@),
            r@.len() == kept(str_views(chunks@).take(i as int)).len(),
            forall|m: int|
                0 <= m < r@.len() ==> {
                    &&& (#[trigger] r@[m]).text@ == kept(str_views(chunks@).take(i as int))[m]
                    &&& r@[m].id@ == chunk_id(path@, m as nat)
                    &&& r@[m].source@ == path@
                },
        decreases n - i,
    {
        proof {
            let pre = str_views(chunks@).take((i + 1) as int);
            assert(pre.drop_last() =~= str_views(chunks@).take(i as int));
            assert(pre.last() == chunks@[i as int]@);
        }
        let ct = &chunks[i];
        if !str_is_blank(ct.as_str()) {
            let mut idc: Vec<char> = Vec::new();
            let mut uidc = bytes_to_hex_chars(&uid);
            idc.append(&mut uidc);
            idc.push('-');
            let mut digits = usize_to_chars(r.len());
            idc.append(&mut digits);
            proof {
                assert(idc@ =~= chunk_id(path@, r@.len() as nat));
            }
            let record = TextChunk {
                id: chars_to_string(&idc),
                text: ct.clone(),
                source: path.to_owned(),
            };
            r.push(record);
            proof {
                let ks = kept(str_views(chunks@).take((i + 1) as int));
                assert(ks == kept(str_views(chunks@).take(i as int)).push(chunks@[i as int]@));
            }
        }
        i += 1;
    }
    proof {
        assert(str_views(chunks@).take(n as int) =~= str_views(chunks@));
    }
    r
}

/// The persisted line for one chunk: a JSON object with `id`, `text` and
/// `source` string fields, in that order.
pub open spec fn jsonl_line_of(id: Seq<char>, text: Seq<char>, source: Seq<char>) -> Seq<char> {
    "{\"id\":\""@ + json_escaped(id) + "\",\"text\":\""@ + json_escaped(text) + "\",\"source\":\""@
        + json_escaped(source) + "\"}"@
}

/// Renders one chunk as its persisted JSON line, without the trailing
/// newline.
pub fn jsonl_line(c: &TextChunk) -> (r: String)
    ensures
        r@ == jsonl_line_of(c.id@, c.text@, c.source@),
{
    let mut out: Vec<char> = Vec::new();
    push_str_chars(&mut out, "{\"id\":\"");
    push_json_escaped(&mut out, c.id.as_str());
    push_str_chars(&mut out, "\",\"text\":\"");
    push_json_escaped(&mut out, c.text.as_str());
    push_str_chars(&mut out, "\",\"source\":\"");
    push_json_escaped(&mut out, c.source.as_str());
    push_str_chars(&mut out, "\"}");
    proof {
        assert(out@ =~= jsonl_line_of(c.id@, c.text@, c.source@));
    }
    chars_to_string(&out)
}

/// The last path component before any trailing slashes: what follows the
/// last `/` once trailing slashes are ignored, as `Path::file_name` reads a
/// path.
pub open spec fn last_component(p: Seq<char>) -> Seq<char>
    decreases p.len(),
{
    if p.len() == 0 {
        Seq::empty()
    } else if p.last() == '/' {
        Seq::empty()
    } else {
        last_component(p.drop_last()).push(p.last())
    }
}

/// The path with its trailing slashes removed.
pub open spec fn trim_slashes(p: Seq<char>) -> Seq<char>
    decreases p.len(),
{
    if p.len() > 0 && p.last() == '/' {
        trim_slashes(p.drop_last())
    } else {
        p
    }
}

/// The file name component of a path: the last component, trailing slashes
/// ignored.
pub open spec fn file_name_of(p: Seq<char>) -> Seq<char> {
    last_component(trim_slashes(p))
}

proof fn lemma_file_name_suffix(p: Seq<char>, m: int)
    requires
        0 <= m <= p.len(),
        forall|i: int| m <= i < p.len() ==> p[i] != '/',
        m == 0 || p[m - 1] == '/',
    ensures
        last_component(p) == p.skip(m),
    decreases p.len(),
{
    if p.len() == m {
        if m > 0 {
            assert(p.last() == p[m - 1]);
        }
        assert(p.skip(m) =~= Seq::<char>::empty());
    } else {
        assert(p.last() == p[p.len() - 1]);
        lemma_file_name_suffix(p.drop_last(), m);
        assert(p.skip(m) =~= p.drop_last().skip(m).push(p.last()));
    }
}

/// Every `.` replaced by `-`.
pub open spec fn dot_to_dash(s: Seq<char>) -> Seq<char> {
    s.map_values(
        |c: char|
            if c == '.' {
                '-'
            } else {
                c
            },
    )
}

fn file_name_chars(p: &Vec<char>) -> (r: Vec<char>)
    ensures
        r@ == file_name_of(p@),
{
    let full = p.len();
    let mut n: usize = full;
    proof {
        assert(p@.take(full as int) =~= p@);
    }
    while n > 0 && p[n - 1] == '/'
        invariant
            n <= full,
            full == p@.len(),
            trim_slashes(p@) == trim_slashes(p@.take(n as int)),
        decreases n,
    {
        proof {
            assert(p@.take(n as int).last() == p@[n - 1]);
            assert(p@.take(n as int).drop_last() =~= p@.take(n - 1));
        }
        n -= 1;
    }
    proof {
        if n > 0 {
            assert(p@.take(n as int).last() == p@[n - 1]);
        }
        assert(trim_slashes(p@.take(n as int)) == p@.take(n as int));
    }
    let mut m: usize = n;
    while m > 0 && p[m - 1] != '/'
        invariant
            m <= n,
            n <= full,
            full == p@.len(),
            forall|i: int| m <= i < n ==> p@[i] != '/',
        decreases m,
    {
        m -= 1;
    }
    let mut r: Vec<char> = Vec::new();
    let mut i: usize = m;
    while i < n
        invariant
            m <= i <= n,
            n <= p@.len(),
            r@ == p@.subrange(m as int, i as int),
        decreases n - i,
    {
        r.push(p[i]);
        proof {
            assert(p@.subrange(m as int, (i + 1) as int) =~= p@.subrange(m as int, i as int).push(
                p@[i as int],
            ));
        }
        i += 1;
    }
    proof {
        let trimmed = p@.take(n as int);
        assert(forall|i: int| m <= i < trimmed.len() ==> trimmed[i] != '/');
        assert(m == 0 || trimmed[m - 1] == '/');
        lemma_file_name_suffix(trimmed, m as int);
        assert(p@.subrange(m as int, n as int) =~= trimmed.skip(m as int));
    }
    r
}

fn dot_to_dash_chars(s: &Vec<char>) -> (r: Vec<char>)
    ensures
        r@ == dot_to_dash(s@),
{
    let n = s.len();
    let mut r: Vec<char> = Vec::new();
    let mut i: usize = 0;
    while i < n
        invariant
            i <= n,
            n == s@.len(),
            r@ == dot_to_dash(s@.take(i as int)),
        decreases n - i,
    {
        let c = s[i];
        if c == '.' {
            r.push('-');
        } else {
            r.push(c);
        }
        proof {
            assert(r@ =~= dot_to_dash(s@.take((i + 1) as int)));
        }
        i += 1;
    }
    proof {
        assert(s@.take(n as int) =~= s@);
    }
    r
}

/// Where the chunks of the documents under `dir` are persisted, for a given
/// chunk size and overlap.
pub open spec fn output_path_of(dir: Seq<char>, size: nat, overlap: nat) -> Seq<char> {
    "artifacts/chunks/"@ + dot_to_dash(file_name_of(dir)) + "_chunks_SZ_"@ + dec_str(size) + "_O_"@
        + dec_str(overlap) + ".jsonl"@
}

/// Turns a directory of documents into identified chunks and decides where
/// they are persisted. The I/O around it — reading files, walking the
/// directory, writing the record file — stays with the caller.
pub struct TextChunker {
    /// Directory the documents come from.
    input_dir: String,
    /// Path of the persisted record file.
    output_file: String,
    /// The splitter, carrying the configured chunk size and overlap.
    splitter: RecursiveCharacterTextSplitter,
}

impl TextChunker {
    /// The directory the chunker reads.
    pub closed spec fn spec_input_dir(&self) -> Seq<char> {
        self.input_dir@
    }

    /// The record file path the chunker writes to.
    pub closed spec fn spec_output_file(&self) -> Seq<char> {
        self.output_file@
    }

    /// The configured chunk size.
    pub closed spec fn spec_chunk_size(&self) -> nat {
        self.splitter.spec_chunk_size()
    }

    /// The configured overlap.
    pub closed spec fn spec_chunk_overlap(&self) -> nat {
        self.splitter.spec_chunk_overlap()
    }

    /// The separator priorities the splitter cuts at.
    pub closed spec fn spec_sep_views(&self) -> Seq<Seq<char>> {
        self.splitter.sep_views()
    }

    /// Whether separators stay attached to the chunk after them.
    pub closed spec fn spec_keep_separator(&self) -> bool {
        self.splitter.spec_keep_separator()
    }

    /// The chunk texts one document yields: the non-blank chunks of the
    /// configured split, in order.
    pub open spec fn kept_chunks_of(&self, content: Seq<char>) -> Seq<Seq<char>> {
        kept(
            split_text_spec(
                content,
                self.spec_sep_views(),
                self.spec_chunk_size(),
                self.spec_chunk_overlap(),
                self.spec_keep_separator(),
            ),
        )
    }

    /// The splitter has the character-level fallback among its separators, so
    /// every chunk fits the configured size.
    pub closed spec fn wf(&self) -> bool {
        has_empty_sep(self.splitter.sep_views())
    }

    /// Sets up a chunker for the documents under `input_dir`: the output path
    /// is derived from the directory name (dots replaced by dashes) and the
    /// two configuration numbers.
    pub fn new(input_dir: String, chunk_size: usize, chunk_overlap: usize) -> (s: Self)
        ensures
            s.spec_input_dir() == input_dir@,
            s.spec_chunk_size() == chunk_size as nat,
            s.spec_chunk_overlap() == chunk_overlap as nat,
            s.spec_sep_views() == RecursiveCharacterTextSplitter::default_separators(),
            s.spec_keep_separator(),
            s.spec_output_file() == output_path_of(
                input_dir@,
                chunk_size as nat,
                chunk_overlap as nat,
            ),
            s.wf(),
    {
        let dirc = str_to_chars(input_dir.as_str());
        let base = file_name_chars(&dirc);
        let domain = dot_to_dash_chars(&base);
        let mut out: Vec<char> = Vec::new();
        push_str_chars(&mut out, "artifacts/chunks/");
        let mut d = domain;
        out.append(&mut d);
        push_str_chars(&mut out, "_chunks_SZ_");
        let mut sz = usize_to_chars(chunk_size);
        out.append(&mut sz);
        push_str_chars(&mut out, "_O_");
        let mut ov = usize_to_chars(chunk_overlap);
        out.append(&mut ov);
        push_str_chars(&mut out, ".jsonl");
        proof {
            assert(out@ =~= output_path_of(input_dir@, chunk_size as nat, chunk_overlap as nat));
        }
        let output_file = chars_to_string(&out);
        let splitter = RecursiveCharacterTextSplitter::new().with_chunk_size(
            chunk_size,
        ).with_chunk_overlap(chunk_overlap);
        Self { input_dir, output_file, splitter }
    }

    /// The record file path, for the caller that writes it.
    pub fn output_file(&self) -> (r: &String)
        ensures
            r@ == self.spec_output_file(),
    {
        &self.output_file
    }

    /// The input directory, for the caller that walks it.
    pub fn input_dir(&self) -> (r: &String)
        ensures
            r@ == self.spec_input_dir(),
    {
        &self.input_dir
    }

    /// Splits one document's content and assigns identities: the records'
    /// texts are exactly the non-blank chunks of the configured split of
    /// `content`, in order; blank chunks consume no index; every record
    /// carries the source path, an identity derived from it, and text that
    /// fits the chunk size. A configuration with `overlap >= size` is
    /// rejected here, before any splitting.
    pub fn process_content(&self, path: &str, content: &str) -> (r: Result<
        Vec<TextChunk>,
        AppError,
    >)
        ensures
            match r {
                Ok(records) => {
                    let ks = self.kept_chunks_of(content@);
                    &&& self.spec_chunk_overlap() < self.spec_chunk_size()
                    &&& records@.len() == ks.len()
                    &&& forall|i: int|
                        0 <= i < records@.len() ==> {
                            &&& (#[trigger] records@[i]).text@ == ks[i]
                            &&& !is_blank(records@[i].text@)
                            &&& records@[i].id@ == chunk_id(path@, i as nat)
                            &&& records@[i].source@ == path@
                        }
                },
                Err(e) => e == AppError::SegmentationConfig && !(self.spec_chunk_overlap()
                    < self.spec_chunk_size()),
            },
            self.wf() && self.spec_chunk_overlap() < self.spec_chunk_size() ==> match r {
                Ok(records) => all_within(
                    str_views(records@.map_values(|c: TextChunk| c.text)),
                    self.spec_chunk_size(),
                ),
                Err(_) => false,
            },
    {
        if !self.splitter.config_ok() {
            return Err(AppError::SegmentationConfig);
        }
        let chunks = self.splitter.split_text(content);
        let records = assign_identities(path, &chunks);
        proof {
            lemma_kept_not_blank(str_views(chunks@));
            if self.wf() {
                lemma_kept_within(str_views(chunks@), self.spec_chunk_size());
                let texts = str_views(records@.map_values(|c: TextChunk| c.text));
                assert forall|i: int| 0 <= i < texts.len() implies #[trigger] texts[i].len()
                    <= self.spec_chunk_size() by {
                    assert(texts[i] == records@[i].text@);
                    assert(records@[i].text@ == kept(str_views(chunks@))[i]);
                }
            }
        }
        Ok(records)
    }
}

/// Kept chunks are never blank.
proof fn lemma_kept_not_blank(cs: Seq<Seq<char>>)
    ensures
        forall|i: int| 0 <= i < kept(cs).len() ==> !is_blank(#[trigger] kept(cs)[i]),
    decreases cs.len(),
{
    if cs.len() > 0 {
        lemma_kept_not_blank(cs.drop_last());
        assert forall|i: int| 0 <= i < kept(cs).len() implies !is_blank(
            #[trigger] kept(cs)[i],
        ) by {
            if !is_blank(cs.last()) {
                assert(kept(cs) == kept(cs.drop_last()).push(cs.last()));
                if i < kept(cs.drop_last()).len() {
                    assert(kept(cs)[i] == kept(cs.drop_last())[i]);
                } else {
                    assert(kept(cs)[i] == cs.last());
                }
            }
        }
    }
}

/// Kept chunks stay within any bound the full chunk list respects.
proof fn lemma_kept_within(cs: Seq<Seq<char>>, max: nat)
    requires
        all_within(cs, max),
    ensures
        forall|i: int| 0 <= i < kept(cs).len() ==> #[trigger] kept(cs)[i].len() <= max,
    decreases cs.len(),
{
    if cs.len() > 0 {
        assert(all_within(cs.drop_last(), max)) by {
            assert(forall|i: int|
                0 <= i < cs.drop_last().len() ==> cs.drop_last()[i] == #[trigger] cs[i]);
        }
        lemma_kept_within(cs.drop_last(), max);
        assert(cs.last() == cs[cs.len() - 1]);
        assert forall|i: int| 0 <= i < kept(cs).len() implies #[trigger] kept(cs)[i].len()
            <= max by {
            if !is_blank(cs.last()) {
                assert(kept(cs) == kept(cs.drop_last()).push(cs.last()));
                if i < kept(cs.drop_last()).len() {
                    assert(kept(cs)[i] == kept(cs.drop_last())[i]);
                } else {
                    assert(kept(cs)[i] == cs.last());
                }
            }
        }
    }
}

} // verus!
