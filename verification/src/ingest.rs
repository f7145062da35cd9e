//! The index writer's verified logic: fresh content ids, ASCII filtering of
//! chunk text, and the dense renumbering of the chunks that survive it.

use vstd::prelude::*;

use crate::strtools::views_of;
use crate::text_splitter::{spec_split, spec_trimmed, TextSplitter};
use crate::RagError;

verus! {

/// A lower-case hexadecimal digit.
pub open spec fn is_hex_lower(c: char) -> bool {
    ('0' <= c && c <= '9') || ('a' <= c && c <= 'f')
}

/// Relies on `uuid::Uuid::new_v4` and the `Display` form of `Uuid`: 36
/// characters, hyphens at positions 8, 13, 18 and 23, lower-case
/// hexadecimal digits everywhere else. The value itself is random, so
/// nothing more is promised of it.
#[verifier::external_body]
fn uuid_v4_hyphenated() -> (r: String)
    ensures
        r@.len() == 36,
        r@[8] == '-' && r@[13] == '-' && r@[18] == '-' && r@[23] == '-',
        forall|i: int|
            0 <= i < 36 && i != 8 && i != 13 && i != 18 && i != 23 ==> is_hex_lower(
                #[trigger] r@[i],
            ),
{
    uuid::Uuid::new_v4().to_string()
}

/// A fresh opaque content id: a random 32-digit lower-case hexadecimal
/// string, as a version-4 identifier with the hyphens removed.
pub fn fresh_content_id() -> (r: String)
    ensures
        r@.len() == 32,
        forall|i: int| 0 <= i < 32 ==> is_hex_lower(#[trigger] r@[i]),
{
    let u = uuid_v4_hyphenated();
    let t = u.as_str();
    let p0 = t.substring_char(0, 8);
    let p1 = t.substring_char(9, 13);
    let p2 = t.substring_char(14, 18);
    let p3 = t.substring_char(19, 23);
    let p4 = t.substring_char(24, 36);
    let r = String::from_str(p0).concat(p1).concat(p2).concat(p3).concat(p4);
    proof {
        assert forall|i: int| 0 <= i < r@.len() implies is_hex_lower(#[trigger] r@[i]) by {
            if i < 8 {
                assert(r@[i] == u@[i]);
            } else if i < 12 {
                assert(r@[i] == u@[i + 1]);
            } else if i < 16 {
                assert(r@[i] == u@[i + 2]);
            } else if i < 20 {
                assert(r@[i] == u@[i + 3]);
            } else {
                assert(r@[i] == u@[i + 4]);
            }
        }
    }
    r
}

/// A character the store keeps after filtering: plain ASCII.
pub open spec fn is_ascii_char(c: char) -> bool {
    (c as u32) < 128
}

/// The text with every non-ASCII character removed.
pub open spec fn spec_ascii_filter(s: Seq<char>) -> Seq<char> {
    s.filter(|c: char| is_ascii_char(c))
}

/// Removes every non-ASCII character.
pub fn ascii_filter(text: &str) -> (r: String)
    ensures
        r@ == spec_ascii_filter(text@),
{
    let ghost pred = |c: char| is_ascii_char(c);
    let n = text.unicode_len();
    let mut out = String::new();
    let mut i: usize = 0;
    while i < n
        invariant
            n == text@.len(),
            0 <= i <= n,
            pred == (|c: char| is_ascii_char(c)),
            out@ == text@.take(i as int).filter(pred),
        decreases n - i,
    {
        let ghost before = out@;
        let c = text.get_char(i);
        proof {
            assert(text@.take(i + 1) =~= text@.take(i as int).push(text@[i as int]));
            crate::seqtools::lemma_filter_push(text@.take(i as int), pred, text@[i as int]);
        }
        if (c as u32) < 128 {
            let piece = text.substring_char(i, i + 1);
            out = out.concat(piece);
            proof {
                assert(piece@ =~= seq![text@[i as int]]);
                assert(out@ =~= before.push(text@[i as int]));
            }
        }
        i = i + 1;
    }
    proof {
        assert(text@.take(n as int) =~= text@);
    }
    out
}

/// The single-row ingestion path's chunk cleaning: ASCII-filter and trim
/// the chunk, and fail with the empty-content error if nothing remains —
/// which aborts that document.
pub fn clean_chunk(content_chunk: &str) -> (r: Result<String, RagError>)
    ensures
        match r {
            Ok(s) => s@ == spec_cleaned(content_chunk@) && s@.len() > 0,
            Err(e) => e == RagError::EmptyContent && spec_cleaned(content_chunk@).len() == 0,
        },
{
    let filtered = ascii_filter(content_chunk);
    let trimmed = crate::text_splitter::trim_text(filtered.as_str());
    if trimmed.as_str().is_empty() {
        Err(RagError::EmptyContent)
    } else {
        Ok(trimmed)
    }
}

/// What the bulk path stores for one raw chunk: its text ASCII-filtered and
/// trimmed.
pub open spec fn spec_cleaned(s: Seq<char>) -> Seq<char> {
    spec_trimmed(spec_ascii_filter(s), 0, spec_ascii_filter(s).len() as int)
}

/// The chunks that survive cleaning, in order.
pub open spec fn spec_survivors(texts: Seq<Seq<char>>) -> Seq<Seq<char>> {
    texts.map_values(|t: Seq<char>| spec_cleaned(t)).filter(|c: Seq<char>| c.len() > 0)
}

/// One chunk staged for the bulk insert: its dense position among the
/// surviving chunks and its cleaned text.
pub struct StagedChunk {
    pub chunk_number: i32,
    pub content_chunk: String,
}

/// The bulk ingestion path's staging: clean every raw chunk, silently skip
/// those that come out empty, and number the survivors densely from zero —
/// the stored chunk numbers are exactly `0 .. N-1` with no gaps.
pub fn stage_chunks(chunks: &Vec<String>) -> (r: Vec<StagedChunk>)
    requires
        chunks@.len() <= 0x7fffffff,
    ensures
        r@.len() == spec_survivors(views_of(chunks@)).len(),
        forall|j: int| 0 <= j < r@.len() ==> (#[trigger] r@[j]).chunk_number == j,
        forall|j: int|
            0 <= j < r@.len() ==> (#[trigger] r@[j]).content_chunk@ == spec_survivors(
                views_of(chunks@),
            )[j],
{
    let ghost texts = views_of(chunks@);
    let ghost cleaned = texts.map_values(|t: Seq<char>| spec_cleaned(t));
    let ghost keep = |c: Seq<char>| c.len() > 0;
    let mut out: Vec<StagedChunk> = Vec::new();
    let mut i: usize = 0;
    let n = chunks.len();
    while i < n
        invariant
            n == chunks@.len() <= 0x7fffffff,
            texts == views_of(chunks@),
            cleaned == texts.map_values(|t: Seq<char>| spec_cleaned(t)),
            keep == (|c: Seq<char>| c.len() > 0),
            0 <= i <= n,
            out@.map_values(|c: StagedChunk| c.content_chunk@) == cleaned.take(i as int).filter(
                keep,
            ),
            forall|j: int| 0 <= j < out@.len() ==> (#[trigger] out@[j]).chunk_number == j,
        decreases n - i,
    {
        proof {
            assert(cleaned.take(i + 1) =~= cleaned.take(i as int).push(cleaned[i as int]));
            crate::seqtools::lemma_filter_push(cleaned.take(i as int), keep, cleaned[i as int]);
            assert(cleaned[i as int] == spec_cleaned(texts[i as int]));
        }
        let filtered = ascii_filter(chunks[i].as_str());
        let trimmed = crate::text_splitter::trim_text(filtered.as_str());
        proof {
            assert(trimmed@ == cleaned[i as int]);
        }
        let ghost out_before = out@;
        if !trimmed.as_str().is_empty() {
            let number = out.len();
            out.push(StagedChunk { chunk_number: number as i32, content_chunk: trimmed });
            proof {
                assert(out@.map_values(|c: StagedChunk| c.content_chunk@) =~= out_before
                    .map_values(|c: StagedChunk| c.content_chunk@).push(cleaned[i as int]));
            }
        }
        i = i + 1;
    }
    proof {
        assert(cleaned.take(n as int) =~= cleaned);
        assert(out@.map_values(|c: StagedChunk| c.content_chunk@).len() == out@.len());
    }
    out
}

/// The whole compute side of bulk document ingestion: a fresh content id
/// and the document's chunks, split with the deployment's default chunk
/// size and overlap, cleaned and densely renumbered.
pub fn stage_document(text: &str) -> (r: (String, Vec<StagedChunk>))
    requires
        text@.len() <= 0x7fffffff,
    ensures
        r.0@.len() == 32,
        forall|i: int| 0 <= i < 32 ==> is_hex_lower(#[trigger] r.0@[i]),
        r.1@.len() == spec_survivors(spec_split(text@, 1000, 150)).len(),
        forall|j: int| 0 <= j < r.1@.len() ==> (#[trigger] r.1@[j]).chunk_number == j,
        forall|j: int|
            0 <= j < r.1@.len() ==> (#[trigger] r.1@[j]).content_chunk@ == spec_survivors(
                spec_split(text@, 1000, 150),
            )[j],
{
    let content_id = fresh_content_id();
    let splitter = TextSplitter::new();
    let chunks = splitter.split(text);
    proof {
        crate::text_splitter::lemma_intervals_props(text@, 1000, 150, 0);
        assert(views_of(chunks@).len() == chunks@.len());
        assert(spec_split(text@, 1000, 150).len() == crate::text_splitter::spec_intervals_from(
            text@,
            1000,
            150,
            0,
        ).len());
        assert(chunks@.len() <= text@.len());
    }
    let staged = stage_chunks(&chunks);
    (content_id, staged)
}

} // verus!
