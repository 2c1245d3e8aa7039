//! The chunk-boundary policy: a document is split into retrieval-sized units
//! under a token budget. A markdown file name selects a markdown-aware
//! splitter that prefers heading and block boundaries; anything else uses the
//! generic text splitter that prefers paragraph and sentence boundaries.
//! Token counting is done by the embedding model's own tokenizer. Every unit
//! handed on is trimmed, non-empty, and a substring of the document, and the
//! units appear in the order of their source spans.

use vstd::prelude::*;
use crate::models::IndexError;
use crate::text::{
    all_space, all_space_str, is_space, is_trimmed, trim_spec, trim_str, str_views, markdown_name,
    first_non_space, last_non_space_end,
};

verus! {

/// Target number of tokenizer tokens per chunk.
pub const CHUNK_TOKEN_BUDGET: usize = 100;

#[verifier::external_type_specification]
#[verifier::external_body]
pub struct ExTokenizer(tokenizers::Tokenizer);

/// `chunk` occurs in `text` starting at position `j`.
pub open spec fn is_substring_at(chunk: Seq<char>, text: Seq<char>, j: int) -> bool {
    0 <= j && j + chunk.len() <= text.len() && chunk == text.subrange(j, j + chunk.len())
}

/// `chunk` occurs somewhere in `text`.
pub open spec fn is_substring(chunk: Seq<char>, text: Seq<char>) -> bool {
    exists|j: int| is_substring_at(chunk, text, j)
}

// Names the outcome of `tokenizers::Tokenizer::encode_fast` on a text:
// whether encoding succeeds, a function of the tokenizer value and the
// characters alone. The splitter wrappers state their probe's result with
// it, and their `requires` demand a tokenizer for which it always holds,
// because chunk sizing re-encodes arbitrary subslices of the text and
// text-splitter's sizer does not recover from an encode failure.
pub uninterp spec fn encodes_ok(t: tokenizers::Tokenizer, s: Seq<char>) -> bool;

/// `offs` places every chunk in `text`, on non-overlapping spans that
/// advance left to right, and the spans cover every non-whitespace
/// character of `text`.
pub open spec fn offsets_witness(chunks: Seq<Seq<char>>, text: Seq<char>, offs: Seq<int>) -> bool {
    &&& offs.len() == chunks.len()
    &&& forall|i: int| 0 <= i < chunks.len() ==> is_substring_at(#[trigger] chunks[i], text, offs[i])
    &&& forall|i: int, j: int|
        0 <= i < j < chunks.len() ==> #[trigger] offs[i] + chunks[i].len() <= #[trigger] offs[j]
    &&& forall|k: int|
        0 <= k < text.len() && !is_space(#[trigger] text[k]) ==> exists|i: int|
            0 <= i < chunks.len() && #[trigger] offs[i] <= k < offs[i] + chunks[i].len()
}

/// The chunks appear in `text` in source order, on non-overlapping spans,
/// and no non-whitespace character of `text` falls outside every chunk.
pub open spec fn chunks_in_order(chunks: Seq<Seq<char>>, text: Seq<char>) -> bool {
    exists|offs: Seq<int>| #[trigger] offsets_witness(chunks, text, offs)
}

/// Relies on `text_splitter::TextSplitter::chunks`, sized by
/// `tokenizers::Tokenizer`: the chunks are subslices of the text at
/// non-overlapping offsets that strictly advance; chunks that trim to
/// nothing are skipped, so every chunk keeps a non-whitespace character and
/// text holding a non-whitespace character yields at least one chunk.
/// Relies on `tokenizers::Tokenizer::encode_fast` as a probe whose outcome
/// is `encodes_ok`. The `requires` admits only tokenizers that encode every
/// text: text-splitter's `ChunkSizer` impl for the tokenizer re-encodes
/// subslices of the text and does not return from an encode failure, so on
/// an admitted tokenizer the call always returns, and returns `Ok`.
#[verifier::external_body]
fn split_plain_raw(tokenizer: &tokenizers::Tokenizer, content: &str, max_tokens: usize) -> (r:
    Result<Vec<String>, IndexError>)
    requires
        forall|s: Seq<char>| encodes_ok(*tokenizer, s),
    ensures
        match r {
            Result::Ok(chunks) => {
                &&& chunks_in_order(str_views(chunks@), content@)
                &&& forall|i: int|
                    0 <= i < chunks@.len() ==> trim_spec(#[trigger] chunks@[i]@).len() > 0
                &&& ((exists|k: int| 0 <= k < content@.len() && !is_space(#[trigger] content@[k]))
                    ==> chunks@.len() > 0)
            },
            Result::Err(e) => e == IndexError::TokenizationError && !encodes_ok(
                *tokenizer,
                content@,
            ),
        },
{
    if tokenizer.encode_fast(content, false).is_err() {
        return Err(IndexError::TokenizationError);
    }
    let config = text_splitter::ChunkConfig::new(max_tokens).with_sizer(tokenizer);
    let splitter = text_splitter::TextSplitter::new(config);
    Ok(splitter.chunks(content).map(|c| c.to_string()).collect())
}

/// Relies on `text_splitter::MarkdownSplitter::chunks`, sized by
/// `tokenizers::Tokenizer`: as with the plain splitter, every chunk is a
/// subslice of the text, the spans advance without overlap, and chunks that
/// trim to nothing are skipped (markdown trimming may keep inner
/// indentation, so a chunk is only promised to hold a non-whitespace
/// character). Relies on `tokenizers::Tokenizer::encode_fast` as the same
/// probe as the plain wrapper, under the same `requires`, for the same
/// reason.
#[verifier::external_body]
fn split_markdown_raw(tokenizer: &tokenizers::Tokenizer, content: &str, max_tokens: usize) -> (r:
    Result<Vec<String>, IndexError>)
    requires
        forall|s: Seq<char>| encodes_ok(*tokenizer, s),
    ensures
        match r {
            Result::Ok(chunks) => {
                &&& chunks_in_order(str_views(chunks@), content@)
                &&& forall|i: int|
                    0 <= i < chunks@.len() ==> trim_spec(#[trigger] chunks@[i]@).len() > 0
                &&& ((exists|k: int| 0 <= k < content@.len() && !is_space(#[trigger] content@[k]))
                    ==> chunks@.len() > 0)
            },
            Result::Err(e) => e == IndexError::TokenizationError && !encodes_ok(
                *tokenizer,
                content@,
            ),
        },
{
    if tokenizer.encode_fast(content, false).is_err() {
        return Err(IndexError::TokenizationError);
    }
    let config = text_splitter::ChunkConfig::new(max_tokens).with_sizer(tokenizer);
    let splitter = text_splitter::MarkdownSplitter::new(config);
    Ok(splitter.chunks(content).map(|c| c.to_string()).collect())
}

/// Splits a document into chunk strings under the token budget, by the
/// policy the document name selects, then trims each chunk. The chunks come
/// back trimmed, non-empty, in the order of their source spans; content with
/// a non-whitespace character yields at least one chunk, and whitespace-only
/// content yields none. On a tokenizer that encodes every text, as the
/// contract demands, splitting succeeds.
#[verifier::rlimit(100)]
pub fn split_document(tokenizer: &tokenizers::Tokenizer, doc_id: &str, content: &str) -> (r:
    Result<Vec<String>, IndexError>)
    requires
        forall|s: Seq<char>| encodes_ok(*tokenizer, s),
    ensures
        r is Ok,
        match r {
            Result::Ok(cs) => {
                &&& forall|i: int|
                    0 <= i < cs@.len() ==> is_trimmed(#[trigger] cs@[i]@) && cs@[i]@.len() > 0
                        && is_substring(cs@[i]@, content@)
                &&& chunks_in_order(str_views(cs@), content@)
                &&& (all_space(content@) ==> cs@.len() == 0)
                &&& ((exists|k: int| 0 <= k < content@.len() && !is_space(#[trigger] content@[k]))
                    ==> cs@.len() > 0)
            },
            Result::Err(_) => false,
        },
{
    if all_space_str(content) {
        let empty: Vec<String> = Vec::new();
        proof {
            assert(str_views(empty@) =~= Seq::<Seq<char>>::empty());
            assert(offsets_witness(str_views(empty@), content@, Seq::<int>::empty()));
        }
        return Ok(empty);
    }
    let raw = match (if markdown_name(doc_id) {
        split_markdown_raw(tokenizer, content, CHUNK_TOKEN_BUDGET)
    } else {
        split_plain_raw(tokenizer, content, CHUNK_TOKEN_BUDGET)
    }) {
        Ok(v) => v,
        Err(e) => {
            // unreachable: the wrapper reports an error only when the
            // content does not encode, and the admitted tokenizer encodes
            // every text
            proof {
                assert(encodes_ok(*tokenizer, content@));
            }
            return Err(e);
        },
    };
    let ghost offs = choose|offs: Seq<int>| offsets_witness(str_views(raw@), content@, offs);
    let mut r: Vec<String> = Vec::new();
    let ghost mut gofs: Seq<int> = Seq::empty();
    let mut i: usize = 0;
    while i < raw.len()
        invariant
            i <= raw@.len(),
            r@.len() == i,
            gofs.len() == i,
            offsets_witness(str_views(raw@), content@, offs),
            forall|j: int|
                0 <= j < raw@.len() ==> trim_spec(#[trigger] raw@[j]@).len() > 0,
            forall|k: int|
                0 <= k < i ==> is_trimmed(#[trigger] r@[k]@) && r@[k]@.len() > 0
                    && is_substring_at(r@[k]@, content@, gofs[k]),
            forall|k: int|
                0 <= k < i ==> offs[k] <= #[trigger] gofs[k] && gofs[k] + r@[k]@.len() <= offs[k]
                    + raw@[k]@.len(),
            forall|k: int|
                0 <= k < i ==> #[trigger] gofs[k] == offs[k] + first_non_space(raw@[k]@, 0)
                    && gofs[k] + r@[k]@.len() == offs[k] + last_non_space_end(
                    raw@[k]@,
                    raw@[k]@.len() as int,
                ),
        decreases raw@.len() - i,
    {
        let t = trim_str(raw[i].as_str());
        proof {
            let s = raw@[i as int]@;
            crate::text::lemma_trim_trimmed(s);
            crate::text::lemma_trim_spec_subrange(s);
            let a = first_non_space(s, 0);
            let b = last_non_space_end(s, s.len() as int);
            assert(str_views(raw@)[i as int] == s);
            assert(is_substring_at(s, content@, offs[i as int]));
            assert(t@ =~= content@.subrange(offs[i as int] + a, offs[i as int] + b));
            assert(is_substring_at(t@, content@, offs[i as int] + a));
            gofs = gofs.push(offs[i as int] + a);
        }
        r.push(t);
        i = i + 1;
    }
    proof {
        assert forall|k1: int, k2: int| 0 <= k1 < k2 < r@.len() implies gofs[k1]
            + str_views(r@)[k1].len() <= gofs[k2] by {
            assert(gofs[k1] + r@[k1]@.len() <= offs[k1] + raw@[k1]@.len());
            assert(offs[k1] + str_views(raw@)[k1].len() <= offs[k2]);
        }
        assert forall|k: int|
            0 <= k < content@.len() && !is_space(content@[k]) implies exists|w: int|
            0 <= w < str_views(r@).len() && #[trigger] gofs[w] <= k < gofs[w] + str_views(
            r@,
        )[w].len() by {
            let w = choose|w: int|
                0 <= w < str_views(raw@).len() && #[trigger] offs[w] <= k < offs[w] + str_views(
                raw@,
                )[w].len();
            let s = raw@[w]@;
            crate::text::lemma_trim_margins(s);
            let a = first_non_space(s, 0);
            let b = last_non_space_end(s, s.len() as int);
            assert(is_substring_at(s, content@, offs[w]));
            assert(s[k - offs[w]] == content@[k]);
            if k - offs[w] < a {
                assert(is_space(s[k - offs[w]]));
            }
            if k - offs[w] >= b {
                assert(is_space(s[k - offs[w]]));
            }
            assert(gofs[w] <= k < gofs[w] + str_views(r@)[w].len());
        }
        assert(offsets_witness(str_views(r@), content@, gofs));
    }
    Ok(r)
}

} // verus!
