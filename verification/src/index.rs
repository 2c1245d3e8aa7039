//! The index facade: an append-only store of embedded chunks together with
//! the operations the host drives. An embedding provider (its tokenizer, for
//! chunk sizing, and its vector dimension) must be attached before any
//! ingestion or query step; until then every such step reports
//! `ProviderNotAttached` and the store stays empty.
//!
//! The embedding computation itself is the host's capability: the facade
//! plans a document (chat records or split chunks), the host embeds each
//! unit and hands the fixed-point vector back to [`VectorDatabase::store_chunk`].

use vstd::prelude::*;
use vstd::string::StrSliceExecFns;
use crate::models::{
    ChatRecord, RecordView, TextChunk, ChunkView, SearchResult, IndexError, rec_views,
    chunk_views, res_views, opt_view, MAX_DIM,
};
use crate::text::{all_space, is_trimmed, trim_spec, trim_str, str_views};
use crate::parser::{parse_spec, parse_whatsapp, is_export_spec, is_whatsapp_export};
use crate::ranking::{bounded, norm_ok, rank_spec, rank_chunks};
use crate::chunker::{split_document, chunks_in_order, is_substring, encodes_ok};
use crate::EMBED_SCALE;

verus! {

/// Record-wise finalization of parsed chat records: each content is trimmed,
/// records left empty by the trim are dropped, sender and date are kept.
pub open spec fn finalize_records(rs: Seq<RecordView>) -> Seq<RecordView>
    decreases rs.len(),
{
    if rs.len() == 0 {
        Seq::empty()
    } else {
        let init = finalize_records(rs.drop_last());
        let t = trim_spec(rs.last().content);
        if t.len() > 0 {
            init.push(RecordView { content: t, sender: rs.last().sender, date: rs.last().date })
        } else {
            init
        }
    }
}

/// The contents of a unit sequence, in order.
pub open spec fn units_contents(s: Seq<ChatRecord>) -> Seq<Seq<char>> {
    s.map_values(|u: ChatRecord| u.content@)
}

/// A whitespace-only text is never classified as a chat export: both
/// timestamp formats open with a bracket or a digit.
proof fn lemma_all_space_not_export(s: Seq<char>)
    requires
        all_space(s),
    ensures
        !is_export_spec(s),
{
    if is_export_spec(s) {
        let p = s.take(500);
        if crate::parser::contains_ios_stamp(p) {
            let i = choose|i: int|
                0 <= i < p.len() && crate::parser::ios_stamp_at(p, i) is Some;
            assert(p[i] == '[');
            assert(crate::text::is_space(s[i]));
        } else {
            let i = choose|i: int|
                0 <= i < p.len() && crate::parser::android_stamp_at(p, i) is Some;
            assert(crate::parser::match_num_sep(p, i, 1, 2, '/') is Some);
            assert(crate::parser::digit_run(p, i) >= 1);
            assert(crate::text::is_digit(p[i]));
            assert(crate::text::is_space(s[i]));
        }
    }
}

/// Validity of one stored chunk: the embedding has the attached dimension,
/// fixed-point components in range and a unit norm within tolerance, and
/// the content is non-empty and trimmed.
pub open spec fn chunk_ok(c: ChunkView, dim: int) -> bool {
    &&& c.embedding.len() == dim
    &&& bounded(c.embedding, EMBED_SCALE as int)
    &&& norm_ok(c.embedding)
    &&& c.content.len() > 0
    &&& is_trimmed(c.content)
}

/// The in-memory semantic index: an insertion-ordered, append-only sequence
/// of embedded chunks, plus the attached provider's tokenizer and dimension.
pub struct VectorDatabase {
    chunks: Vec<TextChunk>,
    tokenizer: Option<tokenizers::Tokenizer>,
    dim: usize,
}

impl VectorDatabase {
    /// The stored chunks, in insertion order.
    pub closed spec fn store(&self) -> Seq<ChunkView> {
        chunk_views(self.chunks@)
    }

    /// Whether an embedding provider has been attached.
    pub closed spec fn attached(&self) -> bool {
        self.tokenizer is Some
    }

    /// The embedding dimension fixed by the attached provider.
    pub closed spec fn dim_spec(&self) -> int {
        self.dim as int
    }

    /// Well-formedness: the store is empty until a provider is attached,
    /// every stored chunk is valid for the attached dimension, and the
    /// attached tokenizer encodes every text (what `attach_embedder`
    /// demands of it).
    pub closed spec fn wf(&self) -> bool {
        &&& self.dim <= MAX_DIM
        &&& (!self.attached() ==> self.store().len() == 0)
        &&& forall|j: int| 0 <= j < self.store().len() ==> chunk_ok(#[trigger] self.store()[j], self.dim as int)
        &&& match self.tokenizer {
            Option::Some(t) => forall|s: Seq<char>| encodes_ok(t, s),
            Option::None => true,
        }
    }

    /// A fresh index: empty, no provider attached.
    pub fn new() -> (r: VectorDatabase)
        ensures
            r.wf(),
            !r.attached(),
            r.store() == Seq::<ChunkView>::empty(),
    {
        let r = VectorDatabase { chunks: Vec::new(), tokenizer: None, dim: 0 };
        proof {
            assert(r.store() =~= Seq::<ChunkView>::empty());
        }
        r
    }

    pub fn is_attached(&self) -> (r: bool)
        ensures
            r == self.attached(),
    {
        self.tokenizer.is_some()
    }

    /// Attaches an embedding provider: its tokenizer, used for chunk sizing,
    /// and its fixed vector dimension. The dimension cannot change once
    /// chunks are stored. The tokenizer must encode every text: chunk
    /// sizing re-encodes arbitrary subslices of a document, and the sizer
    /// inside the splitter does not recover from an encode failure, so a
    /// provider whose tokenizer can fail to encode is not admitted.
    pub fn attach_embedder(&mut self, tokenizer: tokenizers::Tokenizer, dim: usize) -> (r: Result<
        (),
        IndexError,
    >)
        requires
            old(self).wf(),
            dim <= MAX_DIM,
            old(self).store().len() == 0 || dim as int == old(self).dim_spec(),
            forall|s: Seq<char>| encodes_ok(tokenizer, s),
        ensures
            final(self).wf(),
            r is Ok,
            final(self).attached(),
            final(self).dim_spec() == dim as int,
            final(self).store() == old(self).store(),
    {
        self.tokenizer = Some(tokenizer);
        self.dim = dim;
        Ok(())
    }

    /// Number of stored chunks.
    pub fn get_count(&self) -> (r: usize)
        ensures
            r as int == self.store().len(),
    {
        self.chunks.len()
    }

    /// Debug rendering of one chunk, or a sentinel string for an invalid
    /// index.
    pub fn debug_print_chunk(&self, index: usize) -> (r: String)
        ensures
            index < self.store().len() ==> r@ == "["@ + self.store()[index as int].doc_id + "] "@
                + self.store()[index as int].content,
            index >= self.store().len() ==> r@ == "Index out of bounds"@,
    {
        if index < self.chunks.len() {
            let mut s = "[".to_owned();
            s.append(self.chunks[index].doc_id.as_str());
            s.append("] ");
            s.append(self.chunks[index].content.as_str());
            s
        } else {
            "Index out of bounds".to_owned()
        }
    }

    /// Plans the ingestion of one document: a detected chat export is parsed
    /// into records, one unit per record; anything else is split by the
    /// chunk-boundary policy, so the units are trimmed non-empty substrings
    /// of the content in the order of their source spans, and content with a
    /// non-whitespace character yields at least one. Whitespace-only content
    /// yields no units. Fails exactly when no provider is attached, with
    /// `ProviderNotAttached`: the attached tokenizer encodes every text
    /// (`attach_embedder`'s contract), so planning itself cannot fail.
    pub fn prepare_document(&self, doc_id: &str, content: &str) -> (r: Result<
        Vec<ChatRecord>,
        IndexError,
    >)
        requires
            self.wf(),
        ensures
            !self.attached() ==> r == Result::<Vec<ChatRecord>, IndexError>::Err(
                IndexError::ProviderNotAttached,
            ),
            self.attached() ==> r is Ok,
            match r {
                Result::Ok(units) => {
                    &&& (is_export_spec(content@) ==> rec_views(units@) == finalize_records(
                        parse_spec(content@),
                    ))
                    &&& (!is_export_spec(content@) ==> {
                        &&& forall|j: int|
                            0 <= j < units@.len() ==> (#[trigger] units@[j]@).sender is None
                                && units@[j]@.date is None && is_substring(
                                units@[j]@.content,
                                content@,
                            )
                        &&& chunks_in_order(units_contents(units@), content@)
                        &&& ((exists|k: int|
                            0 <= k < content@.len() && !crate::text::is_space(
                                #[trigger] content@[k],
                            )) ==> units@.len() > 0)
                    })
                    &&& forall|j: int|
                        0 <= j < units@.len() ==> (#[trigger] units@[j]@).content.len() > 0
                            && is_trimmed(units@[j]@.content)
                    &&& (all_space(content@) ==> units@.len() == 0)
                },
                Result::Err(e) => e == IndexError::ProviderNotAttached && !self.attached(),
            },
    {
        let tokenizer = match &self.tokenizer {
            Some(t) => t,
            None => {
                return Err(IndexError::ProviderNotAttached);
            },
        };
        proof {
            if all_space(content@) {
                lemma_all_space_not_export(content@);
            }
        }
        if is_whatsapp_export(content) {
            let recs = parse_whatsapp(content);
            let ghost rviews = rec_views(recs@);
            let mut units: Vec<ChatRecord> = Vec::new();
            let mut i: usize = 0;
            proof {
                assert(rec_views(units@) =~= finalize_records(rviews.take(0)));
            }
            while i < recs.len()
                invariant
                    i <= recs@.len(),
                    rviews == rec_views(recs@),
                    rec_views(units@) == finalize_records(rviews.take(i as int)),
                    forall|j: int|
                        0 <= j < units@.len() ==> (#[trigger] units@[j]@).content.len() > 0
                            && is_trimmed(units@[j]@.content),
                decreases recs@.len() - i,
            {
                let rec = &recs[i];
                let t = trim_str(rec.content.as_str());
                let ghost prev = rec_views(units@);
                proof {
                    crate::text::lemma_trim_trimmed(rec.content@);
                    assert(rviews.take(i as int + 1).drop_last() =~= rviews.take(i as int));
                    assert(rviews.take(i as int + 1).last() == rviews[i as int]);
                }
                if !t.as_str().is_empty() {
                    let unit = ChatRecord {
                        content: t,
                        sender: crate::models::clone_opt_string(&rec.sender),
                        date: crate::models::clone_opt_string(&rec.date),
                    };
                    units.push(unit);
                    proof {
                        assert(rec_views(units@) =~= prev.push(unit@));
                    }
                }
                i = i + 1;
            }
            proof {
                assert(rviews.take(recs@.len() as int) =~= rviews);
            }
            Ok(units)
        } else {
            proof {
                assert(forall|s: Seq<char>| encodes_ok(*tokenizer, s));
            }
            let chunks = match split_document(tokenizer, doc_id, content) {
                Ok(c) => c,
                Err(e) => {
                    // unreachable: split_document succeeds on the attached
                    // tokenizer
                    return Err(e);
                },
            };
            let mut units: Vec<ChatRecord> = Vec::new();
            let mut i: usize = 0;
            proof {
                assert(units_contents(units@) =~= str_views(chunks@).take(0));
            }
            while i < chunks.len()
                invariant
                    i <= chunks@.len(),
                    forall|j: int|
                        0 <= j < chunks@.len() ==> is_trimmed(#[trigger] chunks@[j]@)
                            && chunks@[j]@.len() > 0 && is_substring(chunks@[j]@, content@),
                    forall|j: int|
                        0 <= j < units@.len() ==> (#[trigger] units@[j]@).content.len() > 0
                            && is_trimmed(units@[j]@.content) && units@[j]@.sender is None
                            && units@[j]@.date is None && is_substring(
                            units@[j]@.content,
                            content@,
                        ),
                    units@.len() == i,
                    units_contents(units@) == str_views(chunks@).take(i as int),
                decreases chunks@.len() - i,
            {
                let ghost prev = units_contents(units@);
                let c = chunks[i].clone();
                units.push(ChatRecord { content: c, sender: None, date: None });
                proof {
                    assert(units_contents(units@) =~= prev.push(c@));
                    assert(str_views(chunks@).take(i as int + 1) =~= str_views(chunks@).take(
                        i as int,
                    ).push(chunks@[i as int]@));
                }
                i = i + 1;
            }
            proof {
                assert(str_views(chunks@).take(chunks@.len() as int) =~= str_views(chunks@));
                assert(units_contents(units@) == str_views(chunks@));
            }
            Ok(units)
        }
    }

    /// Appends one embedded unit to the store. The embedding must have the
    /// attached dimension and be unit-normalized in fixed point (norm within
    /// tolerance of 1). Fails with `ProviderNotAttached` (and stores
    /// nothing) when no provider is attached.
    pub fn store_chunk(&mut self, doc_id: &str, unit: ChatRecord, embedding: Vec<i64>) -> (r:
        Result<(), IndexError>)
        requires
            old(self).wf(),
            old(self).attached() ==> embedding@.len() == old(self).dim_spec() && bounded(
                embedding@,
                EMBED_SCALE as int,
            ) && norm_ok(embedding@) && unit.content@.len() > 0 && is_trimmed(unit.content@),
        ensures
            final(self).wf(),
            final(self).attached() == old(self).attached(),
            final(self).dim_spec() == old(self).dim_spec(),
            !old(self).attached() ==> r == Result::<(), IndexError>::Err(
                IndexError::ProviderNotAttached,
            ) && final(self).store() == old(self).store(),
            old(self).attached() ==> r is Ok && final(self).store() == old(self).store().push(
                ChunkView {
                    doc_id: doc_id@,
                    content: unit.content@,
                    sender: opt_view(unit.sender),
                    date: opt_view(unit.date),
                    embedding: embedding@,
                },
            ),
    {
        if self.tokenizer.is_none() {
            return Err(IndexError::ProviderNotAttached);
        }
        let ghost prev = self.store();
        let chunk = TextChunk {
            doc_id: doc_id.to_owned(),
            content: unit.content,
            sender: unit.sender,
            date: unit.date,
            embedding,
        };
        self.chunks.push(chunk);
        proof {
            assert(self.store() =~= prev.push(chunk@));
        }
        Ok(())
    }

    /// Ranks the stored chunks against a query vector: scores by dot
    /// product, sorts descending, filters by the optional threshold,
    /// truncates to `top_k`. Fails with `ProviderNotAttached` when no
    /// provider is attached. The result is a function of the store and the
    /// arguments alone: repeating the call yields the same results in the
    /// same order.
    pub fn rank(&self, query: &Vec<i64>, top_k: usize, threshold: Option<i64>) -> (r: Result<
        Vec<SearchResult>,
        IndexError,
    >)
        requires
            self.wf(),
            self.attached() ==> query@.len() == self.dim_spec() && bounded(
                query@,
                EMBED_SCALE as int,
            ),
        ensures
            !self.attached() ==> r == Result::<Vec<SearchResult>, IndexError>::Err(
                IndexError::ProviderNotAttached,
            ),
            self.attached() ==> match r {
                Result::Ok(res) => res_views(res@) == rank_spec(
                    self.store(),
                    query@,
                    top_k,
                    threshold,
                ) && res@.len() <= top_k && res@.len() <= self.store().len(),
                Result::Err(_) => false,
            },
    {
        if self.tokenizer.is_none() {
            return Err(IndexError::ProviderNotAttached);
        }
        proof {
            assert forall|j: int| 0 <= j < self.chunks@.len() implies bounded(
                #[trigger] self.chunks@[j].embedding@,
                EMBED_SCALE as int,
            ) by {
                assert(chunk_ok(self.store()[j], self.dim as int));
                assert(self.store()[j] == self.chunks@[j]@);
            }
        }
        let res = rank_chunks(&self.chunks, query, top_k, threshold);
        Ok(res)
    }
}

} // verus!
