//! Data model of the index: parsed chat records, stored chunks, search
//! results, and the error kinds every fallible operation reports.

use vstd::prelude::*;

verus! {

/// Largest embedding dimension the store accepts. Keeps every dot product of
/// fixed-point vectors within `i64` range (`MAX_DIM * EMBED_SCALE^2 < i64::MAX`).
pub const MAX_DIM: usize = 4000000;

/// The error kinds of the library. Every fallible operation reports failure
/// through these typed, recoverable values.
#[derive(Clone, Copy, Debug, PartialEq, Eq, Structural)]
pub enum IndexError {
    /// Malformed model or tokenizer configuration.
    ConfigParseError,
    /// A text could not be encoded by the tokenizer.
    TokenizationError,
    /// Ingestion or query was attempted before an embedding provider was attached.
    ProviderNotAttached,
    /// The embedding computation itself failed.
    InferenceError,
}

/// One message reconstructed from a chat export, or one generic chunk of a
/// plain document (then `sender` and `date` are `None`).
#[derive(Clone, Debug)]
pub struct ChatRecord {
    pub content: String,
    pub sender: Option<String>,
    pub date: Option<String>,
}

/// Mathematical image of a [`ChatRecord`]: the same fields as character sequences.
pub struct RecordView {
    pub content: Seq<char>,
    pub sender: Option<Seq<char>>,
    pub date: Option<Seq<char>>,
}

pub open spec fn opt_view(o: Option<String>) -> Option<Seq<char>> {
    match o {
        Option::Some(s) => Option::Some(s@),
        Option::None => Option::None,
    }
}

impl View for ChatRecord {
    type V = RecordView;

    open spec fn view(&self) -> RecordView {
        RecordView { content: self.content@, sender: opt_view(self.sender), date: opt_view(self.date) }
    }
}

pub open spec fn rec_views(s: Seq<ChatRecord>) -> Seq<RecordView> {
    s.map_values(|r: ChatRecord| r@)
}

/// One stored unit of indexed text: content plus provenance and its
/// fixed-point embedding vector.
#[derive(Clone, Debug)]
pub struct TextChunk {
    pub doc_id: String,
    pub content: String,
    pub sender: Option<String>,
    pub date: Option<String>,
    pub embedding: Vec<i64>,
}

/// Mathematical image of a [`TextChunk`].
pub struct ChunkView {
    pub doc_id: Seq<char>,
    pub content: Seq<char>,
    pub sender: Option<Seq<char>>,
    pub date: Option<Seq<char>>,
    pub embedding: Seq<i64>,
}

impl View for TextChunk {
    type V = ChunkView;

    open spec fn view(&self) -> ChunkView {
        ChunkView {
            doc_id: self.doc_id@,
            content: self.content@,
            sender: opt_view(self.sender),
            date: opt_view(self.date),
            embedding: self.embedding@,
        }
    }
}

pub open spec fn chunk_views(s: Seq<TextChunk>) -> Seq<ChunkView> {
    s.map_values(|c: TextChunk| c@)
}

/// One ranked answer to a query: the chunk's fields plus its similarity
/// score, in fixed-point units of `EMBED_SCALE * EMBED_SCALE`.
#[derive(Clone, Debug, PartialEq)]
pub struct SearchResult {
    pub doc_id: String,
    pub content: String,
    pub sender: Option<String>,
    pub date: Option<String>,
    pub score: i64,
}

/// Mathematical image of a [`SearchResult`].
pub struct ResultView {
    pub doc_id: Seq<char>,
    pub content: Seq<char>,
    pub sender: Option<Seq<char>>,
    pub date: Option<Seq<char>>,
    pub score: int,
}

impl View for SearchResult {
    type V = ResultView;

    open spec fn view(&self) -> ResultView {
        ResultView {
            doc_id: self.doc_id@,
            content: self.content@,
            sender: opt_view(self.sender),
            date: opt_view(self.date),
            score: self.score as int,
        }
    }
}

pub open spec fn res_views(s: Seq<SearchResult>) -> Seq<ResultView> {
    s.map_values(|r: SearchResult| r@)
}

/// Clones an optional string, preserving its view.
pub fn clone_opt_string(o: &Option<String>) -> (r: Option<String>)
    ensures
        opt_view(r) == opt_view(*o),
{
    match o {
        Some(s) => Some(s.clone()),
        None => None,
    }
}

} // verus!
