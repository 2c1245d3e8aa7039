use semindex::index::VectorDatabase;
use semindex::models::{ChatRecord, IndexError};

fn tiny_tokenizer() -> tokenizers::Tokenizer {
    let json = r#"{"version":"1.0","truncation":null,"padding":null,"added_tokens":[],"normalizer":null,"pre_tokenizer":{"type":"Whitespace"},"post_processor":null,"decoder":null,"model":{"type":"WordLevel","vocab":{"[UNK]":0},"unk_token":"[UNK]"}}"#;
    tokenizers::Tokenizer::from_bytes(json.as_bytes()).unwrap()
}

fn unit(content: &str) -> ChatRecord {
    ChatRecord { content: content.to_string(), sender: None, date: None }
}

#[test]
fn operations_before_attach_fail() {
    let mut db = VectorDatabase::new();
    assert!(!db.is_attached());
    match db.prepare_document("a.txt", "some content") {
        Err(IndexError::ProviderNotAttached) => {}
        _ => panic!("prepare_document must fail before attach"),
    }
    match db.store_chunk("a.txt", unit("hello"), vec![0, 0]) {
        Err(IndexError::ProviderNotAttached) => {}
        _ => panic!("store_chunk must fail before attach"),
    }
    match db.rank(&vec![0i64, 0], 5, None) {
        Err(IndexError::ProviderNotAttached) => {}
        _ => panic!("rank must fail before attach"),
    }
    assert_eq!(db.get_count(), 0);
}

#[test]
fn attach_then_operations_succeed() {
    let mut db = VectorDatabase::new();
    assert!(db.attach_embedder(tiny_tokenizer(), 2).is_ok());
    assert!(db.is_attached());
    assert!(db.prepare_document("a.txt", "hello world").is_ok());
    assert!(db.rank(&vec![0i64, 0], 5, None).is_ok());
}

#[test]
fn empty_document_yields_no_units() {
    let mut db = VectorDatabase::new();
    db.attach_embedder(tiny_tokenizer(), 2).unwrap();
    let units = db.prepare_document("a.txt", "").unwrap();
    assert_eq!(units.len(), 0);
    let units = db.prepare_document("a.txt", "   \n\t   \n").unwrap();
    assert_eq!(units.len(), 0);
    assert_eq!(db.get_count(), 0);
}

#[test]
fn short_paragraph_is_one_trimmed_chunk() {
    let mut db = VectorDatabase::new();
    db.attach_embedder(tiny_tokenizer(), 2).unwrap();
    let units = db.prepare_document("a.txt", "  hello world  ").unwrap();
    assert_eq!(units.len(), 1);
    assert_eq!(units[0].content, "hello world");
    assert_eq!(units[0].sender, None);
    assert_eq!(units[0].date, None);
}

#[test]
fn long_document_splits_under_budget() {
    let tok = tiny_tokenizer();
    let mut db = VectorDatabase::new();
    db.attach_embedder(tiny_tokenizer(), 2).unwrap();
    let mut doc = String::new();
    for i in 0..250 {
        doc.push_str(&format!("word{} ", i));
    }
    let units = db.prepare_document("long.txt", &doc).unwrap();
    assert!(units.len() > 1);
    let mut last_pos = 0;
    for u in &units {
        assert!(!u.content.trim().is_empty());
        let n_tokens = tok.encode_fast(u.content.as_str(), false).unwrap().len();
        assert!(n_tokens <= 100, "chunk of {} tokens exceeds the budget", n_tokens);
        // chunks appear in the order of their source spans
        let pos = doc[last_pos..].find(u.content.as_str()).expect("chunk not found in source");
        last_pos += pos + u.content.len();
    }
}

#[test]
fn unencodable_document_reports_tokenization_error() {
    // A word-level tokenizer whose unk token is missing from its vocab
    // cannot encode unknown words, so it falls outside attach_embedder's
    // encode-every-text assumption; the splitter's probe still degrades to
    // a typed error rather than a panic.
    let json = r#"{"version":"1.0","truncation":null,"padding":null,"added_tokens":[],"normalizer":null,"pre_tokenizer":{"type":"Whitespace"},"post_processor":null,"decoder":null,"model":{"type":"WordLevel","vocab":{"hello":0},"unk_token":"[UNK]"}}"#;
    let tok = tokenizers::Tokenizer::from_bytes(json.as_bytes()).unwrap();
    let mut db = VectorDatabase::new();
    db.attach_embedder(tok, 2).unwrap();
    match db.prepare_document("a.txt", "hello stranger") {
        Err(IndexError::TokenizationError) => {}
        other => panic!("expected TokenizationError, got {:?}", other.map(|u| u.len())),
    }
    assert_eq!(db.get_count(), 0);
}

#[test]
fn markdown_document_splits() {
    let mut db = VectorDatabase::new();
    db.attach_embedder(tiny_tokenizer(), 2).unwrap();
    let units = db.prepare_document("notes.md", "# Title\n\nSome paragraph text here.").unwrap();
    assert!(!units.is_empty());
    for u in &units {
        assert!(!u.content.is_empty());
    }
}

#[test]
fn whitespace_markdown_yields_no_units() {
    let mut db = VectorDatabase::new();
    db.attach_embedder(tiny_tokenizer(), 2).unwrap();
    let units = db.prepare_document("empty.md", "  \n\n\t ").unwrap();
    assert_eq!(units.len(), 0);
}

#[test]
fn chat_export_is_parsed_per_record() {
    let mut db = VectorDatabase::new();
    db.attach_embedder(tiny_tokenizer(), 2).unwrap();
    let mut content = String::new();
    for i in 0..30 {
        content.push_str(&format!("[1/2/24, 10:00:{:02}] Alice: message number {}\n", i % 60, i));
    }
    assert!(content.chars().count() > 500);
    let units = db.prepare_document("chat.txt", &content).unwrap();
    assert_eq!(units.len(), 30);
    assert_eq!(units[0].content, "message number 0");
    assert_eq!(units[0].sender.as_deref(), Some("Alice"));
    assert_eq!(units[0].date.as_deref(), Some("1/2/24, 10:00:00"));
}

#[test]
fn store_and_inspect_chunks() {
    let mut db = VectorDatabase::new();
    db.attach_embedder(tiny_tokenizer(), 2).unwrap();
    assert!(db.store_chunk("doc.txt", unit("hello"), vec![1000000, 0]).is_ok());
    assert_eq!(db.get_count(), 1);
    assert_eq!(db.debug_print_chunk(0), "[doc.txt] hello");
    assert_eq!(db.debug_print_chunk(5), "Index out of bounds");
}

#[test]
fn search_flow_ranks_stored_chunks() {
    let mut db = VectorDatabase::new();
    db.attach_embedder(tiny_tokenizer(), 2).unwrap();
    db.store_chunk("a.txt", unit("east"), vec![1000000, 0]).unwrap();
    db.store_chunk("b.txt", unit("north"), vec![0, 1000000]).unwrap();
    db.store_chunk("c.txt", unit("northeast"), vec![707000, 707000]).unwrap();
    let res = db.rank(&vec![1000000i64, 0], 2, Some(1000000)).unwrap();
    assert_eq!(res.len(), 2);
    assert_eq!(res[0].doc_id, "a.txt");
    assert_eq!(res[0].content, "east");
    assert_eq!(res[0].score, 1000000000000i64);
    assert_eq!(res[1].doc_id, "c.txt");
    let res2 = db.rank(&vec![1000000i64, 0], 2, Some(1000000)).unwrap();
    assert_eq!(res, res2);
}

#[test]
fn rank_top_k_zero_via_facade() {
    let mut db = VectorDatabase::new();
    db.attach_embedder(tiny_tokenizer(), 2).unwrap();
    db.store_chunk("a.txt", unit("east"), vec![1000000, 0]).unwrap();
    let res = db.rank(&vec![1000000i64, 0], 0, None).unwrap();
    assert_eq!(res.len(), 0);
}

#[test]
fn error_kinds_are_distinct() {
    assert_eq!(IndexError::ProviderNotAttached, IndexError::ProviderNotAttached);
    assert_ne!(IndexError::ProviderNotAttached, IndexError::ConfigParseError);
    assert_ne!(IndexError::TokenizationError, IndexError::InferenceError);
}

#[test]
fn bad_tokenizer_config_is_rejected_by_provider() {
    assert!(tokenizers::Tokenizer::from_bytes(b"not json at all").is_err());
}
