use semindex::models::TextChunk;
use semindex::ranking::{dot_product, rank_chunks};

fn chunk(doc_id: &str, content: &str, embedding: Vec<i64>) -> TextChunk {
    TextChunk {
        doc_id: doc_id.to_string(),
        content: content.to_string(),
        sender: None,
        date: None,
        embedding,
    }
}

fn sample_chunks() -> Vec<TextChunk> {
    vec![
        chunk("a", "first", vec![1000000, 0]),
        chunk("b", "second", vec![0, 1000000]),
        chunk("c", "third", vec![707000, 707000]),
    ]
}

#[test]
fn dot_product_exact_value() {
    let a = vec![1000000i64, 0];
    let b = vec![500000i64, 250000];
    assert_eq!(dot_product(&a, &b), 500000000000i64);
}

#[test]
fn dot_product_uses_common_prefix() {
    let a = vec![2i64, 3, 100];
    let b = vec![5i64, 7];
    assert_eq!(dot_product(&a, &b), 2 * 5 + 3 * 7);
}

#[test]
fn rank_orders_by_score_descending() {
    let chunks = sample_chunks();
    let q = vec![1000000i64, 0];
    let res = rank_chunks(&chunks, &q, 10, None);
    assert_eq!(res.len(), 3);
    assert_eq!(res[0].doc_id, "a");
    assert_eq!(res[0].score, 1000000000000i64);
    assert_eq!(res[1].doc_id, "c");
    assert_eq!(res[1].score, 707000000000i64);
    assert_eq!(res[2].doc_id, "b");
    assert_eq!(res[2].score, 0);
}

#[test]
fn rank_ties_keep_insertion_order() {
    let chunks = vec![
        chunk("x", "one", vec![500000, 0]),
        chunk("y", "two", vec![500000, 0]),
    ];
    let q = vec![1000000i64, 0];
    let res = rank_chunks(&chunks, &q, 10, None);
    assert_eq!(res.len(), 2);
    assert_eq!(res[0].doc_id, "x");
    assert_eq!(res[1].doc_id, "y");
}

#[test]
fn rank_top_k_zero_is_empty() {
    let chunks = sample_chunks();
    let q = vec![1000000i64, 0];
    let res = rank_chunks(&chunks, &q, 0, None);
    assert_eq!(res.len(), 0);
}

#[test]
fn rank_top_k_above_store_size_is_capped() {
    let chunks = sample_chunks();
    let q = vec![1000000i64, 0];
    let res = rank_chunks(&chunks, &q, 100, None);
    assert_eq!(res.len(), 3);
}

#[test]
fn rank_threshold_filters_low_scores() {
    let chunks = sample_chunks();
    let q = vec![1000000i64, 0];
    let res = rank_chunks(&chunks, &q, 10, Some(700000000000));
    assert_eq!(res.len(), 2);
    assert_eq!(res[0].doc_id, "a");
    assert_eq!(res[1].doc_id, "c");
}

#[test]
fn rank_higher_threshold_gives_prefix() {
    let chunks = sample_chunks();
    let q = vec![1000000i64, 0];
    let lo = rank_chunks(&chunks, &q, 10, Some(0));
    let hi = rank_chunks(&chunks, &q, 10, Some(800000000000));
    assert!(hi.len() <= lo.len());
    for i in 0..hi.len() {
        assert_eq!(hi[i], lo[i]);
    }
    assert_eq!(hi.len(), 1);
    assert_eq!(hi[0].doc_id, "a");
}

#[test]
fn rank_twice_is_identical() {
    let chunks = sample_chunks();
    let q = vec![600000i64, 400000];
    let r1 = rank_chunks(&chunks, &q, 5, Some(100000000000));
    let r2 = rank_chunks(&chunks, &q, 5, Some(100000000000));
    assert_eq!(r1, r2);
}

#[test]
fn rank_carries_chunk_metadata() {
    let chunks = vec![TextChunk {
        doc_id: "chat.txt".to_string(),
        content: "hello".to_string(),
        sender: Some("Alice".to_string()),
        date: Some("1/2/24, 10:00:00".to_string()),
        embedding: vec![1000000, 0],
    }];
    let q = vec![1000000i64, 0];
    let res = rank_chunks(&chunks, &q, 1, None);
    assert_eq!(res.len(), 1);
    assert_eq!(res[0].sender.as_deref(), Some("Alice"));
    assert_eq!(res[0].date.as_deref(), Some("1/2/24, 10:00:00"));
    assert_eq!(res[0].content, "hello");
}
