//! The relevance scorer: bounds, ordering, case folding, and exact
//! fixed-point values for small corpora.

use smart_memory::memory::{Memory, MemoryId, MemoryMetadata};
use smart_memory::relevance::{RelevanceScore, TfIdfScorer, SCORE_SCALE};
use smart_memory::tokenizer::TokenCount;

fn memory_with(content: &str, metadata: MemoryMetadata) -> Memory {
    Memory {
        id: MemoryId::new(),
        content: content.to_string(),
        content_type: "text/plain".to_string(),
        category: None,
        mode: None,
        metadata,
        token_count: TokenCount::new(1),
        created_at: 1000,
        last_accessed: 1000,
    }
}

#[test]
fn scenario_query_terms_rank_matching_memory_first() {
    // The query's terms appear repeatedly in X and not at all in Y; all
    // other inputs are equal, so X outranks Y.
    let x = memory_with("rust compiler error rust compiler", MemoryMetadata::new());
    let y = memory_with("gardening and watering plants", MemoryMetadata::new());
    let memories = vec![y, x];
    let scored = TfIdfScorer::new().score_memories(&memories, "code", Some("rust compiler"));
    assert_eq!(scored.len(), 2);
    assert_eq!(scored[0].memory.content, "rust compiler error rust compiler");
    assert!(scored[0].score.value() > scored[1].score.value());
}

#[test]
fn scores_stay_in_bounds() {
    let mut meta = MemoryMetadata::new();
    for i in 0..40 {
        meta.insert(format!("key{}", i), "v".to_string());
    }
    let memories = vec![
        memory_with("", MemoryMetadata::new()),
        memory_with("a a a a a a a a", meta),
    ];
    // a query that matches nothing, then no query at all
    for query in [Some("zzz unseen term"), None] {
        let scored = TfIdfScorer::new().score_memories(&memories, "debug", query);
        for sm in &scored {
            assert!(sm.score.value() <= SCORE_SCALE);
        }
    }
    // an empty corpus never errors
    let empty: Vec<Memory> = Vec::new();
    let scored = TfIdfScorer::new().score_memories(&empty, "code", Some("anything"));
    assert!(scored.is_empty());
}

#[test]
fn query_matching_is_case_insensitive() {
    let x = memory_with("Hello World HELLO", MemoryMetadata::new());
    let y = memory_with("something else entirely", MemoryMetadata::new());
    let memories = vec![y, x];
    let scored = TfIdfScorer::new().score_memories(&memories, "code", Some("hELLo"));
    assert_eq!(scored[0].memory.content, "Hello World HELLO");
    assert!(scored[0].score.value() > scored[1].score.value());
}

#[test]
fn output_is_sorted_descending() {
    let memories = vec![
        memory_with("alpha beta", MemoryMetadata::new()),
        memory_with("alpha alpha alpha", MemoryMetadata::new()),
        memory_with("gamma delta", MemoryMetadata::new()),
        memory_with("alpha gamma", MemoryMetadata::new()),
    ];
    let scored = TfIdfScorer::new().score_memories(&memories, "code", Some("alpha"));
    for w in scored.windows(2) {
        assert!(w[0].score.value() >= w[1].score.value());
    }
}

#[test]
fn metadata_score_exact_value() {
    // One metadata key, "language", in "code" mode: weight 0.8 over a
    // table of four entries gives a metadata score of 0.2. The query term
    // appears nowhere, so the content score is zero and the combined score
    // is exactly 0.3 * 0.2 = 0.06, i.e. 60000 millionths.
    let mut meta = MemoryMetadata::new();
    meta.insert("language".to_string(), "rust".to_string());
    let memories = vec![memory_with("unrelated words here", meta)];
    let scored = TfIdfScorer::new().score_memories(&memories, "code", Some("absent"));
    assert_eq!(scored[0].score.value(), 60_000);
}

#[test]
fn tf_idf_exact_value_two_documents() {
    // X = "apple banana", Y = "cherry date", query "apple": the term is in
    // one of two documents, so idf = ln 2 = 693147 millionths; its
    // frequency in X is 1/2, so tf = 500000. The tf-idf product is
    // 346573 millionths; weighted at 70% the final score is 242601.
    let x = memory_with("apple banana", MemoryMetadata::new());
    let y = memory_with("cherry date", MemoryMetadata::new());
    let memories = vec![x, y];
    let scored = TfIdfScorer::new().score_memories(&memories, "code", Some("apple"));
    assert_eq!(scored[0].memory.content, "apple banana");
    assert_eq!(scored[0].score.value(), 242_601);
    assert_eq!(scored[1].score.value(), 0);
}

#[test]
fn ties_keep_input_order() {
    // Two identical memories score identically; the stable sort keeps
    // their input order.
    let a = memory_with("same words", MemoryMetadata::new());
    let b = memory_with("same words", MemoryMetadata::new());
    let ida = a.id.as_str().to_string();
    let idb = b.id.as_str().to_string();
    let memories = vec![a, b];
    let scored = TfIdfScorer::new().score_memories(&memories, "code", Some("same"));
    assert_eq!(scored[0].score.value(), scored[1].score.value());
    assert_eq!(scored[0].memory.id.as_str(), ida);
    assert_eq!(scored[1].memory.id.as_str(), idb);
}

#[test]
fn relevance_score_clamps() {
    assert_eq!(RelevanceScore::new(2_000_000).value(), SCORE_SCALE);
    assert_eq!(RelevanceScore::new(123).value(), 123);
    assert_eq!(RelevanceScore::new(SCORE_SCALE).value(), SCORE_SCALE);
}
