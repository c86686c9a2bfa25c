//! The memory store over the in-memory repository: round trips, access
//! times, aggregates, and the tokenizer.

use smart_memory::assemble::build_context;
use smart_memory::memory::MemoryMetadata;
use smart_memory::optimizer::TokenBudgetOptimizer;
use smart_memory::relevance::{RelevanceScore, TfIdfScorer};
use smart_memory::store::MemoryStore;
use smart_memory::tokenizer::{TokenCount, Tokenizer, TokenizerType};

fn simple_store() -> MemoryStore<smart_memory::repository::InMemoryRepository> {
    MemoryStore::new_in_memory(Tokenizer::new(TokenizerType::Simple))
}

#[test]
fn round_trip_preserves_content_and_count() {
    let mut store = simple_store();
    let stored = store
        .store(
            "hello world from the store".to_string(),
            "text/plain".to_string(),
            Some("context".to_string()),
            Some("code".to_string()),
            MemoryMetadata::new(),
        )
        .unwrap();
    assert_eq!(stored.token_count.as_u64(), 5);
    let got = store.retrieve(&stored.id).unwrap().unwrap();
    assert_eq!(got.content, "hello world from the store");
    assert_eq!(got.token_count.as_u64(), stored.token_count.as_u64());
    assert_eq!(got.category.as_deref(), Some("context"));
    assert_eq!(got.mode.as_deref(), Some("code"));
    // a second retrieval returns the same content and the same count
    let again = store.retrieve(&stored.id).unwrap().unwrap();
    assert_eq!(again.content, got.content);
    assert_eq!(again.token_count.as_u64(), got.token_count.as_u64());
}

#[test]
fn access_time_never_decreases() {
    let mut store = simple_store();
    let stored = store
        .store("watched memory".to_string(), "text/plain".to_string(), None, None, MemoryMetadata::new())
        .unwrap();
    let first = store.retrieve(&stored.id).unwrap().unwrap();
    let second = store.retrieve(&stored.id).unwrap().unwrap();
    let third = store.retrieve(&stored.id).unwrap().unwrap();
    assert!(first.last_accessed >= stored.last_accessed);
    assert!(second.last_accessed >= first.last_accessed);
    assert!(third.last_accessed >= second.last_accessed);
}

#[test]
fn total_tokens_matches_sum_over_ids() {
    let mut store = simple_store();
    for content in ["one", "two words", "three words here", "now four words total"] {
        store
            .store(content.to_string(), "text/plain".to_string(), None, None, MemoryMetadata::new())
            .unwrap();
    }
    let ids = store.get_all_ids().unwrap();
    assert_eq!(ids.len(), 4);
    let mut sum = 0u64;
    for id in &ids {
        let m = store.retrieve(id).unwrap().unwrap();
        sum += m.token_count.as_u64();
    }
    assert_eq!(sum, 1 + 2 + 3 + 4);
    assert_eq!(store.total_tokens().unwrap().as_u64(), sum);
}

#[test]
fn scenario_same_content_twice() {
    // Storing the same content twice yields two distinct ids with equal
    // token counts and equal content but independent access times.
    let mut store = simple_store();
    let a = store
        .store("duplicate content here".to_string(), "text/plain".to_string(), None, None, MemoryMetadata::new())
        .unwrap();
    let b = store
        .store("duplicate content here".to_string(), "text/plain".to_string(), None, None, MemoryMetadata::new())
        .unwrap();
    assert_ne!(a.id.as_str(), b.id.as_str());
    assert_eq!(a.token_count.as_u64(), b.token_count.as_u64());
    assert_eq!(a.content, b.content);
    // touching one leaves the other's access time alone
    let _ = store.retrieve(&a.id).unwrap().unwrap();
    let b_again = store.retrieve(&b.id).unwrap().unwrap();
    assert_eq!(store.get_all_ids().unwrap().len(), 2);
    assert!(b_again.last_accessed >= b.last_accessed);
}

#[test]
fn missing_id_is_not_an_error() {
    let mut store = simple_store();
    let stored = store
        .store("present".to_string(), "text/plain".to_string(), None, None, MemoryMetadata::new())
        .unwrap();
    let absent = smart_memory::memory::MemoryId::from_string("mem_00000000".to_string());
    assert!(store.retrieve(&absent).unwrap().is_none());
    assert!(store.retrieve(&stored.id).unwrap().is_some());
}

#[test]
fn simple_tokenizer_counts_whitespace_segments() {
    let t = Tokenizer::new(TokenizerType::Simple);
    assert_eq!(t.count_tokens("hello world").as_u64(), 2);
    assert_eq!(t.count_tokens("  spaced   out  words  ").as_u64(), 3);
    assert_eq!(t.count_tokens("").as_u64(), 0);
    assert_eq!(t.count_tokens("\t\n ").as_u64(), 0);
    assert_eq!(t.count_tokens("one").as_u64(), 1);
    // the splitter covers the whole Unicode white-space set, not just the
    // ASCII part
    assert_eq!(t.count_tokens("a\u{a0}b").as_u64(), 2);
    assert_eq!(t.count_tokens("x\u{2003}y\u{3000}z").as_u64(), 3);
    assert_eq!(t.count_tokens("\u{2028}\u{85}").as_u64(), 0);
}

#[test]
fn shutdown_flag_is_sticky() {
    let mut flag = smart_memory::shutdown::ShutdownFlag::new();
    assert!(!flag.is_shutdown_requested());
    flag.request_shutdown();
    assert!(flag.is_shutdown_requested());
    flag.request_shutdown();
    assert!(flag.is_shutdown_requested());
}

#[test]
fn model_tokenizer_falls_back_to_length_heuristic() {
    // No model file is present, so the model-backed strategies estimate a
    // quarter of the character length, rounded, and at least one.
    let t = Tokenizer::new(TokenizerType::Gpt2);
    assert_eq!(t.count_tokens("").as_u64(), 1);
    assert_eq!(t.count_tokens("a").as_u64(), 1);
    assert_eq!(t.count_tokens("abcdefghij").as_u64(), 3); // 10 chars -> 2.5 -> 3
    assert_eq!(t.count_tokens("abcdefgh").as_u64(), 2); // 8 chars -> 2
    let c = Tokenizer::new(TokenizerType::Cl100k);
    assert_eq!(c.count_tokens("abcd").as_u64(), 1);
}

#[test]
fn metadata_insert_get_and_replace() {
    let mut meta = MemoryMetadata::new();
    meta.insert("language".to_string(), "rust".to_string());
    meta.insert("file".to_string(), "main.rs".to_string());
    assert_eq!(meta.get("language").map(|s| s.as_str()), Some("rust"));
    assert_eq!(meta.get("file").map(|s| s.as_str()), Some("main.rs"));
    assert_eq!(meta.get("absent"), None);
    meta.insert("language".to_string(), "python".to_string());
    assert_eq!(meta.get("language").map(|s| s.as_str()), Some("python"));
    assert_eq!(meta.len(), 2);
}

#[test]
fn minted_ids_have_the_expected_shape() {
    let id = smart_memory::memory::MemoryId::new();
    let s = id.as_str();
    assert_eq!(s.len(), 12);
    assert!(s.starts_with("mem_"));
    for c in s[4..].chars() {
        assert!(c.is_ascii_hexdigit());
        assert!(!c.is_ascii_uppercase());
    }
}

#[test]
fn end_to_end_context_pipeline() {
    let mut store = simple_store();
    for content in [
        "rust borrow checker lifetimes rust",
        "gardening tips for spring",
        "rust async runtimes compared",
    ] {
        store
            .store(content.to_string(), "text/plain".to_string(), None, None, MemoryMetadata::new())
            .unwrap();
    }
    let scorer = TfIdfScorer::new();
    let optimizer = TokenBudgetOptimizer::new();
    let bundle = build_context(
        &mut store,
        &scorer,
        &optimizer,
        "code",
        Some("rust"),
        TokenCount::new(100),
        RelevanceScore::new(1),
    )
    .unwrap();
    // both rust memories score above the floor and fit the budget; the
    // gardening memory scores zero and is excluded
    assert_eq!(bundle.sources.len(), 2);
    assert!(bundle.context.contains("rust"));
    assert!(!bundle.context.contains("gardening"));
    assert!(bundle.token_count <= 100);
}
