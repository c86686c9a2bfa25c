//! The context optimizer: threshold exclusion, the token budget, the
//! first-memory exception, and determinism.

use smart_memory::memory::{Memory, MemoryId, MemoryMetadata};
use smart_memory::relevance::{RelevanceScore, ScoredMemory};
use smart_memory::optimizer::TokenBudgetOptimizer;
use smart_memory::tokenizer::TokenCount;

fn scored(content: &str, score_millionths: u64, tokens: u64) -> ScoredMemory {
    let memory = Memory {
        id: MemoryId::new(),
        content: content.to_string(),
        content_type: "text/plain".to_string(),
        category: None,
        mode: None,
        metadata: MemoryMetadata::new(),
        token_count: TokenCount::new(tokens),
        created_at: 1000,
        last_accessed: 1000,
    };
    ScoredMemory { memory, score: RelevanceScore::new(score_millionths) }
}

fn contents(out: &[ScoredMemory]) -> Vec<String> {
    out.iter().map(|sm| sm.memory.content.clone()).collect()
}

#[test]
fn scenario_oversized_leader_alone() {
    // C(.95, 900), A(.90, 500), B(.60, 300); threshold .5; budget 700.
    // C alone exceeds the budget but is first, so it is included; A would
    // push the total past the budget with a non-empty selection, so the
    // optimizer stops. The output is exactly [C] with 900 tokens.
    let list = vec![
        scored("C", 950_000, 900),
        scored("A", 900_000, 500),
        scored("B", 600_000, 300),
    ];
    let out = TokenBudgetOptimizer::new().optimize(
        &list,
        TokenCount::new(700),
        RelevanceScore::new(500_000),
    );
    assert_eq!(contents(&out), vec!["C".to_string()]);
    assert_eq!(out[0].memory.token_count.as_u64(), 900);
}

#[test]
fn scenario_budget_fits_two() {
    // The same three memories with budget 1500: C(900) + A(500) = 1400
    // fits; adding B would reach 1700, so the output is [C, A].
    let list = vec![
        scored("C", 950_000, 900),
        scored("A", 900_000, 500),
        scored("B", 600_000, 300),
    ];
    let out = TokenBudgetOptimizer::new().optimize(
        &list,
        TokenCount::new(1500),
        RelevanceScore::new(500_000),
    );
    assert_eq!(contents(&out), vec!["C".to_string(), "A".to_string()]);
}

#[test]
fn threshold_excludes_low_scores() {
    let list = vec![
        scored("keep", 800_000, 10),
        scored("drop", 699_999, 10),
        scored("keep2", 700_000, 10),
    ];
    let out = TokenBudgetOptimizer::new().optimize(
        &list,
        TokenCount::new(1000),
        RelevanceScore::new(700_000),
    );
    assert_eq!(contents(&out), vec!["keep".to_string(), "keep2".to_string()]);
    for sm in &out {
        assert!(sm.score.value() >= 700_000);
    }
}

#[test]
fn budget_not_exceeded_in_ordinary_runs() {
    let list = vec![
        scored("a", 900_000, 400),
        scored("b", 850_000, 400),
        scored("c", 800_000, 400),
    ];
    let out = TokenBudgetOptimizer::new().optimize(
        &list,
        TokenCount::new(1000),
        RelevanceScore::new(0),
    );
    let total: u64 = out.iter().map(|sm| sm.memory.token_count.as_u64()).sum();
    assert!(total <= 1000);
    assert_eq!(out.len(), 2);
}

#[test]
fn optimizer_is_deterministic() {
    let list = vec![
        scored("a", 900_000, 400),
        scored("b", 850_000, 300),
        scored("c", 600_000, 200),
    ];
    let optimizer = TokenBudgetOptimizer::new();
    let first = optimizer.optimize(&list, TokenCount::new(600), RelevanceScore::new(500_000));
    let second = optimizer.optimize(&list, TokenCount::new(600), RelevanceScore::new(500_000));
    assert_eq!(contents(&first), contents(&second));
    let s1: Vec<u64> = first.iter().map(|sm| sm.score.value()).collect();
    let s2: Vec<u64> = second.iter().map(|sm| sm.score.value()).collect();
    assert_eq!(s1, s2);
}

#[test]
fn zero_budget_still_takes_the_leader() {
    let list = vec![scored("only", 900_000, 50), scored("next", 800_000, 1)];
    let out = TokenBudgetOptimizer::new().optimize(
        &list,
        TokenCount::new(0),
        RelevanceScore::new(0),
    );
    assert_eq!(contents(&out), vec!["only".to_string()]);
}

#[test]
fn empty_input_empty_output() {
    let list: Vec<ScoredMemory> = Vec::new();
    let out = TokenBudgetOptimizer::new().optimize(
        &list,
        TokenCount::new(100),
        RelevanceScore::new(0),
    );
    assert!(out.is_empty());
}
