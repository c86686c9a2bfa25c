//! The context optimizer: a single greedy pass that keeps scored memories
//! within a token budget, skipping those below a relevance threshold.
//!
//! One documented quirk is preserved: when the very first eligible memory
//! alone exceeds the budget it is still included (no truncation), so a
//! single oversized leader never yields an empty context. In that one case
//! the output breaks the budget, and it is then exactly that one memory.

use vstd::prelude::*;

use crate::relevance::{RelevanceScore, ScoredMemory, ScoredModel};
use crate::tokenizer::TokenCount;

verus! {

/// The summed token counts of a scored-memory list.
pub open spec fn tokens_of(s: Seq<ScoredModel>) -> int
    decreases s.len(),
{
    if s.len() == 0 {
        0
    } else {
        tokens_of(s.drop_last()) + s.last().memory.token_count
    }
}

/// The greedy pass from an intermediate state: `total` tokens already
/// accepted into `acc`. Skips entries below `threshold`; stops at the first
/// eligible entry that would overflow the budget once anything has been
/// accepted; a first eligible entry that alone exceeds the budget is still
/// taken.
pub open spec fn spec_optimize_from(
    s: Seq<ScoredModel>,
    max_tokens: u64,
    threshold: u64,
    total: int,
    acc: Seq<ScoredModel>,
) -> Seq<ScoredModel>
    decreases s.len(),
{
    if s.len() == 0 {
        acc
    } else {
        let m = s[0];
        if m.score < threshold {
            spec_optimize_from(s.drop_first(), max_tokens, threshold, total, acc)
        } else if total + m.memory.token_count > max_tokens && acc.len() > 0 {
            acc
        } else {
            spec_optimize_from(
                s.drop_first(),
                max_tokens,
                threshold,
                total + m.memory.token_count,
                acc.push(m),
            )
        }
    }
}

/// What the optimizer returns for a scored-memory list, budget and
/// threshold.
pub open spec fn spec_optimize(s: Seq<ScoredModel>, max_tokens: u64, threshold: u64) -> Seq<
    ScoredModel,
> {
    spec_optimize_from(s, max_tokens, threshold, 0, Seq::empty())
}

/// The token-budget context optimizer.
pub struct TokenBudgetOptimizer;

impl TokenBudgetOptimizer {
    /// Create a new token budget optimizer.
    pub fn new() -> (r: TokenBudgetOptimizer)
        ensures
            r == (TokenBudgetOptimizer {  }),
    {
        TokenBudgetOptimizer {  }
    }

    /// Select, in order, the scored memories that fit the token budget,
    /// skipping those whose score is strictly below `relevance_threshold`.
    /// The result is exactly `spec_optimize` of the inputs.
    pub fn optimize(
        &self,
        scored_memories: &Vec<ScoredMemory>,
        max_tokens: TokenCount,
        relevance_threshold: RelevanceScore,
    ) -> (r: Vec<ScoredMemory>)
        requires
            forall|k: int|
                0 <= k < scored_memories@.len() ==> (#[trigger] scored_memories@[k]).memory.wf(),
        ensures
            r@.map_values(|sm: ScoredMemory| sm@) == spec_optimize(
                scored_memories@.map_values(|sm: ScoredMemory| sm@),
                max_tokens.0,
                relevance_threshold.spec_value(),
            ),
            forall|k: int| 0 <= k < r@.len() ==> (#[trigger] r@[k]).memory.wf(),
    {
        let ghost sv = scored_memories@.map_values(|sm: ScoredMemory| sm@);
        let ghost max = max_tokens.0;
        let ghost thr = relevance_threshold.spec_value();
        let mut out: Vec<ScoredMemory> = Vec::new();
        let mut total: u64 = 0;
        let mut i: usize = 0;
        proof {
            assert(sv.skip(0) =~= sv);
            assert(out@.map_values(|sm: ScoredMemory| sm@) =~= Seq::<ScoredModel>::empty());
        }
        while i < scored_memories.len()
            invariant
                i <= scored_memories@.len(),
                sv == scored_memories@.map_values(|sm: ScoredMemory| sm@),
                forall|k: int|
                    0 <= k < scored_memories@.len() ==> (
                    #[trigger] scored_memories@[k]).memory.wf(),
                spec_optimize(sv, max, thr) == spec_optimize_from(
                    sv.skip(i as int),
                    max,
                    thr,
                    total as int,
                    out@.map_values(|sm: ScoredMemory| sm@),
                ),
                out@.len() == 0 ==> total == 0,
                max == max_tokens.0,
                thr == relevance_threshold.spec_value(),
                forall|k: int| 0 <= k < out@.len() ==> (#[trigger] out@[k]).memory.wf(),
            decreases scored_memories.len() - i,
        {
            proof {
                assert(sv.skip(i as int)[0] == sv[i as int]);
                assert(sv.skip(i as int).drop_first() =~= sv.skip(i + 1));
            }
            let sm = &scored_memories[i];
            if sm.score.value() < relevance_threshold.value() {
                i = i + 1;
                continue ;
            }
            let tc = sm.memory.token_count.0;
            let exceeds: bool = match total.checked_add(tc) {
                Some(v) => v > max_tokens.0,
                None => true,
            };
            if exceeds && out.len() > 0 {
                return out;
            }
            let ghost old_out = out@;
            out.push(sm.clone());
            proof {
                assert(out@.map_values(|sm: ScoredMemory| sm@) =~= old_out.map_values(
                    |sm: ScoredMemory| sm@,
                ).push(sv[i as int]));
            }
            total = if exceeds {
                // only reachable for a first memory that alone exceeds the
                // budget: nothing was accepted yet, so the sum fits
                proof {
                    assert(total == 0);
                }
                tc
            } else {
                total + tc
            };
            i = i + 1;
        }
        proof {
            assert(sv.skip(i as int) =~= Seq::<ScoredModel>::empty());
        }
        out
    }
}

impl Default for TokenBudgetOptimizer {
    /// The default optimizer.
    fn default() -> (r: Self)
        ensures
            r == (TokenBudgetOptimizer {  }),
    {
        TokenBudgetOptimizer {  }
    }
}

/// Law (threshold exclusion): the optimizer never includes a memory whose
/// score is strictly below the relevance threshold.
pub proof fn lemma_optimize_threshold(s: Seq<ScoredModel>, max_tokens: u64, threshold: u64)
    ensures
        forall|k: int|
            0 <= k < spec_optimize(s, max_tokens, threshold).len() ==> (#[trigger] spec_optimize(
                s,
                max_tokens,
                threshold,
            )[k]).score >= threshold,
{
    lemma_optimize_from_threshold(s, max_tokens, threshold, 0, Seq::empty());
}

proof fn lemma_optimize_from_threshold(
    s: Seq<ScoredModel>,
    max_tokens: u64,
    threshold: u64,
    total: int,
    acc: Seq<ScoredModel>,
)
    requires
        forall|k: int| 0 <= k < acc.len() ==> (#[trigger] acc[k]).score >= threshold,
    ensures
        forall|k: int|
            0 <= k < spec_optimize_from(s, max_tokens, threshold, total, acc).len() ==> (
            #[trigger] spec_optimize_from(s, max_tokens, threshold, total, acc)[k]).score
                >= threshold,
    decreases s.len(),
{
    if s.len() > 0 {
        let m = s[0];
        if m.score < threshold {
            lemma_optimize_from_threshold(s.drop_first(), max_tokens, threshold, total, acc);
        } else if total + m.memory.token_count > max_tokens && acc.len() > 0 {
        } else {
            assert(forall|k: int|
                0 <= k < acc.push(m).len() ==> (#[trigger] acc.push(m)[k]).score >= threshold);
            lemma_optimize_from_threshold(
                s.drop_first(),
                max_tokens,
                threshold,
                total + m.memory.token_count,
                acc.push(m),
            );
        }
    }
}

/// Law (budget): the summed token counts of the optimizer's output stay
/// within the budget, except in exactly one case — an output of a single
/// memory whose own token count exceeds the budget (the documented
/// first-memory exception).
pub proof fn lemma_optimize_budget(s: Seq<ScoredModel>, max_tokens: u64, threshold: u64)
    ensures
        tokens_of(spec_optimize(s, max_tokens, threshold)) <= max_tokens || (spec_optimize(
            s,
            max_tokens,
            threshold,
        ).len() == 1 && spec_optimize(s, max_tokens, threshold)[0].memory.token_count > max_tokens),
{
    lemma_optimize_from_budget(s, max_tokens, threshold, 0, Seq::empty());
}

proof fn lemma_optimize_from_budget(
    s: Seq<ScoredModel>,
    max_tokens: u64,
    threshold: u64,
    total: int,
    acc: Seq<ScoredModel>,
)
    requires
        total == tokens_of(acc),
        acc.len() == 0 ==> total == 0,
        tokens_of(acc) <= max_tokens || (acc.len() == 1 && acc[0].memory.token_count > max_tokens),
    ensures
        tokens_of(spec_optimize_from(s, max_tokens, threshold, total, acc)) <= max_tokens || (
        spec_optimize_from(s, max_tokens, threshold, total, acc).len() == 1 && spec_optimize_from(
            s,
            max_tokens,
            threshold,
            total,
            acc,
        )[0].memory.token_count > max_tokens),
    decreases s.len(),
{
    if s.len() > 0 {
        let m = s[0];
        if m.score < threshold {
            lemma_optimize_from_budget(s.drop_first(), max_tokens, threshold, total, acc);
        } else if total + m.memory.token_count > max_tokens && acc.len() > 0 {
        } else {
            let acc2 = acc.push(m);
            assert(acc2.drop_last() =~= acc);
            assert(tokens_of(acc2) == total + m.memory.token_count);
            assert(acc2[0].memory.token_count > max_tokens || tokens_of(acc2)
                <= max_tokens) by {
                if total + m.memory.token_count > max_tokens {
                    assert(acc.len() == 0);
                    assert(acc2.len() == 1);
                    assert(acc2[0] == m);
                    assert(total == 0);
                }
            }
            lemma_optimize_from_budget(
                s.drop_first(),
                max_tokens,
                threshold,
                total + m.memory.token_count,
                acc2,
            );
        }
    }
}

/// Law (determinism): the optimizer's output is a function of the
/// scored-memory list, the budget and the threshold alone — equal inputs
/// give equal outputs, with no hidden source of variation.
pub proof fn lemma_optimize_deterministic(
    s1: Seq<ScoredModel>,
    s2: Seq<ScoredModel>,
    max1: u64,
    max2: u64,
    thr1: u64,
    thr2: u64,
)
    requires
        s1 == s2,
        max1 == max2,
        thr1 == thr2,
    ensures
        spec_optimize(s1, max1, thr1) == spec_optimize(s2, max2, thr2),
{
}

} // verus!
