//! Per-category configuration of the memory bank: token budgets,
//! priorities, update triggers, and the relevance threshold. Loading and
//! saving the JSON file is the embedding program's concern; the defaults
//! and the category accessors are exact here.

use vstd::prelude::*;
use vstd::string::StringExecFns;

use crate::memory::str_eq;
use crate::relevance::SCORE_SCALE;
use crate::tokenizer::TokenCount;

verus! {

/// Priority of a memory bank category.
#[derive(Debug, Clone, Copy, PartialEq, Eq, Structural)]
pub enum Priority {
    Low,
    Medium,
    High,
    Critical,
}

/// Configuration of one category.
#[derive(Debug, Clone, Copy, PartialEq, Eq, Structural)]
pub struct CategoryConfig {
    /// Token budget for the category.
    pub max_tokens: u64,
    /// Its priority.
    pub priority: Priority,
}

/// When the memory bank updates itself.
#[derive(Debug, Clone, Copy, PartialEq, Eq, Structural)]
pub struct UpdateTriggersConfig {
    /// Update automatically.
    pub auto_update: bool,
    /// Honor the explicit update command.
    pub umb_command: bool,
}

/// The global token budget.
#[derive(Debug, Clone, Copy, PartialEq, Eq, Structural)]
pub struct TokenBudgetConfig {
    /// Budget across all categories.
    pub total: u64,
    /// Enforce budgets per category.
    pub per_category: bool,
}

/// Relevance scoring knobs. The threshold is a fixed-point score in
/// millionths, on the same scale as `RelevanceScore`.
#[derive(Debug, Clone, Copy, PartialEq, Eq, Structural)]
pub struct RelevanceConfig {
    /// Minimum score for a memory to enter the context.
    pub threshold: u64,
    /// Boost recently touched memories.
    pub boost_recent: bool,
}

/// The memory bank configuration.
#[derive(Debug)]
pub struct MemoryBankConfig {
    /// Per-category configuration, keyed by category name.
    pub categories: Vec<(String, CategoryConfig)>,
    /// Update triggers.
    pub update_triggers: UpdateTriggersConfig,
    /// Token budget.
    pub token_budget: TokenBudgetConfig,
    /// Relevance scoring.
    pub relevance: RelevanceConfig,
}

/// The budget for a category absent from the configuration.
pub const FALLBACK_CATEGORY_TOKENS: u64 = 1000;

/// The first configuration entry for a category name, if any.
pub open spec fn spec_category_lookup(
    cats: Seq<(Seq<char>, CategoryConfig)>,
    name: Seq<char>,
) -> Option<CategoryConfig>
    decreases cats.len(),
{
    if cats.len() == 0 {
        None
    } else if cats[0].0 == name {
        Some(cats[0].1)
    } else {
        spec_category_lookup(cats.drop_first(), name)
    }
}

/// The default categories with their budgets and priorities.
pub open spec fn spec_default_categories() -> Seq<(Seq<char>, CategoryConfig)> {
    seq![
        ("context"@, CategoryConfig { max_tokens: 10000, priority: Priority::High }),
        ("decision"@, CategoryConfig { max_tokens: 5000, priority: Priority::Medium }),
        ("progress"@, CategoryConfig { max_tokens: 8000, priority: Priority::High }),
        ("product"@, CategoryConfig { max_tokens: 10000, priority: Priority::Medium }),
        ("pattern"@, CategoryConfig { max_tokens: 5000, priority: Priority::Low }),
    ]
}

impl MemoryBankConfig {
    /// The views of the category entries.
    pub open spec fn categories_view(&self) -> Seq<(Seq<char>, CategoryConfig)> {
        self.categories@.map_values(|c: (String, CategoryConfig)| (c.0@, c.1))
    }

    /// The token budget for a category; categories not configured fall
    /// back to a fixed budget, so unknown categories never error.
    pub fn get_max_tokens(&self, category: &str) -> (r: TokenCount)
        ensures
            r.0 == (match spec_category_lookup(self.categories_view(), category@) {
                Some(c) => c.max_tokens,
                None => FALLBACK_CATEGORY_TOKENS,
            }),
    {
        let ghost cv = self.categories_view();
        let mut i: usize = 0;
        proof {
            assert(cv.skip(0) =~= cv);
        }
        while i < self.categories.len()
            invariant
                i <= self.categories@.len(),
                cv == self.categories_view(),
                cv.len() == self.categories@.len(),
                spec_category_lookup(cv, category@) == spec_category_lookup(
                    cv.skip(i as int),
                    category@,
                ),
            decreases self.categories.len() - i,
        {
            proof {
                assert(cv.skip(i as int)[0] == cv[i as int]);
                assert(cv.skip(i as int).drop_first() =~= cv.skip(i + 1));
            }
            if str_eq(self.categories[i].0.as_str(), category) {
                return TokenCount(self.categories[i].1.max_tokens);
            }
            i = i + 1;
        }
        proof {
            assert(cv.skip(i as int) =~= Seq::<(Seq<char>, CategoryConfig)>::empty());
        }
        TokenCount(FALLBACK_CATEGORY_TOKENS)
    }

    /// The priority of a category; categories not configured fall back to
    /// Medium.
    pub fn get_priority(&self, category: &str) -> (r: Priority)
        ensures
            r == (match spec_category_lookup(self.categories_view(), category@) {
                Some(c) => c.priority,
                None => Priority::Medium,
            }),
    {
        let ghost cv = self.categories_view();
        let mut i: usize = 0;
        proof {
            assert(cv.skip(0) =~= cv);
        }
        while i < self.categories.len()
            invariant
                i <= self.categories@.len(),
                cv == self.categories_view(),
                cv.len() == self.categories@.len(),
                spec_category_lookup(cv, category@) == spec_category_lookup(
                    cv.skip(i as int),
                    category@,
                ),
            decreases self.categories.len() - i,
        {
            proof {
                assert(cv.skip(i as int)[0] == cv[i as int]);
                assert(cv.skip(i as int).drop_first() =~= cv.skip(i + 1));
            }
            if str_eq(self.categories[i].0.as_str(), category) {
                return self.categories[i].1.priority;
            }
            i = i + 1;
        }
        proof {
            assert(cv.skip(i as int) =~= Seq::<(Seq<char>, CategoryConfig)>::empty());
        }
        Priority::Medium
    }
}

impl Default for MemoryBankConfig {
    /// The hardcoded default: five categories, a global budget of 50000
    /// tokens enforced per category, a relevance threshold of 0.7, and the
    /// recency boost on.
    fn default() -> (r: MemoryBankConfig)
        ensures
            r.categories_view() == spec_default_categories(),
            r.update_triggers == (UpdateTriggersConfig { auto_update: true, umb_command: true }),
            r.token_budget == (TokenBudgetConfig { total: 50000, per_category: true }),
            r.relevance == (RelevanceConfig { threshold: 700000, boost_recent: true }),
            r.relevance.threshold <= SCORE_SCALE,
    {
        let mut categories: Vec<(String, CategoryConfig)> = Vec::new();
        categories.push(
            (
                String::from_str("context"),
                CategoryConfig { max_tokens: 10000, priority: Priority::High },
            ),
        );
        categories.push(
            (
                String::from_str("decision"),
                CategoryConfig { max_tokens: 5000, priority: Priority::Medium },
            ),
        );
        categories.push(
            (
                String::from_str("progress"),
                CategoryConfig { max_tokens: 8000, priority: Priority::High },
            ),
        );
        categories.push(
            (
                String::from_str("product"),
                CategoryConfig { max_tokens: 10000, priority: Priority::Medium },
            ),
        );
        categories.push(
            (
                String::from_str("pattern"),
                CategoryConfig { max_tokens: 5000, priority: Priority::Low },
            ),
        );
        let r = MemoryBankConfig {
            categories,
            update_triggers: UpdateTriggersConfig { auto_update: true, umb_command: true },
            token_budget: TokenBudgetConfig { total: 50000, per_category: true },
            relevance: RelevanceConfig { threshold: 700000, boost_recent: true },
        };
        proof {
            assert(r.categories_view() =~= spec_default_categories());
        }
        r
    }
}

} // verus!
