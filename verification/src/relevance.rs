//! Relevance scoring. Scores are fixed-point values in millionths, clamped
//! to [0, SCORE_SCALE]; the scorer combines a tf-idf (or recency) content
//! score with a metadata score from per-mode weight tables.

use vstd::prelude::*;
use vstd::arithmetic::div_mod::{
    lemma_div_is_ordered, lemma_div_is_ordered_by_denominator, lemma_div_decreases,
    lemma_div_multiples_vanish, lemma_div_nonincreasing, lemma_div_pos_is_pos,
};
use vstd::arithmetic::mul::{lemma_mul_inequality, lemma_mul_upper_bound};
use vstd::arithmetic::power2::{lemma2_to64, lemma2_to64_rest, lemma_pow2_strictly_increases, pow2};

use vstd::string::StringExecFns;

use crate::memory::{str_eq, Memory, MemoryMetadata, MemoryModel};
use crate::text::{
    chars_vec, contains_term, count_occurrences, count_term, dedup_spec, dedup_terms, has_term,
    lemma_count_term_bound, lower_of, lowercase, split_spec, split_terms,
};
use crate::time::{now_timestamp, valid_timestamp};

verus! {

/// One full relevance point (a score of 1.0), in millionths.
pub const SCORE_SCALE: u64 = 1000000;

/// The natural logarithm of 2, in millionths.
pub const LN2_FIXED: u64 = 693147;

/// The weight used for a metadata key absent from the mode's table (0.1).
pub const DEFAULT_KEY_WEIGHT: u64 = 100000;

/// One day in seconds: the half-life scale of the recency score.
pub const SECONDS_PER_DAY: u64 = 86400;

/// Clamp an arbitrary fixed-point value into [0, SCORE_SCALE].
pub open spec fn spec_clamp_score(x: int) -> u64 {
    if x < 0 {
        0
    } else if x > SCORE_SCALE {
        SCORE_SCALE
    } else {
        x as u64
    }
}

/// A relevance score: a fixed-point value in millionths, always within
/// [0, SCORE_SCALE] (so never negative, never above 1.0, and there is no
/// representation of NaN).
#[derive(Debug, Clone, Copy, PartialEq, Eq, Structural)]
pub struct RelevanceScore {
    raw: u64,
}

impl RelevanceScore {
    /// The raw fixed-point value, in millionths.
    pub closed spec fn spec_value(self) -> u64 {
        self.raw
    }

    /// Scores are bounded by one full point.
    pub open spec fn wf(self) -> bool {
        self.spec_value() <= SCORE_SCALE
    }

    /// Build a score from a raw value in millionths, clamping into
    /// [0, SCORE_SCALE].
    pub fn new(raw: u64) -> (r: RelevanceScore)
        ensures
            r.spec_value() == spec_clamp_score(raw as int),
            r.wf(),
    {
        if raw > SCORE_SCALE {
            RelevanceScore { raw: SCORE_SCALE }
        } else {
            RelevanceScore { raw }
        }
    }

    /// The raw fixed-point value, in millionths.
    pub fn value(&self) -> (r: u64)
        ensures
            r == self.spec_value(),
    {
        self.raw
    }
}

/// Fixed-point natural logarithm of `m / SCORE_SCALE` for a mantissa
/// `m < 2 * SCORE_SCALE`, by two terms of the artanh series. Zero at or
/// below one full point.
pub open spec fn spec_ln_mantissa(m: int) -> int {
    if m <= SCORE_SCALE {
        0
    } else {
        let z = (m - SCORE_SCALE) * SCORE_SCALE / (m + SCORE_SCALE);
        let z3 = (z * z / (SCORE_SCALE as int)) * z / (SCORE_SCALE as int);
        2 * z + 2 * (z3 / 3)
    }
}

#[via_fn]
proof fn spec_ln_fixed_decreases(x: int) {
    if x >= 2 * SCORE_SCALE {
        lemma_div_decreases(x, 2);
        lemma_div_pos_is_pos(x, 2);
    }
}

/// Fixed-point natural logarithm of `x / SCORE_SCALE`: halve down to a
/// mantissa below two, adding ln 2 per halving.
pub open spec fn spec_ln_fixed(x: int) -> int
    decreases x,
    via spec_ln_fixed_decreases
{
    if x < 2 * SCORE_SCALE {
        spec_ln_mantissa(x)
    } else {
        LN2_FIXED + spec_ln_fixed(x / 2)
    }
}

/// The mantissa term of the fixed-point logarithm.
fn ln_mantissa(m: u64) -> (r: u64)
    requires
        m < 2 * SCORE_SCALE,
    ensures
        r == spec_ln_mantissa(m as int),
        r <= 3 * SCORE_SCALE,
{
    if m <= SCORE_SCALE {
        0
    } else {
        let num = (m - SCORE_SCALE) * SCORE_SCALE;
        let den = m + SCORE_SCALE;
        let z = num / den;
        proof {
            lemma_div_is_ordered_by_denominator(num as int, SCORE_SCALE as int, den as int);
            lemma_mul_inequality((m - SCORE_SCALE) as int, SCORE_SCALE as int, SCORE_SCALE as int);
            lemma_div_is_ordered(num as int, (SCORE_SCALE * SCORE_SCALE) as int, SCORE_SCALE as int);
            lemma_div_multiples_vanish(SCORE_SCALE as int, SCORE_SCALE as int);
            assert(z <= SCORE_SCALE);
        }
        proof {
            lemma_mul_upper_bound(z as int, SCORE_SCALE as int, z as int, SCORE_SCALE as int);
        }
        let z2 = z * z / SCORE_SCALE;
        proof {
            lemma_mul_inequality(z as int, SCORE_SCALE as int, z as int);
            lemma_div_is_ordered((z * z) as int, (SCORE_SCALE * z) as int, SCORE_SCALE as int);
            lemma_div_multiples_vanish(z as int, SCORE_SCALE as int);
            assert(z2 <= z);
            lemma_mul_upper_bound(z2 as int, SCORE_SCALE as int, z as int, SCORE_SCALE as int);
        }
        let z3 = z2 * z / SCORE_SCALE;
        proof {
            lemma_mul_inequality(z2 as int, SCORE_SCALE as int, z as int);
            lemma_div_is_ordered((z2 * z) as int, (SCORE_SCALE * z) as int, SCORE_SCALE as int);
            lemma_div_multiples_vanish(z as int, SCORE_SCALE as int);
            assert(z3 <= z);
            lemma_div_nonincreasing(z3 as int, 3);
        }
        2 * z + 2 * (z3 / 3)
    }
}

/// Fixed-point natural logarithm of `x / SCORE_SCALE`. Zero at or below one
/// full point; grows by `LN2_FIXED` per doubling.
pub fn ln_fixed(x: u64) -> (r: u64)
    ensures
        r == spec_ln_fixed(x as int),
        r <= 45 * LN2_FIXED + 3 * SCORE_SCALE,
{
    let mut m = x;
    let mut acc: u64 = 0;
    let ghost mut k: nat = 0nat;
    proof {
        lemma2_to64();
        lemma2_to64_rest();
    }
    while m >= 2 * SCORE_SCALE
        invariant
            acc == k * LN2_FIXED,
            k <= 45,
            m as nat * pow2(k) <= x as nat,
            spec_ln_fixed(x as int) == acc + spec_ln_fixed(m as int),
        decreases m,
    {
        proof {
            lemma2_to64();
            lemma2_to64_rest();
            if k >= 45 {
                lemma_pow2_strictly_increases(45, k + 1nat);
                assert(pow2(45) == 0x200000000000nat);
                assert(m as nat * pow2(k) >= m as nat * pow2(45)) by {
                    if k > 45 {
                        lemma_pow2_strictly_increases(45, k);
                        lemma_mul_inequality(pow2(45) as int, pow2(k) as int, m as int);
                    }
                }
                assert(m as nat * pow2(45) >= 2000000nat * 0x200000000000nat) by {
                    lemma_mul_inequality(2000000int, m as int, pow2(45) as int);
                }
                assert(false);
            }
            let ghost m2 = (m as int) / 2;
            assert(m2 * 2 <= m as int);
            assert(m2 * 2 * pow2(k) <= m as nat * pow2(k)) by {
                lemma_mul_inequality(m2 * 2, m as int, pow2(k) as int);
            }
            assert(m2 * pow2(k + 1nat) == m2 * 2 * pow2(k)) by {
                assert(pow2(k + 1nat) == 2 * pow2(k)) by {
                    vstd::arithmetic::power2::lemma_pow2_adds(1nat, k);
                    lemma2_to64();
                }
                vstd::arithmetic::mul::lemma_mul_is_associative(m2, 2, pow2(k) as int);
            }
            k = k + 1nat;
            assert((k - 1nat) * LN2_FIXED + LN2_FIXED == k * LN2_FIXED) by {
                vstd::arithmetic::mul::lemma_mul_is_distributive_add_other_way(
                    LN2_FIXED as int,
                    k as int - 1,
                    1,
                );
            }
            assert(acc <= 44 * LN2_FIXED) by {
                lemma_mul_inequality(k as int - 1, 44, LN2_FIXED as int);
            }
        }
        m = m / 2;
        acc = acc + LN2_FIXED;
    }
    proof {
        assert(acc <= 45 * LN2_FIXED) by {
            lemma_mul_inequality(k as int, 45, LN2_FIXED as int);
        }
    }
    let mant = ln_mantissa(m);
    acc + mant
}

/// The ghost shape of a scored memory.
pub ghost struct ScoredModel {
    pub memory: MemoryModel,
    pub score: u64,
}

/// A memory paired with the relevance score the scorer gave it. Produced
/// transiently; never persisted.
#[derive(Debug)]
pub struct ScoredMemory {
    /// The scored memory.
    pub memory: Memory,
    /// Its relevance score.
    pub score: RelevanceScore,
}

impl View for ScoredMemory {
    type V = ScoredModel;

    open spec fn view(&self) -> ScoredModel {
        ScoredModel { memory: self.memory@, score: self.score.spec_value() }
    }
}

impl Clone for ScoredMemory {
    fn clone(&self) -> (r: Self)
        ensures
            r@ == self@,
            r.memory.wf() == self.memory.wf(),
    {
        ScoredMemory { memory: self.memory.clone(), score: self.score }
    }
}

/// The whitespace terms of a memory's lowercased content.
pub open spec fn mem_terms_of(m: MemoryModel) -> Seq<Seq<char>> {
    split_spec(lower_of(m.content))
}

/// In how many of `ms` the term `t` occurs (one per document, not per
/// occurrence).
pub open spec fn doc_count(ms: Seq<MemoryModel>, t: Seq<char>) -> nat
    decreases ms.len(),
{
    if ms.len() == 0 {
        0
    } else {
        doc_count(ms.drop_last(), t) + if has_term(mem_terms_of(ms.last()), t) {
            1nat
        } else {
            0nat
        }
    }
}

/// The weight of a metadata key in a mode's table; keys absent from the
/// table carry `DEFAULT_KEY_WEIGHT`.
pub open spec fn spec_weight_of(table: Seq<(Seq<char>, u64)>, key: Seq<char>) -> u64
    decreases table.len(),
{
    if table.len() == 0 {
        DEFAULT_KEY_WEIGHT
    } else if table[0].0 == key {
        table[0].1
    } else {
        spec_weight_of(table.drop_first(), key)
    }
}

/// The sum of the table weights of the metadata keys present on a memory.
pub open spec fn spec_meta_sum(
    table: Seq<(Seq<char>, u64)>,
    entries: Seq<(Seq<char>, Seq<char>)>,
) -> int
    decreases entries.len(),
{
    if entries.len() == 0 {
        0
    } else {
        spec_meta_sum(table, entries.drop_last()) + spec_weight_of(table, entries.last().0)
    }
}

/// The metadata score: summed key weights divided by the table's size (not
/// by the number of present keys).
pub open spec fn spec_meta_score(
    table: Seq<(Seq<char>, u64)>,
    entries: Seq<(Seq<char>, Seq<char>)>,
) -> int {
    spec_meta_sum(table, entries) / (if table.len() == 0 {
        1int
    } else {
        table.len() as int
    })
}

/// Term frequency of `t` among `terms`, in millionths.
pub open spec fn spec_tf(terms: Seq<Seq<char>>, t: Seq<char>) -> int {
    count_term(terms, t) * SCORE_SCALE / (if terms.len() == 0 {
        1int
    } else {
        terms.len() as int
    })
}

/// Inverse document frequency: ln of total documents over the term's
/// document count, in millionths; a term seen nowhere counts as one
/// document, which also guards the division.
pub open spec fn spec_idf(total_docs: nat, dc: nat) -> int {
    let df = if dc == 0 {
        1int
    } else {
        dc as int
    };
    spec_ln_fixed(total_docs * SCORE_SCALE / df)
}

/// The tf-idf sum of the query terms `qterms` against a memory's `terms`,
/// with document frequencies drawn from `ms`.
pub open spec fn spec_tf_idf_sum(
    terms: Seq<Seq<char>>,
    qterms: Seq<Seq<char>>,
    ms: Seq<MemoryModel>,
) -> int
    decreases qterms.len(),
{
    if qterms.len() == 0 {
        0
    } else {
        spec_tf_idf_sum(terms, qterms.drop_last(), ms) + spec_tf(terms, qterms.last()) * spec_idf(
            ms.len(),
            doc_count(ms, qterms.last()),
        ) / (SCORE_SCALE as int)
    }
}

/// The content score for a query: the tf-idf sum over the distinct query
/// terms, divided by their number.
pub open spec fn spec_content_query_score(
    m: MemoryModel,
    qlow: Seq<char>,
    ms: Seq<MemoryModel>,
) -> int {
    let qts = dedup_spec(split_spec(qlow));
    spec_tf_idf_sum(mem_terms_of(m), qts, ms) / (if qts.len() == 0 {
        1int
    } else {
        qts.len() as int
    })
}

/// The content score without a query: a 24-hour decay curve over the time
/// since the memory was last accessed.
pub open spec fn spec_recency_score(last_accessed: int, now: int) -> int {
    let age = if now > last_accessed {
        now - last_accessed
    } else {
        0
    };
    SCORE_SCALE * SECONDS_PER_DAY / (SECONDS_PER_DAY + age)
}

/// Combine content and metadata scores, 70% to 30%, clamped into range.
pub open spec fn spec_combine(content: int, meta: int) -> u64 {
    spec_clamp_score((7 * content + 3 * meta) / 10)
}

/// Find a mode's weight table by name.
pub open spec fn spec_find_table(
    tables: Seq<(Seq<char>, Seq<(Seq<char>, u64)>)>,
    mode: Seq<char>,
) -> Option<Seq<(Seq<char>, u64)>>
    decreases tables.len(),
{
    if tables.len() == 0 {
        None
    } else if tables[0].0 == mode {
        Some(tables[0].1)
    } else {
        spec_find_table(tables.drop_first(), mode)
    }
}

/// The weight table used for a mode: its own table, else the "code" table,
/// else an empty table.
pub open spec fn spec_table_for(
    tables: Seq<(Seq<char>, Seq<(Seq<char>, u64)>)>,
    mode: Seq<char>,
) -> Seq<(Seq<char>, u64)> {
    match spec_find_table(tables, mode) {
        Some(t) => t,
        None => match spec_find_table(tables, "code"@) {
            Some(t) => t,
            None => Seq::empty(),
        },
    }
}

/// The score the scorer assigns to memory `m` within corpus `ms`.
pub open spec fn spec_score_of(
    ms: Seq<MemoryModel>,
    m: MemoryModel,
    table: Seq<(Seq<char>, u64)>,
    q: Option<Seq<char>>,
    now: int,
) -> u64 {
    let content = match q {
        Some(qlow) => spec_content_query_score(m, qlow, ms),
        None => spec_recency_score(m.last_accessed, now),
    };
    spec_combine(content, spec_meta_score(table, m.metadata))
}

/// All memories of `ms` scored, in input order.
pub open spec fn spec_scored_list(
    ms: Seq<MemoryModel>,
    table: Seq<(Seq<char>, u64)>,
    q: Option<Seq<char>>,
    now: int,
) -> Seq<ScoredModel> {
    Seq::new(ms.len(), |i: int| ScoredModel { memory: ms[i], score: spec_score_of(ms, ms[i], table, q, now) })
}

/// Insert `x` into `s` after every element whose score is at least `x`'s:
/// the insertion step of a stable descending sort.
pub open spec fn spec_insort(s: Seq<ScoredModel>, x: ScoredModel) -> Seq<ScoredModel>
    decreases s.len(),
{
    if s.len() == 0 {
        seq![x]
    } else if s.last().score >= x.score {
        s.push(x)
    } else {
        spec_insort(s.drop_last(), x).push(s.last())
    }
}

/// Stable descending sort by score: elements with equal scores keep their
/// input order.
pub open spec fn spec_sort_desc(s: Seq<ScoredModel>) -> Seq<ScoredModel>
    decreases s.len(),
{
    if s.len() == 0 {
        Seq::empty()
    } else {
        spec_insort(spec_sort_desc(s.drop_last()), s.last())
    }
}

/// Scores never increase along the list.
pub open spec fn sorted_desc(s: Seq<ScoredModel>) -> bool {
    forall|a: int, b: int| 0 <= a <= b < s.len() ==> (#[trigger] s[a]).score >= (#[trigger] s[b]).score
}

/// Inserting into a descending list keeps it descending.
proof fn lemma_insort_sorted(s: Seq<ScoredModel>, x: ScoredModel)
    requires
        sorted_desc(s),
    ensures
        sorted_desc(spec_insort(s, x)),
    decreases s.len(),
{
    if s.len() == 0 {
    } else if s.last().score >= x.score {
        assert forall|a: int, b: int|
            0 <= a <= b < s.push(x).len() implies (#[trigger] s.push(x)[a]).score >= (
        #[trigger] s.push(x)[b]).score by {
            if b < s.len() {
            } else {
                assert(s.push(x)[b] == x);
                if a < s.len() {
                    assert(s[a].score >= s.last().score);
                }
            }
        }
    } else {
        assert(sorted_desc(s.drop_last())) by {
            assert(forall|a: int, b: int|
                0 <= a <= b < s.drop_last().len() ==> (#[trigger] s.drop_last()[a]).score >= (
                #[trigger] s.drop_last()[b]).score);
        }
        lemma_insort_sorted(s.drop_last(), x);
        let inner = spec_insort(s.drop_last(), x);
        lemma_insort_members(s.drop_last(), x);
        assert forall|a: int, b: int|
            0 <= a <= b < inner.push(s.last()).len() implies (#[trigger] inner.push(
            s.last(),
        )[a]).score >= (#[trigger] inner.push(s.last())[b]).score by {
            if b < inner.len() {
            } else {
                assert(inner.push(s.last())[b] == s.last());
                if a < inner.len() {
                    assert(inner[a] == x || s.drop_last().contains(inner[a]));
                    if inner[a] == x {
                        assert(x.score > s.last().score);
                    } else {
                        let w = choose|w: int|
                            0 <= w < s.drop_last().len() && s.drop_last()[w] == inner[a];
                        assert(s[w].score >= s.last().score);
                    }
                }
            }
        }
    }
}

/// Every element of an insertion result is the inserted element or one of
/// the original list's.
proof fn lemma_insort_members(s: Seq<ScoredModel>, x: ScoredModel)
    ensures
        forall|a: int|
            0 <= a < spec_insort(s, x).len() ==> (#[trigger] spec_insort(s, x)[a]) == x
                || s.contains(spec_insort(s, x)[a]),
    decreases s.len(),
{
    if s.len() == 0 {
    } else if s.last().score >= x.score {
        assert forall|a: int| 0 <= a < s.push(x).len() implies (#[trigger] s.push(x)[a]) == x
            || s.contains(s.push(x)[a]) by {
            if a < s.len() {
                assert(s[a] == s.push(x)[a]);
            }
        }
    } else {
        lemma_insort_members(s.drop_last(), x);
        let inner = spec_insort(s.drop_last(), x);
        assert forall|a: int| 0 <= a < inner.push(s.last()).len() implies (#[trigger] inner.push(
            s.last(),
        )[a]) == x || s.contains(inner.push(s.last())[a]) by {
            if a < inner.len() {
                if inner[a] != x {
                    let w = choose|w: int|
                        0 <= w < s.drop_last().len() && s.drop_last()[w] == inner[a];
                    assert(s[w] == inner[a]);
                }
            } else {
                assert(inner.push(s.last())[a] == s.last());
                assert(s[s.len() - 1] == s.last());
            }
        }
    }
}

/// Law (descending order): the scorer's output is sorted by score
/// descending.
pub proof fn lemma_sort_desc_sorted(s: Seq<ScoredModel>)
    ensures
        sorted_desc(spec_sort_desc(s)),
    decreases s.len(),
{
    if s.len() > 0 {
        lemma_sort_desc_sorted(s.drop_last());
        lemma_insort_sorted(spec_sort_desc(s.drop_last()), s.last());
    }
}

/// Insertion adds exactly the inserted element.
proof fn lemma_insort_multiset(s: Seq<ScoredModel>, x: ScoredModel)
    ensures
        spec_insort(s, x).to_multiset() == s.to_multiset().insert(x),
    decreases s.len(),
{
    broadcast use vstd::seq_lib::group_to_multiset_ensures;

    if s.len() == 0 {
        assert(seq![x] =~= Seq::<ScoredModel>::empty().push(x));
    } else if s.last().score >= x.score {
    } else {
        lemma_insort_multiset(s.drop_last(), x);
        assert(s.drop_last().push(s.last()) =~= s);
        assert(spec_insort(s.drop_last(), x).push(s.last()).to_multiset() == spec_insort(
            s.drop_last(),
            x,
        ).to_multiset().insert(s.last()));
        assert(s.drop_last().to_multiset().insert(x).insert(s.last())
            =~= s.drop_last().to_multiset().insert(s.last()).insert(x));
    }
}

/// Law (permutation): sorting rearranges the scored memories and does
/// nothing else — the sorted list holds exactly the input's elements.
pub proof fn lemma_sort_desc_permutation(s: Seq<ScoredModel>)
    ensures
        spec_sort_desc(s).to_multiset() == s.to_multiset(),
    decreases s.len(),
{
    broadcast use vstd::seq_lib::group_to_multiset_ensures;

    if s.len() > 0 {
        lemma_sort_desc_permutation(s.drop_last());
        lemma_insort_multiset(spec_sort_desc(s.drop_last()), s.last());
        assert(s.drop_last().push(s.last()) =~= s);
    }
}

/// The full scorer pipeline: score every memory, then sort descending.
pub open spec fn spec_score_memories(
    ms: Seq<MemoryModel>,
    tables: Seq<(Seq<char>, Seq<(Seq<char>, u64)>)>,
    mode: Seq<char>,
    q: Option<Seq<char>>,
    now: int,
) -> Seq<ScoredModel> {
    spec_sort_desc(spec_scored_list(ms, spec_table_for(tables, mode), q, now))
}

/// The view of one weight table.
pub open spec fn table_view(t: Vec<(String, u64)>) -> Seq<(Seq<char>, u64)> {
    t@.map_values(|p: (String, u64)| (p.0@, p.1))
}

/// The hardcoded per-mode weight tables the scorer is built with.
pub open spec fn spec_default_tables() -> Seq<(Seq<char>, Seq<(Seq<char>, u64)>)> {
    seq![
        (
            "code"@,
            seq![("language"@, 800000u64), ("file"@, 600000u64), ("project"@, 500000u64), ("source"@, 300000u64)],
        ),
        (
            "architect"@,
            seq![("project"@, 800000u64), ("design"@, 700000u64), ("architecture"@, 700000u64), ("source"@, 300000u64)],
        ),
        (
            "debug"@,
            seq![("error"@, 900000u64), ("language"@, 700000u64), ("file"@, 600000u64), ("project"@, 500000u64)],
        ),
    ]
}

/// The term-frequency relevance scorer, carrying its per-mode metadata
/// weight tables as data.
pub struct TfIdfScorer {
    mode_tables: Vec<(String, Vec<(String, u64)>)>,
}

impl View for TfIdfScorer {
    type V = Seq<(Seq<char>, Seq<(Seq<char>, u64)>)>;

    closed spec fn view(&self) -> Seq<(Seq<char>, Seq<(Seq<char>, u64)>)> {
        self.mode_tables@.map_values(|t: (String, Vec<(String, u64)>)| (t.0@, table_view(t.1)))
    }
}

impl TfIdfScorer {
    /// Every weight in every table is at most one full point, and the
    /// fallback "code" table exists.
    pub open spec fn wf(&self) -> bool {
        &&& forall|t: int, e: int|
            0 <= t < self@.len() && 0 <= e < self@[t].1.len() ==> (#[trigger] self@[t].1[e]).1
                <= SCORE_SCALE
        &&& spec_find_table(self@, "code"@) is Some
    }

    /// Build the scorer with its hardcoded mode weight tables.
    pub fn new() -> (r: TfIdfScorer)
        ensures
            r@ == spec_default_tables(),
            r.wf(),
    {
        let mut code: Vec<(String, u64)> = Vec::new();
        code.push((String::from_str("language"), 800000));
        code.push((String::from_str("file"), 600000));
        code.push((String::from_str("project"), 500000));
        code.push((String::from_str("source"), 300000));
        let mut architect: Vec<(String, u64)> = Vec::new();
        architect.push((String::from_str("project"), 800000));
        architect.push((String::from_str("design"), 700000));
        architect.push((String::from_str("architecture"), 700000));
        architect.push((String::from_str("source"), 300000));
        let mut debug: Vec<(String, u64)> = Vec::new();
        debug.push((String::from_str("error"), 900000));
        debug.push((String::from_str("language"), 700000));
        debug.push((String::from_str("file"), 600000));
        debug.push((String::from_str("project"), 500000));
        let mut mode_tables: Vec<(String, Vec<(String, u64)>)> = Vec::new();
        mode_tables.push((String::from_str("code"), code));
        mode_tables.push((String::from_str("architect"), architect));
        mode_tables.push((String::from_str("debug"), debug));
        let r = TfIdfScorer { mode_tables };
        proof {
            assert(r@ =~~= spec_default_tables());
            assert(r.wf()) by {
                assert(forall|t: int, e: int|
                    0 <= t < r@.len() && 0 <= e < r@[t].1.len() ==> (#[trigger] r@[t].1[e]).1
                        <= SCORE_SCALE);
                assert(r@[0].0 == "code"@);
                assert(spec_find_table(r@, "code"@) is Some);
            }
        }
        r
    }

    /// The weight table for `mode`: its own table if the scorer has one,
    /// else the "code" table.
    fn table_for<'a>(&'a self, mode: &str) -> (t: &'a Vec<(String, u64)>)
        requires
            spec_find_table(self@, "code"@) is Some,
        ensures
            table_view(*t) == spec_table_for(self@, mode@),
    {
        let mut i: usize = 0;
        proof {
            assert(self@.skip(0) =~= self@);
        }
        while i < self.mode_tables.len()
            invariant
                i <= self.mode_tables@.len(),
                spec_find_table(self@, mode@) == spec_find_table(self@.skip(i as int), mode@),
            decreases self.mode_tables@.len() - i,
        {
            proof {
                assert(self@.skip(i as int)[0] == self@[i as int]);
                assert(self@.skip(i as int).drop_first() =~= self@.skip(i + 1));
            }
            if str_eq(self.mode_tables[i].0.as_str(), mode) {
                return &self.mode_tables[i].1;
            }
            i = i + 1;
        }
        proof {
            assert(self@.skip(i as int) =~= Seq::<(Seq<char>, Seq<(Seq<char>, u64)>)>::empty());
            assert(spec_find_table(self@, mode@) is None);
        }
        let mut j: usize = 0;
        proof {
            assert(self@.skip(0) =~= self@);
        }
        while j < self.mode_tables.len()
            invariant
                j <= self.mode_tables@.len(),
                spec_find_table(self@, "code"@) == spec_find_table(self@.skip(j as int), "code"@),
                spec_find_table(self@, mode@) is None,
                spec_find_table(self@, "code"@) is Some,
            decreases self.mode_tables@.len() - j,
        {
            proof {
                assert(self@.skip(j as int)[0] == self@[j as int]);
                assert(self@.skip(j as int).drop_first() =~= self@.skip(j + 1));
            }
            if str_eq(self.mode_tables[j].0.as_str(), "code") {
                return &self.mode_tables[j].1;
            }
            j = j + 1;
        }
        proof {
            assert(self@.skip(j as int) =~= Seq::<(Seq<char>, Seq<(Seq<char>, u64)>)>::empty());
            assert(false);
        }
        &self.mode_tables[0].1
    }
}

/// The weight of `key` in `table`, with the default for absent keys.
fn weight_of(table: &Vec<(String, u64)>, key: &str) -> (w: u64)
    ensures
        w == spec_weight_of(table_view(*table), key@),
{
    let ghost tv = table_view(*table);
    let mut i: usize = 0;
    proof {
        assert(tv.skip(0) =~= tv);
    }
    while i < table.len()
        invariant
            i <= table@.len(),
            tv == table_view(*table),
            tv.len() == table@.len(),
            spec_weight_of(tv, key@) == spec_weight_of(tv.skip(i as int), key@),
        decreases table.len() - i,
    {
        proof {
            assert(tv.skip(i as int)[0] == tv[i as int]);
            assert(tv.skip(i as int).drop_first() =~= tv.skip(i + 1));
        }
        if str_eq(table[i].0.as_str(), key) {
            return table[i].1;
        }
        i = i + 1;
    }
    proof {
        assert(tv.skip(i as int) =~= Seq::<(Seq<char>, u64)>::empty());
    }
    DEFAULT_KEY_WEIGHT
}

/// The summed table weights of the metadata keys of `meta`.
fn meta_sum(table: &Vec<(String, u64)>, meta: &MemoryMetadata) -> (s: u128)
    requires
        forall|e: int| 0 <= e < table_view(*table).len() ==> (#[trigger] table_view(
            *table,
        )[e]).1 <= SCORE_SCALE,
    ensures
        s == spec_meta_sum(table_view(*table), meta@),
        s <= 0x10000000000000000 * (SCORE_SCALE as u128),
{
    let ghost tv = table_view(*table);
    let n = meta.len();
    let mut s: u128 = 0;
    let mut i: usize = 0;
    while i < n
        invariant
            i <= n,
            n == meta@.len(),
            tv == table_view(*table),
            forall|e: int| 0 <= e < tv.len() ==> (#[trigger] tv[e]).1 <= SCORE_SCALE,
            s == spec_meta_sum(tv, meta@.take(i as int)),
            s <= i * SCORE_SCALE,
        decreases n - i,
    {
        let w = weight_of(table, meta.key_at(i).as_str());
        proof {
            assert(meta@.take(i + 1).drop_last() =~= meta@.take(i as int));
            assert(meta@.take(i + 1).last() == meta@[i as int]);
            lemma_weight_bounded(tv, meta@[i as int].0);
        }
        s = s + w as u128;
        i = i + 1;
    }
    proof {
        assert(meta@.take(i as int) =~= meta@);
        lemma_mul_inequality(n as int, 0x10000000000000000, SCORE_SCALE as int);
    }
    s
}

/// The largest value the fixed-point logarithm can return.
pub const MAX_IDF: u64 = 45 * LN2_FIXED + 3 * SCORE_SCALE;

/// The nested view of a per-memory term list.
pub open spec fn corpus_view(c: Seq<Vec<Vec<char>>>) -> Seq<Seq<Seq<char>>> {
    c.map_values(|tv: Vec<Vec<char>>| tv@.map_values(|t: Vec<char>| t@))
}

/// The recency score: near one full point for a just-touched memory,
/// decaying on a 24-hour scale.
fn recency_score(last_accessed: i64, now: i64) -> (r: u64)
    requires
        valid_timestamp(last_accessed as int),
        valid_timestamp(now as int),
    ensures
        r == spec_recency_score(last_accessed as int, now as int),
        r <= SCORE_SCALE,
{
    let age: u64 = if now > last_accessed {
        (now - last_accessed) as u64
    } else {
        0
    };
    let num = SCORE_SCALE * SECONDS_PER_DAY;
    let den = SECONDS_PER_DAY + age;
    proof {
        lemma_div_is_ordered_by_denominator(num as int, SECONDS_PER_DAY as int, den as int);
        lemma_div_multiples_vanish(SCORE_SCALE as int, SECONDS_PER_DAY as int);
        assert(SECONDS_PER_DAY as int * SCORE_SCALE as int == num as int) by {
            vstd::arithmetic::mul::lemma_mul_is_commutative(
                SECONDS_PER_DAY as int,
                SCORE_SCALE as int,
            );
        }
    }
    num / den
}

/// In how many corpus entries the term `t` occurs.
fn count_docs(corpus: &Vec<Vec<Vec<char>>>, t: &Vec<char>, ms: Ghost<Seq<MemoryModel>>) -> (r:
    u64)
    requires
        corpus_view(corpus@) == ms@.map_values(|m: MemoryModel| mem_terms_of(m)),
        ms@.len() <= 0xFFFFFFFF,
    ensures
        r == doc_count(ms@, t@),
        r <= ms@.len(),
{
    let mut r: u64 = 0;
    let mut j: usize = 0;
    proof {
        assert(corpus_view(corpus@).len() == corpus@.len());
        assert(ms@.map_values(|m: MemoryModel| mem_terms_of(m)).len() == ms@.len());
        assert(corpus@.len() == ms@.len());
    }
    while j < corpus.len()
        invariant
            j <= corpus@.len(),
            corpus@.len() == ms@.len() <= 0xFFFFFFFF,
            corpus_view(corpus@) == ms@.map_values(|m: MemoryModel| mem_terms_of(m)),
            r == doc_count(ms@.take(j as int), t@),
            r <= j,
        decreases corpus.len() - j,
    {
        proof {
            assert(ms@.take(j + 1).drop_last() =~= ms@.take(j as int));
            assert(ms@.take(j + 1).last() == ms@[j as int]);
            assert(corpus_view(corpus@)[j as int] == mem_terms_of(ms@[j as int]));
        }
        if contains_term(&corpus[j], t) {
            r = r + 1;
        }
        j = j + 1;
    }
    proof {
        assert(ms@.take(j as int) =~= ms@);
    }
    r
}

/// The tf-idf sum of the query terms against the terms of corpus entry `i`.
fn tf_idf_sum(
    corpus: &Vec<Vec<Vec<char>>>,
    i: usize,
    qterms: &Vec<Vec<char>>,
    ms: Ghost<Seq<MemoryModel>>,
) -> (s: u128)
    requires
        corpus_view(corpus@) == ms@.map_values(|m: MemoryModel| mem_terms_of(m)),
        ms@.len() <= 0xFFFFFFFF,
        i < corpus@.len(),
    ensures
        s == spec_tf_idf_sum(
            mem_terms_of(ms@[i as int]),
            qterms@.map_values(|t: Vec<char>| t@),
            ms@,
        ),
        s <= qterms@.len() * MAX_IDF,
{
    proof {
        assert(corpus_view(corpus@).len() == corpus@.len());
        assert(ms@.map_values(|m: MemoryModel| mem_terms_of(m)).len() == ms@.len());
        assert(corpus@.len() == ms@.len());
    }
    let ghost terms = mem_terms_of(ms@[i as int]);
    let ghost qv = qterms@.map_values(|t: Vec<char>| t@);
    proof {
        assert(corpus_view(corpus@)[i as int] == mem_terms_of(ms@[i as int]));
        assert(corpus_view(corpus@)[i as int] == (corpus@[i as int]@).map_values(
            |t: Vec<char>| t@,
        ));
    }
    let total: u64 = corpus.len() as u64;
    let mut s: u128 = 0;
    let mut j: usize = 0;
    while j < qterms.len()
        invariant
            j <= qterms@.len(),
            qv == qterms@.map_values(|t: Vec<char>| t@),
            corpus_view(corpus@) == ms@.map_values(|m: MemoryModel| mem_terms_of(m)),
            corpus@.len() == ms@.len() <= 0xFFFFFFFF,
            i < corpus@.len(),
            terms == mem_terms_of(ms@[i as int]),
            total == corpus@.len(),
            s == spec_tf_idf_sum(terms, qv.take(j as int), ms@),
            s <= j * MAX_IDF,
        decreases qterms.len() - j,
    {
        proof {
            assert(qv.take(j + 1).drop_last() =~= qv.take(j as int));
            assert(qv.take(j + 1).last() == qv[j as int]);
        }
        // term frequency, in millionths
        let mem_term_count = corpus[i].len();
        let cnt = count_occurrences(&corpus[i], &qterms[j]);
        proof {
            assert(corpus_view(corpus@)[i as int] == (corpus@[i as int]@).map_values(
                |t: Vec<char>| t@,
            ));
            assert((corpus@[i as int]@).map_values(|t: Vec<char>| t@) == terms);
            lemma_count_term_bound(terms, qv[j as int]);
        }
        let tf_den: u128 = if mem_term_count == 0 {
            1
        } else {
            mem_term_count as u128
        };
        let tf128 = (cnt as u128) * (SCORE_SCALE as u128) / tf_den;
        proof {
            if mem_term_count > 0 {
                lemma_mul_inequality(cnt as int, terms.len() as int, SCORE_SCALE as int);
                lemma_div_is_ordered(
                    (cnt as int) * (SCORE_SCALE as int),
                    (terms.len() as int) * (SCORE_SCALE as int),
                    terms.len() as int,
                );
                assert((terms.len() as int * SCORE_SCALE as int) / (terms.len() as int)
                    == SCORE_SCALE as int) by {
                    vstd::arithmetic::mul::lemma_mul_is_commutative(
                        terms.len() as int,
                        SCORE_SCALE as int,
                    );
                    lemma_div_multiples_vanish(SCORE_SCALE as int, terms.len() as int);
                }
            }
            assert(tf128 <= SCORE_SCALE);
            assert(tf128 as int == spec_tf(terms, qv[j as int]));
        }
        let tf = tf128 as u64;
        // inverse document frequency, in millionths
        let dc = count_docs(corpus, &qterms[j], ms);
        let df: u64 = if dc == 0 {
            1
        } else {
            dc
        };
        let ratio = total * SCORE_SCALE / df;
        let idf = ln_fixed(ratio);
        proof {
            assert(idf as int == spec_idf(ms@.len(), doc_count(ms@, qv[j as int])));
        }
        // their product, in millionths
        proof {
            lemma_mul_upper_bound(tf as int, SCORE_SCALE as int, idf as int, MAX_IDF as int);
            lemma_mul_inequality(tf as int, SCORE_SCALE as int, idf as int);
            lemma_div_is_ordered(
                (tf as int) * (idf as int),
                (SCORE_SCALE as int) * (idf as int),
                SCORE_SCALE as int,
            );
            lemma_div_multiples_vanish(idf as int, SCORE_SCALE as int);
        }
        let term_score = tf * idf / SCORE_SCALE;
        proof {
            assert(term_score <= MAX_IDF);
            assert((j + 1) * MAX_IDF == j * MAX_IDF + MAX_IDF) by {
                vstd::arithmetic::mul::lemma_mul_is_distributive_add_other_way(
                    MAX_IDF as int,
                    j as int,
                    1,
                );
            }
            assert((j as int + 1) * MAX_IDF <= 0x10000000000000000 * 34191615) by {
                lemma_mul_inequality(j as int + 1, 0x10000000000000000, MAX_IDF as int);
            }
        }
        s = s + term_score as u128;
        j = j + 1;
    }
    proof {
        assert(qv.take(j as int) =~= qv);
    }
    s
}

/// The content score of corpus entry `i`: tf-idf against the query terms
/// when a query was given, else the recency decay.
fn content_score(
    corpus: &Vec<Vec<Vec<char>>>,
    i: usize,
    qterms: &Option<Vec<Vec<char>>>,
    last_accessed: i64,
    now: i64,
    ms: Ghost<Seq<MemoryModel>>,
    qspec: Ghost<Option<Seq<char>>>,
) -> (r: u64)
    requires
        corpus_view(corpus@) == ms@.map_values(|m: MemoryModel| mem_terms_of(m)),
        ms@.len() <= 0xFFFFFFFF,
        i < corpus@.len(),
        valid_timestamp(last_accessed as int),
        valid_timestamp(now as int),
        ms@[i as int].last_accessed == last_accessed as int,
        (match *qterms {
            Some(qt) => qspec@ matches Some(qlow) && qt@.map_values(|t: Vec<char>| t@)
                == dedup_spec(split_spec(qlow)),
            None => qspec@ is None,
        }),
    ensures
        r as int == (match qspec@ {
            Some(qlow) => spec_content_query_score(ms@[i as int], qlow, ms@),
            None => spec_recency_score(ms@[i as int].last_accessed, now as int),
        }),
{
    match qterms {
        Some(qt) => {
            let sum = tf_idf_sum(corpus, i, qt, ms);
            let qlen = qt.len();
            let qden: u128 = if qlen == 0 {
                1
            } else {
                qlen as u128
            };
            let c = sum / qden;
            proof {
                if qlen > 0 {
                    lemma_div_is_ordered(sum as int, (qlen as int) * (MAX_IDF as int), qlen as int);
                    assert(((qlen as int) * (MAX_IDF as int)) / (qlen as int) == MAX_IDF as int)
                        by {
                        vstd::arithmetic::mul::lemma_mul_is_commutative(
                            qlen as int,
                            MAX_IDF as int,
                        );
                        lemma_div_multiples_vanish(MAX_IDF as int, qlen as int);
                    }
                }
                assert(c <= MAX_IDF);
            }
            c as u64
        },
        None => recency_score(last_accessed, now),
    }
}

/// Combine content and metadata scores, 70% to 30%, clamped into range.
fn combine_scores(content: u64, meta: u128) -> (r: RelevanceScore)
    requires
        meta <= 0x400000000000000000000000,
    ensures
        r.spec_value() == spec_combine(content as int, meta as int),
        r.wf(),
{
    let total = (7 * (content as u128) + 3 * meta) / 10;
    if total > (SCORE_SCALE as u128) {
        RelevanceScore::new(SCORE_SCALE)
    } else {
        RelevanceScore::new(total as u64)
    }
}

/// Every weight the lookup can return is bounded when the table's weights
/// are.
proof fn lemma_weight_bounded(table: Seq<(Seq<char>, u64)>, key: Seq<char>)
    requires
        forall|e: int| 0 <= e < table.len() ==> (#[trigger] table[e]).1 <= SCORE_SCALE,
    ensures
        spec_weight_of(table, key) <= SCORE_SCALE,
    decreases table.len(),
{
    if table.len() > 0 && table[0].0 != key {
        assert(forall|e: int|
            0 <= e < table.drop_first().len() ==> (#[trigger] table.drop_first()[e]).1
                <= SCORE_SCALE) by {
            assert(forall|e: int|
                0 <= e < table.drop_first().len() ==> table.drop_first()[e] == table[e + 1]);
        }
        lemma_weight_bounded(table.drop_first(), key);
    }
}

/// A table the mode lookup returns keeps its weights bounded.
proof fn lemma_find_table_bounded(tables: Seq<(Seq<char>, Seq<(Seq<char>, u64)>)>, mode: Seq<char>)
    requires
        forall|t: int, e: int|
            0 <= t < tables.len() && 0 <= e < tables[t].1.len() ==> (#[trigger] tables[t].1[e]).1
                <= SCORE_SCALE,
    ensures
        match spec_find_table(tables, mode) {
            Some(tb) => forall|e: int| 0 <= e < tb.len() ==> (#[trigger] tb[e]).1 <= SCORE_SCALE,
            None => true,
        },
    decreases tables.len(),
{
    if tables.len() > 0 && tables[0].0 != mode {
        assert(forall|t: int, e: int|
            0 <= t < tables.drop_first().len() && 0 <= e < tables.drop_first()[t].1.len() ==> (
            #[trigger] tables.drop_first()[t].1[e]).1 <= SCORE_SCALE) by {
            assert(forall|t: int|
                0 <= t < tables.drop_first().len() ==> #[trigger] tables.drop_first()[t]
                    == tables[t + 1]);
        }
        lemma_find_table_bounded(tables.drop_first(), mode);
    }
}

/// The table `spec_table_for` picks keeps its weights bounded.
proof fn lemma_table_for_bounded(tables: Seq<(Seq<char>, Seq<(Seq<char>, u64)>)>, mode: Seq<char>)
    requires
        forall|t: int, e: int|
            0 <= t < tables.len() && 0 <= e < tables[t].1.len() ==> (#[trigger] tables[t].1[e]).1
                <= SCORE_SCALE,
    ensures
        forall|e: int|
            0 <= e < spec_table_for(tables, mode).len() ==> (#[trigger] spec_table_for(
                tables,
                mode,
            )[e]).1 <= SCORE_SCALE,
{
    lemma_find_table_bounded(tables, mode);
    lemma_find_table_bounded(tables, "code"@);
}

/// Inserting at position `j` — after every element with a score at least
/// `x`'s, before every element with a smaller score — is what `spec_insort`
/// does.
proof fn lemma_insort_at(s: Seq<ScoredModel>, x: ScoredModel, j: int)
    requires
        0 <= j <= s.len(),
        j > 0 ==> s[j - 1].score >= x.score,
        forall|l: int| j <= l < s.len() ==> (#[trigger] s[l]).score < x.score,
    ensures
        spec_insort(s, x) == s.take(j).push(x) + s.skip(j),
    decreases s.len(),
{
    if j == s.len() {
        if s.len() == 0 {
            assert(spec_insort(s, x) =~= s.take(j).push(x) + s.skip(j));
        } else {
            assert(s.last().score >= x.score);
            assert(s.take(j) =~= s);
            assert(s.push(x) =~= s.take(j).push(x) + s.skip(j));
        }
    } else {
        assert(s[s.len() - 1].score < x.score);
        assert(s.drop_last().len() == s.len() - 1);
        lemma_insort_at(s.drop_last(), x, j);
        assert(s.drop_last().take(j) =~= s.take(j));
        assert(spec_insort(s, x) == spec_insort(s.drop_last(), x).push(s.last()));
        assert((s.drop_last().take(j).push(x) + s.drop_last().skip(j)).push(s.last()) =~= s.take(
            j,
        ).push(x) + s.skip(j));
    }
}

/// Stable insertion sort by score, descending. Equal scores keep their
/// input order.
fn sort_scored_desc(input: &Vec<ScoredMemory>) -> (r: Vec<ScoredMemory>)
    requires
        forall|k: int|
            0 <= k < input@.len() ==> (#[trigger] input@[k]).memory.wf() && input@[k].score.wf(),
    ensures
        r@.map_values(|sm: ScoredMemory| sm@) == spec_sort_desc(
            input@.map_values(|sm: ScoredMemory| sm@),
        ),
        forall|k: int| 0 <= k < r@.len() ==> (#[trigger] r@[k]).memory.wf() && r@[k].score.wf(),
{
    let ghost iv = input@.map_values(|sm: ScoredMemory| sm@);
    let mut out: Vec<ScoredMemory> = Vec::new();
    let mut idx: usize = 0;
    proof {
        assert(iv.take(0) =~= Seq::<ScoredModel>::empty());
    }
    while idx < input.len()
        invariant
            idx <= input@.len(),
            iv == input@.map_values(|sm: ScoredMemory| sm@),
            forall|k: int|
                0 <= k < input@.len() ==> (#[trigger] input@[k]).memory.wf()
                    && input@[k].score.wf(),
            out@.map_values(|sm: ScoredMemory| sm@) == spec_sort_desc(iv.take(idx as int)),
            out@.len() == idx,
            forall|k: int|
                0 <= k < out@.len() ==> (#[trigger] out@[k]).memory.wf() && out@[k].score.wf(),
        decreases input.len() - idx,
    {
        let x = input[idx].clone();
        let ghost ov = out@.map_values(|sm: ScoredMemory| sm@);
        let mut j: usize = out.len();
        while j > 0 && out[j - 1].score.value() < x.score.value()
            invariant
                j <= out@.len(),
                ov == out@.map_values(|sm: ScoredMemory| sm@),
                forall|l: int| j <= l < out@.len() ==> (#[trigger] ov[l]).score < x@.score,
            decreases j,
        {
            j = j - 1;
        }
        proof {
            lemma_insort_at(ov, x@, j as int);
        }
        out.insert(j, x);
        proof {
            assert(out@.map_values(|sm: ScoredMemory| sm@) =~= ov.take(j as int).push(x@)
                + ov.skip(j as int));
            assert(iv.take(idx + 1).drop_last() =~= iv.take(idx as int));
            assert(iv.take(idx + 1).last() == iv[idx as int]);
            assert(x@ == iv[idx as int]);
        }
        idx = idx + 1;
    }
    proof {
        assert(iv.take(idx as int) =~= iv);
    }
    out
}

impl TfIdfScorer {
    /// Score every memory for `mode` (and the optional query) and return
    /// them sorted by score descending; ties keep their input order. With a
    /// query the score is deterministic in the inputs; without one it reads
    /// the clock once for the recency decay.
    pub fn score_memories(
        &self,
        memories: &Vec<Memory>,
        mode: &str,
        query: Option<&str>,
    ) -> (r: Vec<ScoredMemory>)
        requires
            self.wf(),
            memories@.len() <= 0xFFFFFFFF,
            forall|k: int| 0 <= k < memories@.len() ==> (#[trigger] memories@[k]).wf(),
        ensures
            forall|k: int|
                0 <= k < r@.len() ==> (#[trigger] r@[k]).score.wf() && r@[k].memory.wf(),
            match query {
                Some(q) => r@.map_values(|sm: ScoredMemory| sm@) == spec_score_memories(
                    memories@.map_values(|m: Memory| m@),
                    self@,
                    mode@,
                    Some(lower_of(q@)),
                    0,
                ),
                None => exists|t: int|
                    valid_timestamp(t) && r@.map_values(|sm: ScoredMemory| sm@)
                        == spec_score_memories(
                        memories@.map_values(|m: Memory| m@),
                        self@,
                        mode@,
                        None,
                        t,
                    ),
            },
    {
        let ghost ms = memories@.map_values(|m: Memory| m@);
        let table = self.table_for(mode);
        let ghost tv = spec_table_for(self@, mode@);
        proof {
            lemma_table_for_bounded(self@, mode@);
        }
        // Build the corpus: every memory's lowercased whitespace terms.
        let mut corpus: Vec<Vec<Vec<char>>> = Vec::new();
        let mut i: usize = 0;
        while i < memories.len()
            invariant
                i <= memories@.len(),
                ms == memories@.map_values(|m: Memory| m@),
                corpus@.len() == i,
                forall|k: int|
                    0 <= k < i ==> corpus_view(corpus@)[k] == mem_terms_of(#[trigger] ms[k]),
            decreases memories.len() - i,
        {
            let low = lowercase(memories[i].content.as_str());
            let ch = chars_vec(low.as_str());
            let ts = split_terms(&ch);
            let ghost old_corpus = corpus@;
            corpus.push(ts);
            proof {
                assert(corpus_view(corpus@)[i as int] == (corpus@[i as int]@).map_values(
                    |t: Vec<char>| t@,
                ));
                assert(forall|k: int|
                    0 <= k < i ==> corpus_view(corpus@)[k] == corpus_view(old_corpus)[k]);
                assert(ms[i as int] == memories@[i as int]@);
            }
            i = i + 1;
        }
        proof {
            assert(corpus_view(corpus@) =~= ms.map_values(|m: MemoryModel| mem_terms_of(m)));
        }
        // The distinct lowercased query terms, when a query was given.
        let qterms: Option<Vec<Vec<char>>> = match query {
            Some(qs) => {
                let lq = lowercase(qs);
                let qc = chars_vec(lq.as_str());
                let all = split_terms(&qc);
                Some(dedup_terms(&all))
            },
            None => None,
        };
        let now = now_timestamp();
        let mut scored: Vec<ScoredMemory> = Vec::new();
        let ghost qspec: Option<Seq<char>> = match query {
            Some(q) => Some(lower_of(q@)),
            None => None,
        };
        let mut i: usize = 0;
        proof {
            assert(scored@.map_values(|sm: ScoredMemory| sm@) =~= spec_scored_list(
                ms,
                tv,
                qspec,
                now as int,
            ).take(0));
        }
        while i < memories.len()
            invariant
                i <= memories@.len(),
                ms == memories@.map_values(|m: Memory| m@),
                ms.len() == memories@.len() <= 0xFFFFFFFF,
                forall|k: int| 0 <= k < memories@.len() ==> (#[trigger] memories@[k]).wf(),
                corpus_view(corpus@) == ms.map_values(|m: MemoryModel| mem_terms_of(m)),
                corpus@.len() == ms.len(),
                tv == spec_table_for(self@, mode@),
                table_view(*table) == tv,
                forall|e: int| 0 <= e < tv.len() ==> (#[trigger] tv[e]).1 <= SCORE_SCALE,
                valid_timestamp(now as int),
                (match (query, qterms) {
                    (Some(q), Some(qt)) => qt@.map_values(|t: Vec<char>| t@) == dedup_spec(
                        split_spec(lower_of(q@)),
                    ),
                    (None, None) => true,
                    _ => false,
                }),
                qspec == (match query {
                    Some(q) => Some(lower_of(q@)),
                    None => None::<Seq<char>>,
                }),
                scored@.len() == i,
                scored@.map_values(|sm: ScoredMemory| sm@) == spec_scored_list(
                    ms,
                    tv,
                    qspec,
                    now as int,
                ).take(i as int),
                forall|k: int|
                    0 <= k < scored@.len() ==> (#[trigger] scored@[k]).memory.wf()
                        && scored@[k].score.wf(),
            decreases memories.len() - i,
        {
            let msum = meta_sum(table, &memories[i].metadata);
            let tlen = table.len();
            let meta_score: u128 = msum / (if tlen == 0 {
                1
            } else {
                tlen as u128
            });
            proof {
                assert(memories@[i as int]@.metadata == memories@[i as int].metadata@);
                assert(tv.len() == table@.len());
                assert(meta_score as int == spec_meta_score(tv, ms[i as int].metadata));
                lemma_div_nonincreasing(msum as int, if tlen == 0 {
                    1int
                } else {
                    tlen as int
                });
            }
            proof {
                assert(ms[i as int] == memories@[i as int]@);
            }
            let content: u64 = content_score(
                &corpus,
                i,
                &qterms,
                memories[i].last_accessed,
                now,
                Ghost(ms),
                Ghost(qspec),
            );
            let score = combine_scores(content, meta_score);
            let mem_i = memories[i].clone();
            let ghost mem_iv = mem_i@;
            let ghost old_scored = scored@;
            scored.push(ScoredMemory { memory: mem_i, score });
            proof {
                let list = spec_scored_list(ms, tv, qspec, now as int);
                assert(list[i as int].memory == ms[i as int]);
                assert(list[i as int].score == spec_score_of(ms, ms[i as int], tv, qspec, now as int));
                assert(mem_iv == ms[i as int]);
                assert(content as int == (match qspec {
                    Some(qlow) => spec_content_query_score(ms[i as int], qlow, ms),
                    None => spec_recency_score(ms[i as int].last_accessed, now as int),
                }));
                assert(score.spec_value() == spec_combine(content as int, meta_score as int));
                assert(score.spec_value() == spec_score_of(ms, ms[i as int], tv, qspec, now as int));
                assert(scored@.last()@ == (ScoredModel { memory: mem_iv, score: score.spec_value() }));
                assert(scored@.map_values(|sm: ScoredMemory| sm@)[i as int] == list[i as int]);
                assert(scored@.map_values(|sm: ScoredMemory| sm@) =~= list.take(i + 1));
            }
            i = i + 1;
        }
        proof {
            assert(spec_scored_list(ms, tv, qspec, now as int).take(i as int) =~= spec_scored_list(
                ms,
                tv,
                qspec,
                now as int,
            ));
        }
        let r = sort_scored_desc(&scored);
        proof {
            match query {
                Some(q) => {
                    assert(spec_scored_list(ms, tv, qspec, now as int) =~= spec_scored_list(
                        ms,
                        tv,
                        Some(lower_of(q@)),
                        0,
                    ));
                },
                None => {
                    assert(valid_timestamp(now as int) && r@.map_values(|sm: ScoredMemory| sm@)
                        == spec_score_memories(ms, self@, mode@, None, now as int));
                },
            }
        }
        r
    }
}

} // verus!
