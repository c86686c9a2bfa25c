//! Assembling the final context bundle: the selected memories' contents
//! concatenated in optimizer order, each followed by a blank line, with the
//! token total, the leading score, and per-memory provenance.

use vstd::prelude::*;
use vstd::string::StringExecFns;

use crate::errors::StorageError;
use crate::memory::{map_of_pairs, str_eq, Memory, MemoryId, MemoryModel};
use crate::optimizer::{
    lemma_optimize_budget, lemma_optimize_threshold, spec_optimize, tokens_of,
    TokenBudgetOptimizer,
};
use crate::relevance::{spec_score_memories, RelevanceScore, ScoredMemory, ScoredModel, TfIdfScorer};
use crate::repository::{row_matches_except_access, touch_rows, MemoryRepository, RowModel};
use crate::store::MemoryStore;
use crate::text::lower_of;
use crate::time::{rfc3339_of, valid_timestamp};
use crate::tokenizer::TokenCount;

verus! {

/// Whether a memory belongs to a memory-bank selection: it must carry one
/// of the requested categories (no categories requested means all pass),
/// and its metadata "date" entry must equal the requested date, if one is.
pub open spec fn spec_bank_match(
    m: MemoryModel,
    cats: Seq<Seq<char>>,
    date: Option<Seq<char>>,
) -> bool {
    &&& (cats.len() == 0 || (m.category matches Some(c) && cats.contains(c)))
    &&& (match date {
        None => true,
        Some(d) => map_of_pairs(m.metadata).dom().contains("date"@) && map_of_pairs(
            m.metadata,
        )["date"@] == d,
    })
}

/// The memories of a bank selection, in input order.
pub open spec fn spec_bank_filter(
    ms: Seq<MemoryModel>,
    cats: Seq<Seq<char>>,
    date: Option<Seq<char>>,
) -> Seq<MemoryModel>
    decreases ms.len(),
{
    if ms.len() == 0 {
        Seq::empty()
    } else if spec_bank_match(ms.last(), cats, date) {
        spec_bank_filter(ms.drop_last(), cats, date).push(ms.last())
    } else {
        spec_bank_filter(ms.drop_last(), cats, date)
    }
}

/// Whether `s` is one of the strings of `v`.
fn contains_string(v: &Vec<String>, s: &str) -> (r: bool)
    ensures
        r == v@.map_values(|x: String| x@).contains(s@),
{
    let ghost sv = v@.map_values(|x: String| x@);
    let mut i: usize = 0;
    while i < v.len()
        invariant
            i <= v@.len(),
            sv == v@.map_values(|x: String| x@),
            forall|j: int| 0 <= j < i ==> sv[j] != s@,
        decreases v.len() - i,
    {
        if str_eq(v[i].as_str(), s) {
            proof {
                assert(sv[i as int] == s@);
            }
            return true;
        }
        i = i + 1;
    }
    false
}

/// Select the memories that match a memory-bank request: those carrying
/// one of the requested categories (all, when none are requested) and,
/// when a date is requested, whose metadata "date" entry equals it.
pub fn filter_bank_memories(
    memories: &Vec<Memory>,
    categories: &Vec<String>,
    date: Option<&String>,
) -> (r: Vec<Memory>)
    requires
        forall|k: int| 0 <= k < memories@.len() ==> (#[trigger] memories@[k]).wf(),
    ensures
        r@.map_values(|m: Memory| m@) == spec_bank_filter(
            memories@.map_values(|m: Memory| m@),
            categories@.map_values(|c: String| c@),
            match date {
                Some(d) => Some(d@),
                None => None,
            },
        ),
        forall|k: int| 0 <= k < r@.len() ==> (#[trigger] r@[k]).wf(),
{
    let ghost ms = memories@.map_values(|m: Memory| m@);
    let ghost cats = categories@.map_values(|c: String| c@);
    let ghost dv: Option<Seq<char>> = match date {
        Some(d) => Some(d@),
        None => None,
    };
    let mut r: Vec<Memory> = Vec::new();
    let mut i: usize = 0;
    proof {
        assert(ms.take(0) =~= Seq::<MemoryModel>::empty());
        assert(r@.map_values(|m: Memory| m@) =~= Seq::<MemoryModel>::empty());
    }
    while i < memories.len()
        invariant
            i <= memories@.len(),
            ms == memories@.map_values(|m: Memory| m@),
            cats == categories@.map_values(|c: String| c@),
            dv == (match date {
                Some(d) => Some(d@),
                None => None::<Seq<char>>,
            }),
            forall|k: int| 0 <= k < memories@.len() ==> (#[trigger] memories@[k]).wf(),
            r@.map_values(|m: Memory| m@) == spec_bank_filter(ms.take(i as int), cats, dv),
            forall|k: int| 0 <= k < r@.len() ==> (#[trigger] r@[k]).wf(),
        decreases memories.len() - i,
    {
        proof {
            assert(ms.take(i + 1).drop_last() =~= ms.take(i as int));
            assert(ms.take(i + 1).last() == ms[i as int]);
            assert(ms[i as int] == memories@[i as int]@);
        }
        let m = &memories[i];
        let cat_ok: bool = if categories.len() == 0 {
            true
        } else {
            match &m.category {
                Some(c) => contains_string(categories, c.as_str()),
                None => false,
            }
        };
        let date_ok: bool = match date {
            None => true,
            Some(d) => match m.metadata.get("date") {
                Some(v) => str_eq(v.as_str(), d.as_str()),
                None => false,
            },
        };
        proof {
            assert((cat_ok && date_ok) == spec_bank_match(ms[i as int], cats, dv));
        }
        if cat_ok && date_ok {
            let ghost old_r = r@;
            r.push(m.clone());
            proof {
                assert(r@.map_values(|m: Memory| m@) =~= old_r.map_values(|m: Memory| m@).push(
                    ms[i as int],
                ));
            }
        }
        i = i + 1;
    }
    proof {
        assert(ms.take(i as int) =~= ms);
    }
    r
}

/// The concatenation of the selected contents, each followed by a blank
/// line, in order.
pub open spec fn spec_concat_contents(s: Seq<ScoredModel>) -> Seq<char>
    decreases s.len(),
{
    if s.len() == 0 {
        Seq::empty()
    } else {
        spec_concat_contents(s.drop_last()) + s.last().memory.content + "\n\n"@
    }
}

/// One provenance entry of an assembled context.
pub struct ContextSource {
    /// The memory's identifier.
    pub source_id: String,
    /// Its content type, or its category when assembled by category.
    pub source_type: String,
    /// Its relevance score, in millionths.
    pub relevance: u64,
}

/// An assembled context bundle.
pub struct AssembledContext {
    /// The concatenated contents.
    pub context: String,
    /// The summed token counts of the selection (saturating at the integer
    /// ceiling).
    pub token_count: u64,
    /// The first (highest) score of the selection, zero when empty.
    pub relevance_score: u64,
    /// Provenance, one entry per selected memory, in order.
    pub sources: Vec<ContextSource>,
}

/// Concatenate the selected memories into the final context bundle,
/// reporting the token total, the top score, and per-memory provenance
/// (identifier, content type, score).
pub fn assemble_context(selected: &Vec<ScoredMemory>) -> (r: AssembledContext)
    ensures
        r.context@ == spec_concat_contents(selected@.map_values(|sm: ScoredMemory| sm@)),
        tokens_of(selected@.map_values(|sm: ScoredMemory| sm@)) <= u64::MAX ==> r.token_count
            == tokens_of(selected@.map_values(|sm: ScoredMemory| sm@)),
        r.relevance_score == if selected@.len() > 0 {
            selected@[0]@.score
        } else {
            0u64
        },
        r.sources@.len() == selected@.len(),
        forall|k: int|
            0 <= k < selected@.len() ==> {
                &&& (#[trigger] r.sources@[k]).source_id@ == selected@[k]@.memory.id
                &&& r.sources@[k].source_type@ == selected@[k]@.memory.content_type
                &&& r.sources@[k].relevance == selected@[k]@.score
            },
{
    let ghost sv = selected@.map_values(|sm: ScoredMemory| sm@);
    let mut context = String::new();
    let mut total: u64 = 0;
    let mut saturated: bool = false;
    let mut sources: Vec<ContextSource> = Vec::new();
    let mut i: usize = 0;
    proof {
        assert(sv.take(0) =~= Seq::<ScoredModel>::empty());
    }
    while i < selected.len()
        invariant
            i <= selected@.len(),
            sv == selected@.map_values(|sm: ScoredMemory| sm@),
            context@ == spec_concat_contents(sv.take(i as int)),
            !saturated ==> total == tokens_of(sv.take(i as int)),
            saturated ==> tokens_of(sv.take(i as int)) > u64::MAX,
            sources@.len() == i,
            forall|k: int|
                0 <= k < i ==> {
                    &&& (#[trigger] sources@[k]).source_id@ == sv[k].memory.id
                    &&& sources@[k].source_type@ == sv[k].memory.content_type
                    &&& sources@[k].relevance == sv[k].score
                },
        decreases selected.len() - i,
    {
        proof {
            assert(sv.take(i + 1).drop_last() =~= sv.take(i as int));
            assert(sv.take(i + 1).last() == sv[i as int]);
            assert(sv[i as int] == selected@[i as int]@);
        }
        let sm = &selected[i];
        context.append(sm.memory.content.as_str());
        context.append("\n\n");
        match total.checked_add(sm.memory.token_count.0) {
            Some(v) => {
                total = v;
            },
            None => {
                total = u64::MAX;
                saturated = true;
            },
        }
        sources.push(
            ContextSource {
                source_id: sm.memory.id.as_str().to_owned(),
                source_type: sm.memory.content_type.clone(),
                relevance: sm.score.value(),
            },
        );
        i = i + 1;
    }
    proof {
        assert(sv.take(i as int) =~= sv);
        if selected@.len() > 0 {
            assert(sv[0] == selected@[0]@);
        }
    }
    let relevance_score: u64 = if selected.len() > 0 {
        selected[0].score.value()
    } else {
        0
    };
    AssembledContext { context, token_count: total, relevance_score, sources }
}

/// A memory some stored row backs: the row matches it in every field but
/// the access stamp.
pub open spec fn row_backed(rows: Seq<RowModel>, m: MemoryModel) -> bool {
    exists|w: int| 0 <= w < rows.len() && row_matches_except_access(#[trigger] rows[w], m)
}

/// The selection the pipeline makes from a memory list: scored for the
/// mode and query at a clock reading, then filtered into the budget.
pub open spec fn spec_pipeline_selection(
    ms: Seq<MemoryModel>,
    tables: Seq<(Seq<char>, Seq<(Seq<char>, u64)>)>,
    mode: Seq<char>,
    q: Option<Seq<char>>,
    now: int,
    max_tokens: u64,
    threshold: u64,
) -> Seq<ScoredModel> {
    spec_optimize(spec_score_memories(ms, tables, mode, q, now), max_tokens, threshold)
}

/// What a successfully built bundle is: for some memory list that is, one
/// for one, the repository's contents (same id multiset; each backed by a
/// stored row up to the access stamp) and some clock reading, the bundle
/// assembles exactly the scored-then-budgeted selection of that list.
pub open spec fn spec_built_from(
    bundle: AssembledContext,
    rows: Seq<RowModel>,
    tables: Seq<(Seq<char>, Seq<(Seq<char>, u64)>)>,
    mode: Seq<char>,
    q: Option<Seq<char>>,
    max_tokens: u64,
    threshold: u64,
) -> bool {
    exists|ms: Seq<MemoryModel>, t: int|
        {
            &&& valid_timestamp(t)
            &&& ms.len() == rows.len()
            &&& ms.map_values(|m: MemoryModel| m.id).to_multiset() == rows.map_values(
                |r: RowModel| r.id,
            ).to_multiset()
            &&& (forall|k: int| 0 <= k < ms.len() ==> row_backed(rows, #[trigger] ms[k]))
            &&& bundle.context@ == spec_concat_contents(
                #[trigger] spec_pipeline_selection(ms, tables, mode, q, t, max_tokens, threshold),
            )
            &&& (tokens_of(spec_pipeline_selection(ms, tables, mode, q, t, max_tokens, threshold))
                <= u64::MAX ==> bundle.token_count == tokens_of(
                spec_pipeline_selection(ms, tables, mode, q, t, max_tokens, threshold),
            ))
        }
}

/// The whole context pipeline in one call: list every stored memory,
/// retrieve each, score them for the mode (and optional query), keep what
/// fits the budget above the threshold, and assemble the bundle. On
/// success the bundle is, for some clock reading, exactly the assembly of
/// the scored-then-budgeted repository contents; in particular every
/// selected memory scored at least the threshold, and the selection fits
/// the budget except in the documented case of a single oversized leader.
pub fn build_context<R: MemoryRepository>(
    store: &mut MemoryStore<R>,
    scorer: &TfIdfScorer,
    optimizer: &TokenBudgetOptimizer,
    mode: &str,
    query: Option<&str>,
    max_tokens: TokenCount,
    relevance_threshold: RelevanceScore,
) -> (r: Result<AssembledContext, StorageError>)
    requires
        old(store).inv(),
        scorer.wf(),
    ensures
        final(store).inv(),
        match r {
            Ok(bundle) => {
                &&& (match query {
                    Some(q) => spec_built_from(
                        bundle,
                        old(store).repo_rows(),
                        scorer@,
                        mode@,
                        Some(lower_of(q@)),
                        max_tokens.0,
                        relevance_threshold.spec_value(),
                    ),
                    None => spec_built_from(
                        bundle,
                        old(store).repo_rows(),
                        scorer@,
                        mode@,
                        None::<Seq<char>>,
                        max_tokens.0,
                        relevance_threshold.spec_value(),
                    ),
                })
                &&& exists|selected: Seq<ScoredModel>|
                    {
                        &&& bundle.context@ == #[trigger] spec_concat_contents(selected)
                        &&& forall|k: int|
                            0 <= k < selected.len() ==> (#[trigger] selected[k]).score
                                >= relevance_threshold.spec_value()
                        &&& (tokens_of(selected) <= max_tokens.0 || (selected.len() == 1
                            && selected[0].memory.token_count > max_tokens.0))
                        &&& (tokens_of(selected) <= u64::MAX ==> bundle.token_count == tokens_of(
                            selected,
                        ))
                    }
            },
            Err(_) => true,
        },
{
    let ids = match store.get_all_ids() {
        Ok(ids) => ids,
        Err(e) => {
            return Err(e);
        },
    };
    let ghost old_rows = old(store).repo_rows();
    let ghost idsv = ids@.map_values(|x: MemoryId| x@);
    proof {
        broadcast use vstd::seq_lib::group_to_multiset_ensures;

        assert(idsv.len() == old_rows.len()) by {
            assert(idsv.to_multiset().len() == idsv.len());
            assert(old_rows.map_values(|r: RowModel| r.id).to_multiset().len() == old_rows.len());
        }
    }
    let mut memories: Vec<Memory> = Vec::new();
    let mut i: usize = 0;
    while i < ids.len()
        invariant
            store.inv(),
            store.tokenizer_strategy() == old(store).tokenizer_strategy(),
            idsv == ids@.map_values(|x: MemoryId| x@),
            idsv.to_multiset() == old_rows.map_values(|r: RowModel| r.id).to_multiset(),
            idsv.len() == old_rows.len(),
            store.repo_rows().len() == old_rows.len(),
            forall|k: int|
                0 <= k < old_rows.len() ==> (#[trigger] store.repo_rows()[k]) == (RowModel {
                    last_accessed: store.repo_rows()[k].last_accessed,
                    ..old_rows[k]
                }),
            memories@.len() == i,
            i <= idsv.len(),
            forall|k: int| 0 <= k < i ==> (#[trigger] memories@[k])@.id == idsv[k],
            forall|k: int| 0 <= k < i ==> (#[trigger] memories@[k]).wf(),
            forall|k: int| 0 <= k < i ==> row_backed(old_rows, (#[trigger] memories@[k])@),
        decreases ids.len() - i,
    {
        let ghost pre_rows = store.repo_rows();
        match store.retrieve(&ids[i]) {
            Ok(Some(m)) => {
                proof {
                    assert(idsv[i as int] == ids@[i as int]@);
                    // backed by an original row: the pre-call rows differ
                    // from the original ones only in their access stamps
                    let w = choose|w: int|
                        0 <= w < pre_rows.len() && row_matches_except_access(pre_rows[w], m@);
                    assert(pre_rows[w] == (RowModel {
                        last_accessed: pre_rows[w].last_accessed,
                        ..old_rows[w]
                    }));
                    assert(row_matches_except_access(old_rows[w], m@));
                    assert(row_backed(old_rows, m@));
                    // and the call only re-stamped rows again
                    let ts = rfc3339_of(m@.last_accessed);
                    assert forall|k: int|
                        0 <= k < old_rows.len() implies (#[trigger] store.repo_rows()[k])
                        == (RowModel {
                        last_accessed: store.repo_rows()[k].last_accessed,
                        ..old_rows[k]
                    }) by {
                        assert(store.repo_rows()[k] == touch_rows(
                            pre_rows,
                            ids@[i as int]@,
                            ts,
                        )[k]);
                    }
                }
                memories.push(m);
            },
            Ok(None) => {
                proof {
                    // cannot happen: the listing names an id the rows held,
                    // and re-stamping rows keeps every id
                    broadcast use vstd::seq_lib::group_to_multiset_ensures;

                    assert(idsv[i as int] == ids@[i as int]@);
                    assert(idsv.contains(idsv[i as int]));
                    assert(idsv.to_multiset().count(idsv[i as int]) > 0);
                    let row_ids = old_rows.map_values(|r: RowModel| r.id);
                    assert(row_ids.contains(idsv[i as int]));
                    let w = choose|w: int| 0 <= w < row_ids.len() && row_ids[w] == idsv[i as int];
                    assert(old_rows[w].id == idsv[i as int]);
                    assert(pre_rows[w].id == idsv[i as int]);
                    assert(false);
                }
            },
            Err(e) => {
                return Err(e);
            },
        }
        i = i + 1;
    }
    if memories.len() as u64 > 0xFFFFFFFF {
        // beyond the scorer's supported corpus size
        return Err(StorageError::Backend { operation: String::from_str("score") });
    }
    let ghost ms = memories@.map_values(|m: Memory| m@);
    proof {
        broadcast use vstd::seq_lib::group_to_multiset_ensures;

        assert(ms.map_values(|m: MemoryModel| m.id) =~= idsv);
        assert(forall|k: int| 0 <= k < ms.len() ==> row_backed(old_rows, #[trigger] ms[k])) by {
            assert(forall|k: int| 0 <= k < ms.len() ==> ms[k] == (#[trigger] memories@[k])@);
        }
    }
    let scored = scorer.score_memories(&memories, mode, query);
    let selected = optimizer.optimize(&scored, max_tokens, relevance_threshold);
    proof {
        lemma_optimize_threshold(
            scored@.map_values(|sm: ScoredMemory| sm@),
            max_tokens.0,
            relevance_threshold.spec_value(),
        );
        lemma_optimize_budget(
            scored@.map_values(|sm: ScoredMemory| sm@),
            max_tokens.0,
            relevance_threshold.spec_value(),
        );
    }
    let bundle = assemble_context(&selected);
    proof {
        let sv = selected@.map_values(|sm: ScoredMemory| sm@);
        let max = max_tokens.0;
        let thr = relevance_threshold.spec_value();
        assert({
            &&& bundle.context@ == spec_concat_contents(sv)
            &&& forall|k: int| 0 <= k < sv.len() ==> (#[trigger] sv[k]).score >= thr
            &&& (tokens_of(sv) <= max || (sv.len() == 1 && sv[0].memory.token_count > max))
            &&& (tokens_of(sv) <= u64::MAX ==> bundle.token_count == tokens_of(sv))
        });
        match query {
            Some(q) => {
                let sel = spec_pipeline_selection(
                    ms,
                    scorer@,
                    mode@,
                    Some(lower_of(q@)),
                    0,
                    max,
                    thr,
                );
                assert(sel == sv);
                assert(spec_concat_contents(sel) == bundle.context@);
                assert(spec_built_from(
                    bundle,
                    old_rows,
                    scorer@,
                    mode@,
                    Some(lower_of(q@)),
                    max,
                    thr,
                ));
            },
            None => {
                let t = choose|t: int|
                    valid_timestamp(t) && scored@.map_values(|sm: ScoredMemory| sm@)
                        == spec_score_memories(ms, scorer@, mode@, None::<Seq<char>>, t);
                let sel = spec_pipeline_selection(ms, scorer@, mode@, None::<Seq<char>>, t, max, thr);
                assert(sel == sv);
                assert(spec_concat_contents(sel) == bundle.context@);
                assert(spec_built_from(
                    bundle,
                    old_rows,
                    scorer@,
                    mode@,
                    None::<Seq<char>>,
                    max,
                    thr,
                ));
            },
        }
    }
    Ok(bundle)
}

} // verus!
