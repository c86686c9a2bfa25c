//! Durable storage of memories. A repository's contents are modeled as a
//! sequence of rows in the durable schema: plain columns for identifier,
//! content and counts, a JSON blob for metadata, and RFC 3339 strings for
//! the two timestamps.

use vstd::prelude::*;
use vstd::string::StringExecFns;

use crate::errors::StorageError;
use crate::memory::{map_of_pairs, Memory, MemoryId, MemoryModel};
use crate::time::{rfc3339_of, valid_timestamp};
use crate::tokenizer::TokenCount;

verus! {

/// The JSON blob that encodes a metadata mapping: canonical (keys sorted),
/// a function of the mapping alone. Named here; the serializing wrapper's
/// contract speaks of it.
pub uninterp spec fn metadata_blob(m: Map<Seq<char>, Seq<char>>) -> Seq<char>;

/// One row of the durable schema.
pub ghost struct RowModel {
    pub id: Seq<char>,
    pub content: Seq<char>,
    pub content_type: Seq<char>,
    pub category: Option<Seq<char>>,
    pub mode: Option<Seq<char>>,
    pub metadata_json: Seq<char>,
    pub token_count: int,
    pub created_at: Seq<char>,
    pub last_accessed: Seq<char>,
}

/// The row that faithfully stores a memory.
pub open spec fn row_repr_of(m: MemoryModel) -> RowModel {
    RowModel {
        id: m.id,
        content: m.content,
        content_type: m.content_type,
        category: m.category,
        mode: m.mode,
        metadata_json: metadata_blob(map_of_pairs(m.metadata)),
        token_count: m.token_count as int,
        created_at: rfc3339_of(m.created_at),
        last_accessed: rfc3339_of(m.last_accessed),
    }
}

/// The row stores the memory in every field except possibly the
/// last-accessed stamp (which retrieval refreshes).
pub open spec fn row_matches_except_access(row: RowModel, m: MemoryModel) -> bool {
    row == (RowModel { last_accessed: row.last_accessed, ..row_repr_of(m) })
}

/// No two rows share an id.
pub open spec fn distinct_ids(rows: Seq<RowModel>) -> bool {
    forall|a: int, b: int| 0 <= a < b < rows.len() ==> (#[trigger] rows[a]).id != (
    #[trigger] rows[b]).id
}

/// All rows except those with the given id, keeping their order.
pub open spec fn remove_id(rows: Seq<RowModel>, id: Seq<char>) -> Seq<RowModel>
    decreases rows.len(),
{
    if rows.len() == 0 {
        Seq::empty()
    } else if rows.last().id == id {
        remove_id(rows.drop_last(), id)
    } else {
        remove_id(rows.drop_last(), id).push(rows.last())
    }
}

/// Insert-or-replace keyed by id: any row with the new row's id goes, the
/// new row arrives.
pub open spec fn upsert_row(rows: Seq<RowModel>, row: RowModel) -> Seq<RowModel> {
    remove_id(rows, row.id).push(row)
}

/// The rows with the matching id get the new last-accessed string; all
/// else is untouched.
pub open spec fn touch_rows(rows: Seq<RowModel>, id: Seq<char>, ts: Seq<char>) -> Seq<RowModel> {
    rows.map_values(
        |r: RowModel|
            if r.id == id {
                RowModel { last_accessed: ts, ..r }
            } else {
                r
            },
    )
}

/// The summed token counts of the rows.
pub open spec fn row_tokens_of(rows: Seq<RowModel>) -> int
    decreases rows.len(),
{
    if rows.len() == 0 {
        0
    } else {
        row_tokens_of(rows.drop_last()) + rows.last().token_count
    }
}

/// No row carries the removed id afterwards.
pub proof fn lemma_remove_id_absent(rows: Seq<RowModel>, id: Seq<char>)
    ensures
        forall|k: int| 0 <= k < remove_id(rows, id).len() ==> (#[trigger] remove_id(rows, id)[k]).id
            != id,
    decreases rows.len(),
{
    if rows.len() > 0 {
        lemma_remove_id_absent(rows.drop_last(), id);
    }
}

/// Every row that survives the removal was a row before.
pub proof fn lemma_remove_id_members(rows: Seq<RowModel>, id: Seq<char>)
    ensures
        forall|k: int|
            0 <= k < remove_id(rows, id).len() ==> rows.contains(#[trigger] remove_id(rows, id)[k]),
        forall|k: int|
            0 <= k < rows.len() && (#[trigger] rows[k]).id != id ==> remove_id(
                rows,
                id,
            ).contains(rows[k]),
    decreases rows.len(),
{
    if rows.len() > 0 {
        lemma_remove_id_members(rows.drop_last(), id);
        let inner = remove_id(rows.drop_last(), id);
        let result = remove_id(rows, id);
        assert(forall|k: int|
            0 <= k < rows.drop_last().len() ==> #[trigger] rows.drop_last()[k] == rows[k]);
        assert forall|k: int| 0 <= k < result.len() implies rows.contains(#[trigger] result[k]) by {
            if rows.last().id == id || k < inner.len() {
                assert(result[k] == inner[k]);
                assert(rows.drop_last().contains(inner[k]));
                let w = choose|w: int|
                    0 <= w < rows.drop_last().len() && rows.drop_last()[w] == inner[k];
                assert(rows[w] == result[k]);
            } else {
                assert(result[k] == rows.last());
                assert(rows[rows.len() - 1] == result[k]);
            }
        }
        assert forall|k: int| 0 <= k < rows.len() && (#[trigger] rows[k]).id != id implies remove_id(
            rows,
            id,
        ).contains(rows[k]) by {
            if k < rows.len() - 1 {
                assert(rows.drop_last()[k] == rows[k]);
                assert(inner.contains(rows[k]));
                let w = choose|w: int| 0 <= w < inner.len() && inner[w] == rows[k];
                if rows.last().id == id {
                    assert(result[w] == rows[k]);
                } else {
                    assert(result[w] == inner[w]);
                }
            } else {
                assert(rows[k] == rows.last());
                assert(rows.last().id != id);
                assert(result.last() == rows.last());
                assert(result[result.len() - 1] == rows[k]);
            }
        }
    }
}

/// Removing rows under one id keeps the remaining ids distinct, and the
/// upsert of a row keeps the whole table's ids distinct.
pub proof fn lemma_upsert_distinct(rows: Seq<RowModel>, row: RowModel)
    requires
        distinct_ids(rows),
    ensures
        distinct_ids(upsert_row(rows, row)),
    decreases rows.len(),
{
    lemma_remove_id_distinct(rows, row.id);
    lemma_remove_id_absent(rows, row.id);
    let removed = remove_id(rows, row.id);
    let upserted = removed.push(row);
    assert forall|a: int, b: int| 0 <= a < b < upserted.len() implies (#[trigger] upserted[a]).id
        != (#[trigger] upserted[b]).id by {
        if b < removed.len() {
            assert(upserted[a] == removed[a] && upserted[b] == removed[b]);
        } else {
            assert(upserted[b] == row);
            assert(upserted[a] == removed[a]);
            assert(removed[a].id != row.id);
        }
    }
}

/// Removal keeps distinct ids distinct.
pub proof fn lemma_remove_id_distinct(rows: Seq<RowModel>, id: Seq<char>)
    requires
        distinct_ids(rows),
    ensures
        distinct_ids(remove_id(rows, id)),
    decreases rows.len(),
{
    lemma_remove_id_members(rows, id);
    let removed = remove_id(rows, id);
    lemma_remove_id_keeps_counts(rows, id);
    assert forall|a: int, b: int| 0 <= a < b < removed.len() implies (#[trigger] removed[a]).id != (
    #[trigger] removed[b]).id by {
        lemma_remove_id_index_map(rows, id, a, b);
    }
}

/// Two distinct positions of the removal result come from two distinct
/// positions of the original, so their ids differ when the original's ids
/// are distinct.
proof fn lemma_remove_id_index_map(rows: Seq<RowModel>, id: Seq<char>, a: int, b: int)
    requires
        distinct_ids(rows),
        0 <= a < b < remove_id(rows, id).len(),
    ensures
        remove_id(rows, id)[a].id != remove_id(rows, id)[b].id,
    decreases rows.len(),
{
    let removed = remove_id(rows, id);
    if rows.len() > 0 {
        assert(distinct_ids(rows.drop_last())) by {
            assert(forall|x: int|
                0 <= x < rows.drop_last().len() ==> #[trigger] rows.drop_last()[x] == rows[x]);
        }
        if rows.last().id == id {
            lemma_remove_id_index_map(rows.drop_last(), id, a, b);
        } else {
            let inner = remove_id(rows.drop_last(), id);
            if b < inner.len() {
                lemma_remove_id_index_map(rows.drop_last(), id, a, b);
                assert(removed[a] == inner[a] && removed[b] == inner[b]);
            } else {
                assert(removed[b] == rows.last());
                assert(removed[a] == inner[a]);
                lemma_remove_id_members(rows.drop_last(), id);
                assert(rows.drop_last().contains(inner[a]));
                let w = choose|w: int|
                    0 <= w < rows.drop_last().len() && rows.drop_last()[w] == inner[a];
                assert(rows[w] == inner[a]);
                assert(rows[w].id != rows[rows.len() - 1].id);
            }
        }
    }
}

/// A helper kept for the distinctness proof: removal cannot lengthen the
/// table.
proof fn lemma_remove_id_keeps_counts(rows: Seq<RowModel>, id: Seq<char>)
    ensures
        remove_id(rows, id).len() <= rows.len(),
    decreases rows.len(),
{
    if rows.len() > 0 {
        lemma_remove_id_keeps_counts(rows.drop_last(), id);
    }
}

/// An id listing that is, as a multiset, the ids of a distinct-id table
/// names no id twice. This is the listing `get_all_ids` returns, so a
/// caller may treat it as duplicate-free.
pub proof fn lemma_ids_duplicate_free(rows: Seq<RowModel>, ids: Seq<Seq<char>>)
    requires
        distinct_ids(rows),
        ids.to_multiset() == rows.map_values(|r: RowModel| r.id).to_multiset(),
    ensures
        ids.no_duplicates(),
{
    broadcast use vstd::seq_lib::group_to_multiset_ensures;

    let row_ids = rows.map_values(|r: RowModel| r.id);
    assert(row_ids.no_duplicates()) by {
        assert(forall|a: int, b: int| 0 <= a < b < row_ids.len() ==> row_ids[a] != row_ids[b]);
    }
    row_ids.lemma_multiset_has_no_duplicates();
    assert forall|a: int, b: int| 0 <= a < b < ids.len() implies ids[a] != ids[b] by {
        if ids[a] == ids[b] {
            let x = ids[a];
            assert(ids.remove(a)[b - 1] == ids[b]);
            assert(ids.remove(a).contains(x));
            assert(ids.remove(a).to_multiset().count(x) > 0);
            assert(ids.remove(a).to_multiset() == ids.to_multiset().remove(x));
            assert(ids.to_multiset().count(x) >= 2);
            assert(row_ids.to_multiset().contains(x));
            assert(row_ids.to_multiset().count(x) == 1);
        }
    }
}

/// Law (round trip, repository level): after an upsert of a memory's row,
/// the row holding that id is exactly the stored row, so whatever memory a
/// retrieval decodes from it carries the stored content and the stored
/// token count.
pub proof fn lemma_upsert_round_trip(rows: Seq<RowModel>, m: MemoryModel, m2: MemoryModel, k: int)
    requires
        0 <= k < upsert_row(rows, row_repr_of(m)).len(),
        upsert_row(rows, row_repr_of(m))[k] == row_repr_of(m2),
        m2.id == m.id,
    ensures
        m2.content == m.content,
        m2.token_count == m.token_count,
        m2.content_type == m.content_type,
        m2.category == m.category,
        m2.mode == m.mode,
    decreases rows.len(),
{
    let upserted = upsert_row(rows, row_repr_of(m));
    let removed = remove_id(rows, row_repr_of(m).id);
    lemma_remove_id_absent(rows, row_repr_of(m).id);
    if k < removed.len() {
        assert(upserted[k] == removed[k]);
        assert(removed[k].id != m.id);
        assert(false);
    } else {
        assert(upserted[k] == row_repr_of(m));
    }
}

/// The token count of the row holding `id`; zero when no row does.
pub open spec fn token_count_of(rows: Seq<RowModel>, id: Seq<char>) -> int {
    if exists|k: int| 0 <= k < rows.len() && (#[trigger] rows[k]).id == id {
        rows[choose|k: int| 0 <= k < rows.len() && (#[trigger] rows[k]).id == id].token_count
    } else {
        0
    }
}

/// The summed token counts of the rows an id listing names.
pub open spec fn sum_tokens_by_ids(rows: Seq<RowModel>, ids: Seq<Seq<char>>) -> int
    decreases ids.len(),
{
    if ids.len() == 0 {
        0
    } else {
        token_count_of(rows, ids[0]) + sum_tokens_by_ids(rows, ids.drop_first())
    }
}

/// With distinct ids, the looked-up token count is the matching row's.
proof fn lemma_token_count_unique(rows: Seq<RowModel>, id: Seq<char>, k: int)
    requires
        distinct_ids(rows),
        0 <= k < rows.len(),
        rows[k].id == id,
    ensures
        token_count_of(rows, id) == rows[k].token_count,
{
    let k2 = choose|k2: int| 0 <= k2 < rows.len() && (#[trigger] rows[k2]).id == id;
    if k2 != k {
        if k2 < k {
            assert(rows[k2].id != rows[k].id);
        } else {
            assert(rows[k].id != rows[k2].id);
        }
    }
}

/// Removing one row removes exactly its token count from the total.
proof fn lemma_row_tokens_remove(rows: Seq<RowModel>, k: int)
    requires
        0 <= k < rows.len(),
    ensures
        row_tokens_of(rows) == row_tokens_of(rows.remove(k)) + rows[k].token_count,
    decreases rows.len(),
{
    if k == rows.len() - 1 {
        assert(rows.remove(k) =~= rows.drop_last());
    } else {
        lemma_row_tokens_remove(rows.drop_last(), k);
        assert(rows.drop_last()[k] == rows[k]);
        assert(rows.remove(k).drop_last() =~= rows.drop_last().remove(k));
        assert(rows.remove(k).last() == rows.last());
    }
}

/// Removing a row keeps the remaining ids distinct.
proof fn lemma_remove_index_distinct(rows: Seq<RowModel>, k: int)
    requires
        distinct_ids(rows),
        0 <= k < rows.len(),
    ensures
        distinct_ids(rows.remove(k)),
{
    let rest = rows.remove(k);
    assert forall|a: int, b: int| 0 <= a < b < rest.len() implies (#[trigger] rest[a]).id != (
    #[trigger] rest[b]).id by {
        let a2 = if a < k {
            a
        } else {
            a + 1
        };
        let b2 = if b < k {
            b
        } else {
            b + 1
        };
        assert(rest[a] == rows[a2] && rest[b] == rows[b2]);
    }
}

/// Removing a row under another id does not change a lookup.
proof fn lemma_token_count_of_remove(rows: Seq<RowModel>, k: int, id: Seq<char>)
    requires
        distinct_ids(rows),
        0 <= k < rows.len(),
        rows[k].id != id,
    ensures
        token_count_of(rows.remove(k), id) == token_count_of(rows, id),
{
    let rest = rows.remove(k);
    lemma_remove_index_distinct(rows, k);
    if exists|w: int| 0 <= w < rows.len() && (#[trigger] rows[w]).id == id {
        let w = choose|w: int| 0 <= w < rows.len() && (#[trigger] rows[w]).id == id;
        lemma_token_count_unique(rows, id, w);
        let w2 = if w < k {
            w
        } else {
            w - 1
        };
        assert(rest[w2] == rows[w]);
        lemma_token_count_unique(rest, id, w2);
    } else {
        assert forall|w: int| 0 <= w < rest.len() implies (#[trigger] rest[w]).id != id by {
            let w2 = if w < k {
                w
            } else {
                w + 1
            };
            assert(rest[w] == rows[w2]);
        }
    }
}

/// Summing over ids that avoid a row's id ignores that row.
proof fn lemma_sum_ids_remove(rows: Seq<RowModel>, k: int, ids: Seq<Seq<char>>)
    requires
        distinct_ids(rows),
        0 <= k < rows.len(),
        forall|j: int| 0 <= j < ids.len() ==> ids[j] != rows[k].id,
    ensures
        sum_tokens_by_ids(rows, ids) == sum_tokens_by_ids(rows.remove(k), ids),
    decreases ids.len(),
{
    if ids.len() > 0 {
        lemma_token_count_of_remove(rows, k, ids[0]);
        assert(forall|j: int|
            0 <= j < ids.drop_first().len() ==> #[trigger] ids.drop_first()[j] == ids[j + 1]);
        lemma_sum_ids_remove(rows, k, ids.drop_first());
    }
}

/// Law (aggregate consistency): for any repository contents and any id
/// listing that names each stored row exactly once — as `get_all_ids`
/// returns — the sum of the token counts looked up id by id equals the
/// repository's total token count.
pub proof fn lemma_total_tokens_consistent(rows: Seq<RowModel>, ids: Seq<Seq<char>>)
    requires
        distinct_ids(rows),
        ids.to_multiset() == rows.map_values(|r: RowModel| r.id).to_multiset(),
    ensures
        sum_tokens_by_ids(rows, ids) == row_tokens_of(rows),
    decreases ids.len(),
{
    broadcast use vstd::seq_lib::group_to_multiset_ensures;

    let row_ids = rows.map_values(|r: RowModel| r.id);
    if ids.len() == 0 {
        assert(row_ids.to_multiset().len() == 0);
        assert(rows.len() == 0);
    } else {
        let id0 = ids[0];
        assert(ids.to_multiset().contains(id0)) by {
            assert(ids.contains(id0));
        }
        assert(row_ids.contains(id0));
        let k = choose|k: int| 0 <= k < row_ids.len() && row_ids[k] == id0;
        assert(rows[k].id == id0);
        lemma_token_count_unique(rows, id0, k);
        let rows2 = rows.remove(k);
        let rest = ids.drop_first();
        assert(ids.remove(0) =~= rest);
        assert(rest.to_multiset() == ids.to_multiset().remove(id0));
        assert(rows2.map_values(|r: RowModel| r.id) =~= row_ids.remove(k));
        assert(row_ids.remove(k).to_multiset() == row_ids.to_multiset().remove(id0));
        lemma_remove_index_distinct(rows, k);
        // the first id cannot recur: row ids are distinct
        assert(row_ids.no_duplicates()) by {
            assert(forall|a: int, b: int|
                0 <= a < b < row_ids.len() ==> row_ids[a] != row_ids[b]);
        }
        row_ids.lemma_multiset_has_no_duplicates();
        assert(row_ids.to_multiset().count(id0) == 1);
        assert(rest.to_multiset().count(id0) == 0);
        assert forall|j: int| 0 <= j < rest.len() implies rest[j] != rows[k].id by {
            if rest[j] == id0 {
                assert(rest.contains(id0));
                assert(rest.to_multiset().count(id0) > 0);
            }
        }
        lemma_sum_ids_remove(rows, k, rest);
        lemma_total_tokens_consistent(rows2, rest);
        lemma_row_tokens_remove(rows, k);
    }
}

/// Removing an id that no row holds changes nothing.
pub proof fn lemma_remove_id_noop(rows: Seq<RowModel>, id: Seq<char>)
    requires
        forall|k: int| 0 <= k < rows.len() ==> (#[trigger] rows[k]).id != id,
    ensures
        remove_id(rows, id) == rows,
    decreases rows.len(),
{
    if rows.len() > 0 {
        assert(forall|k: int|
            0 <= k < rows.drop_last().len() ==> #[trigger] rows.drop_last()[k] == rows[k]);
        lemma_remove_id_noop(rows.drop_last(), id);
        assert(rows[rows.len() - 1] == rows.last());
        assert(rows.drop_last().push(rows.last()) =~= rows);
    }
}

/// With distinct ids, removing an id removes exactly the one row that
/// holds it.
pub proof fn lemma_remove_id_unique(rows: Seq<RowModel>, id: Seq<char>, i: int)
    requires
        distinct_ids(rows),
        0 <= i < rows.len(),
        rows[i].id == id,
    ensures
        remove_id(rows, id) == rows.remove(i),
    decreases rows.len(),
{
    assert(distinct_ids(rows.drop_last())) by {
        assert(forall|k: int|
            0 <= k < rows.drop_last().len() ==> #[trigger] rows.drop_last()[k] == rows[k]);
    }
    if i == rows.len() - 1 {
        assert(rows.last().id == id);
        lemma_remove_id_noop(rows.drop_last(), id);
        assert(rows.remove(i) =~= rows.drop_last());
    } else {
        assert(rows.last().id != id) by {
            assert(rows[i].id != rows[rows.len() - 1].id);
        }
        assert(rows.drop_last()[i] == rows[i]);
        lemma_remove_id_unique(rows.drop_last(), id, i);
        assert(rows.drop_last().remove(i).push(rows.last()) =~= rows.remove(i));
    }
}

/// The in-memory repository: a guarded vector of memories, no persistence.
pub struct InMemoryRepository {
    entries: Vec<Memory>,
}

impl InMemoryRepository {
    /// An empty in-memory repository.
    pub fn new() -> (r: InMemoryRepository)
        ensures
            r.inv(),
            r.rows() == Seq::<RowModel>::empty(),
    {
        let r = InMemoryRepository { entries: Vec::new() };
        proof {
            assert(r.rows() =~= Seq::<RowModel>::empty());
        }
        r
    }

    /// The index of the entry holding `id`, if any.
    fn find_index(&self, id: &str) -> (r: Option<usize>)
        ensures
            match r {
                Some(i) => i < self.entries@.len() && self.rows()[i as int].id == id@,
                None => forall|k: int|
                    0 <= k < self.rows().len() ==> (#[trigger] self.rows()[k]).id != id@,
            },
    {
        let mut i: usize = 0;
        while i < self.entries.len()
            invariant
                i <= self.entries@.len(),
                forall|k: int| 0 <= k < i ==> (#[trigger] self.rows()[k]).id != id@,
            decreases self.entries.len() - i,
        {
            if crate::memory::str_eq(self.entries[i].id.as_str(), id) {
                proof {
                    assert(self.rows()[i as int] == row_repr_of(self.entries@[i as int]@));
                }
                return Some(i);
            }
            proof {
                assert(self.rows()[i as int] == row_repr_of(self.entries@[i as int]@));
            }
            i = i + 1;
        }
        None
    }
}

impl MemoryRepository for InMemoryRepository {
    closed spec fn rows(&self) -> Seq<RowModel> {
        self.entries@.map_values(|m: Memory| row_repr_of(m@))
    }

    closed spec fn inv(&self) -> bool {
        &&& distinct_ids(self.rows())
        &&& forall|k: int| 0 <= k < self.entries@.len() ==> (#[trigger] self.entries@[k]).wf()
    }

    proof fn inv_implies_distinct(&self) {
    }

    fn store(&mut self, memory: &Memory) -> (r: Result<(), StorageError>) {
        let ghost old_rows = self.rows();
        let found = self.find_index(memory.id.as_str());
        match found {
            Some(i) => {
                self.entries.remove(i);
                proof {
                    lemma_remove_id_unique(old_rows, memory@.id, i as int);
                    assert(self.rows() =~= old_rows.remove(i as int));
                }
            },
            None => {
                proof {
                    lemma_remove_id_noop(old_rows, memory@.id);
                }
            },
        }
        let ghost mid_entries = self.entries@;
        self.entries.push(memory.clone());
        proof {
            assert(self.rows() =~= mid_entries.map_values(|m: Memory| row_repr_of(m@)).push(
                row_repr_of(memory@),
            ));
            assert(self.rows() == upsert_row(old_rows, row_repr_of(memory@)));
            lemma_upsert_distinct(old_rows, row_repr_of(memory@));
        }
        Ok(())
    }

    fn retrieve(&self, id: &str) -> (r: Result<Option<Memory>, StorageError>) {
        match self.find_index(id) {
            Some(i) => {
                let m = self.entries[i].clone();
                proof {
                    assert(self.rows()[i as int] == row_repr_of(self.entries@[i as int]@));
                    assert(m@ == self.entries@[i as int]@);
                }
                Ok(Some(m))
            },
            None => Ok(None),
        }
    }

    fn touch(&mut self, id: &str, now: i64) -> (r: Result<(), StorageError>) {
        let ghost old_rows = self.rows();
        match self.find_index(id) {
            Some(i) => {
                let mut e = self.entries[i].clone();
                e.last_accessed = now;
                self.entries[i] = e;
                proof {
                    assert forall|k: int| 0 <= k < self.rows().len() implies #[trigger] self.rows()[k]
                        == touch_rows(old_rows, id@, rfc3339_of(now as int))[k] by {
                        if k != i {
                            assert(old_rows[k].id != old_rows[i as int].id);
                        }
                    }
                    assert(self.rows() =~= touch_rows(old_rows, id@, rfc3339_of(now as int)));
                    assert(distinct_ids(self.rows())) by {
                        assert(forall|k: int|
                            0 <= k < self.rows().len() ==> (#[trigger] self.rows()[k]).id
                                == old_rows[k].id);
                    }
                }
                Ok(())
            },
            None => {
                proof {
                    assert(self.rows() =~= touch_rows(old_rows, id@, rfc3339_of(now as int)));
                }
                Ok(())
            },
        }
    }

    fn get_all_ids(&self) -> (r: Result<Vec<MemoryId>, StorageError>) {
        let mut ids: Vec<MemoryId> = Vec::new();
        let mut i: usize = 0;
        while i < self.entries.len()
            invariant
                i <= self.entries@.len(),
                ids@.len() == i,
                forall|k: int| 0 <= k < i ==> (#[trigger] ids@[k])@ == self.rows()[k].id,
            decreases self.entries.len() - i,
        {
            ids.push(self.entries[i].id.clone());
            proof {
                assert(self.rows()[i as int] == row_repr_of(self.entries@[i as int]@));
            }
            i = i + 1;
        }
        proof {
            assert(ids@.map_values(|x: MemoryId| x@) =~= self.rows().map_values(
                |row: RowModel| row.id,
            ));
        }
        Ok(ids)
    }

    fn total_tokens(&self) -> (r: Result<TokenCount, StorageError>) {
        let mut sum: u64 = 0;
        let mut i: usize = 0;
        while i < self.entries.len()
            invariant
                i <= self.entries@.len(),
                sum as int == row_tokens_of(self.rows().take(i as int)),
            decreases self.entries.len() - i,
        {
            proof {
                assert(self.rows().take(i + 1).drop_last() =~= self.rows().take(i as int));
                assert(self.rows().take(i + 1).last() == self.rows()[i as int]);
                assert(self.rows()[i as int] == row_repr_of(self.entries@[i as int]@));
            }
            sum = match sum.checked_add(self.entries[i].token_count.0) {
                Some(v) => v,
                None => {
                    // a total beyond the unsigned integer range is refused
                    // as a backend failure; no real contents sum this high
                    return Err(
                        StorageError::Backend { operation: String::from_str("total tokens") },
                    );
                },
            };
            i = i + 1;
        }
        proof {
            assert(self.rows().take(i as int) =~= self.rows());
        }
        Ok(TokenCount(sum))
    }
}

/// The interface every repository offers: store, retrieve, touch, list
/// ids, and total token count, with the table of rows as the shared
/// abstraction.
pub trait MemoryRepository: Sized {
    /// The rows the repository currently holds.
    spec fn rows(&self) -> Seq<RowModel>;

    /// The repository's internal invariant.
    spec fn inv(&self) -> bool;

    /// The invariant keeps row ids distinct.
    proof fn inv_implies_distinct(&self)
        requires
            self.inv(),
        ensures
            distinct_ids(self.rows()),
    ;

    /// Store a memory: insert-or-replace keyed by its id.
    fn store(&mut self, memory: &Memory) -> (r: Result<(), StorageError>)
        requires
            old(self).inv(),
            memory.wf(),
        ensures
            final(self).inv(),
            match r {
                Ok(()) => final(self).rows() == upsert_row(old(self).rows(), row_repr_of(memory@)),
                Err(_) => final(self).rows() == old(self).rows(),
            },
    ;

    /// Retrieve the memory stored under `id`, if any. An absent id is not
    /// an error.
    fn retrieve(&self, id: &str) -> (r: Result<Option<Memory>, StorageError>)
        requires
            self.inv(),
        ensures
            match r {
                Ok(Some(m)) => m.wf() && m@.id == id@ && exists|k: int|
                    0 <= k < self.rows().len() && self.rows()[k] == row_repr_of(m@),
                Ok(None) => forall|k: int|
                    0 <= k < self.rows().len() ==> (#[trigger] self.rows()[k]).id != id@,
                Err(_) => true,
            },
    ;

    /// Set the last-accessed time of the row under `id` (if any) to `now`.
    fn touch(&mut self, id: &str, now: i64) -> (r: Result<(), StorageError>)
        requires
            old(self).inv(),
            valid_timestamp(now as int),
        ensures
            final(self).inv(),
            match r {
                Ok(()) => final(self).rows() == touch_rows(
                    old(self).rows(),
                    id@,
                    rfc3339_of(now as int),
                ),
                Err(_) => final(self).rows() == old(self).rows(),
            },
    ;

    /// Every stored id, in an order the repository chooses.
    fn get_all_ids(&self) -> (r: Result<Vec<MemoryId>, StorageError>)
        requires
            self.inv(),
        ensures
            match r {
                Ok(ids) => ids@.map_values(|i: MemoryId| i@).to_multiset() == self.rows()
                    .map_values(|row: RowModel| row.id).to_multiset(),
                Err(_) => true,
            },
    ;

    /// The summed token counts over all rows; zero when empty.
    fn total_tokens(&self) -> (r: Result<TokenCount, StorageError>)
        requires
            self.inv(),
        ensures
            match r {
                Ok(t) => t.0 as int == row_tokens_of(self.rows()),
                Err(_) => true,
            },
    ;
}

} // verus!
