//! The memory store: a write-through in-process cache layered over a
//! repository. Creation writes the repository first and then the cache;
//! a retrieval that hits the cache refreshes the access time in both.
//! The cache has no eviction: it grows for the store's lifetime, which is
//! deliberate at this deployment's scale.

use vstd::prelude::*;

use crate::errors::StorageError;
use crate::memory::{str_eq, view_opt_string, Memory, MemoryId, MemoryMetadata, MemoryModel};
use crate::repository::{
    lemma_remove_id_members, remove_id, row_matches_except_access, row_repr_of, row_tokens_of,
    touch_rows, upsert_row, InMemoryRepository, MemoryRepository, RowModel,
};
use crate::sqlite::SqliteMemoryRepository;
use crate::time::{now_timestamp, rfc3339_of};
use crate::tokenizer::{simple_count, TokenCount, Tokenizer, TokenizerType};

verus! {

/// A row that is in the table keeps its place in the table after an upsert
/// under a different id.
proof fn lemma_contains_after_upsert(rows: Seq<RowModel>, row: RowModel, newrow: RowModel)
    requires
        rows.contains(row),
        row.id != newrow.id,
    ensures
        upsert_row(rows, newrow).contains(row),
{
    lemma_remove_id_members(rows, newrow.id);
    let k = choose|k: int| 0 <= k < rows.len() && rows[k] == row;
    assert(remove_id(rows, newrow.id).contains(rows[k]));
    let removed = remove_id(rows, newrow.id);
    let w = choose|w: int| 0 <= w < removed.len() && removed[w] == row;
    assert(upsert_row(rows, newrow)[w] == row);
}

/// The entry of `cache` holding `id`, if any.
pub open spec fn cached_in(cache: Seq<MemoryModel>, id: Seq<char>) -> Option<MemoryModel> {
    if exists|j: int| 0 <= j < cache.len() && (#[trigger] cache[j]).id == id {
        Some(cache[choose|j: int| 0 <= j < cache.len() && (#[trigger] cache[j]).id == id])
    } else {
        None
    }
}

/// No two cache entries share an id.
pub open spec fn distinct_cache_ids(cache: Seq<MemoryModel>) -> bool {
    forall|a: int, b: int| 0 <= a < b < cache.len() ==> (#[trigger] cache[a]).id != (
    #[trigger] cache[b]).id
}

/// With distinct ids, the record for an id is exactly the entry holding it.
proof fn lemma_cached_in_unique(cache: Seq<MemoryModel>, i: int)
    requires
        distinct_cache_ids(cache),
        0 <= i < cache.len(),
    ensures
        cached_in(cache, cache[i].id) == Some(cache[i]),
{
    let id = cache[i].id;
    assert(exists|j: int| 0 <= j < cache.len() && (#[trigger] cache[j]).id == id);
    let j = choose|j: int| 0 <= j < cache.len() && (#[trigger] cache[j]).id == id;
    if j != i {
        if j < i {
            assert(cache[j].id != cache[i].id);
        } else {
            assert(cache[i].id != cache[j].id);
        }
    }
}

/// Replacing one entry in place (under its own id) leaves every other id's
/// record alone.
proof fn lemma_cached_in_update(cache: Seq<MemoryModel>, i: int, e: MemoryModel, other: Seq<char>)
    requires
        distinct_cache_ids(cache),
        0 <= i < cache.len(),
        e.id == cache[i].id,
        other != cache[i].id,
    ensures
        cached_in(cache.update(i, e), other) == cached_in(cache, other),
{
    let fc = cache.update(i, e);
    if exists|j: int| 0 <= j < cache.len() && (#[trigger] cache[j]).id == other {
        let j0 = choose|j: int| 0 <= j < cache.len() && (#[trigger] cache[j]).id == other;
        assert(j0 != i);
        assert(fc[j0] == cache[j0]);
        assert(exists|j: int| 0 <= j < fc.len() && (#[trigger] fc[j]).id == other);
        let j1 = choose|j: int| 0 <= j < fc.len() && (#[trigger] fc[j]).id == other;
        assert(j1 != i);
        assert(cache[j1] == fc[j1]);
        if j0 != j1 {
            if j0 < j1 {
                assert(cache[j0].id != cache[j1].id);
            } else {
                assert(cache[j1].id != cache[j0].id);
            }
        }
    } else {
        assert forall|j: int| 0 <= j < fc.len() implies (#[trigger] fc[j]).id != other by {
            if j != i {
                assert(fc[j] == cache[j]);
            }
        }
    }
}

/// A new entry under a fresh id leaves every other id's record alone.
proof fn lemma_cached_in_push(cache: Seq<MemoryModel>, e: MemoryModel, other: Seq<char>)
    requires
        distinct_cache_ids(cache),
        other != e.id,
    ensures
        cached_in(cache.push(e), other) == cached_in(cache, other),
{
    let fc = cache.push(e);
    if exists|j: int| 0 <= j < cache.len() && (#[trigger] cache[j]).id == other {
        let j0 = choose|j: int| 0 <= j < cache.len() && (#[trigger] cache[j]).id == other;
        assert(fc[j0] == cache[j0]);
        assert(exists|j: int| 0 <= j < fc.len() && (#[trigger] fc[j]).id == other);
        let j1 = choose|j: int| 0 <= j < fc.len() && (#[trigger] fc[j]).id == other;
        assert(j1 != cache.len());
        assert(cache[j1] == fc[j1]);
        if j0 != j1 {
            if j0 < j1 {
                assert(cache[j0].id != cache[j1].id);
            } else {
                assert(cache[j1].id != cache[j0].id);
            }
        }
    } else {
        assert forall|j: int| 0 <= j < fc.len() implies (#[trigger] fc[j]).id != other by {
            if j != cache.len() {
                assert(fc[j] == cache[j]);
            }
        }
    }
}

/// The write-through store: a repository plus a cache and the tokenizer
/// that counts each new memory's content exactly once.
pub struct MemoryStore<R: MemoryRepository> {
    repository: R,
    tokenizer: Tokenizer,
    cache: Vec<Memory>,
}

impl<R: MemoryRepository> MemoryStore<R> {
    /// The rows the backing repository holds.
    pub closed spec fn repo_rows(&self) -> Seq<RowModel> {
        self.repository.rows()
    }

    /// The cached memories.
    pub closed spec fn cache_models(&self) -> Seq<MemoryModel> {
        self.cache@.map_values(|m: Memory| m@)
    }

    /// The strategy of the store's tokenizer.
    pub closed spec fn tokenizer_strategy(&self) -> TokenizerType {
        self.tokenizer.spec_strategy()
    }

    /// The store's invariant: the repository is sound, cached ids are
    /// distinct, every cached memory is well-formed, and every cached
    /// memory's row is in the repository (write-through coherence).
    pub closed spec fn inv(&self) -> bool {
        &&& self.repository.inv()
        &&& forall|a: int, b: int|
            0 <= a < b < self.cache_models().len() ==> (#[trigger] self.cache_models()[a]).id != (
            #[trigger] self.cache_models()[b]).id
        &&& forall|j: int| 0 <= j < self.cache@.len() ==> (#[trigger] self.cache@[j]).wf()
        &&& forall|j: int|
            0 <= j < self.cache_models().len() ==> self.repo_rows().contains(
                row_repr_of(#[trigger] self.cache_models()[j]),
            )
    }

    /// The memory the store currently caches under `id`, if any.
    pub open spec fn spec_cached(&self, id: Seq<char>) -> Option<MemoryModel> {
        cached_in(self.cache_models(), id)
    }

    /// The access time the store currently records for `id` in its cache.
    pub open spec fn spec_last_accessed(&self, id: Seq<char>) -> Option<int> {
        match self.spec_cached(id) {
            Some(m) => Some(m.last_accessed),
            None => None,
        }
    }

    /// The store's invariant keeps the repository's row ids distinct: the
    /// bridge that makes the listing `get_all_ids` returns duplicate-free
    /// (through `lemma_ids_duplicate_free`) and lets a caller apply the
    /// aggregate-consistency law to it.
    pub proof fn lemma_inv_distinct_ids(&self)
        requires
            self.inv(),
        ensures
            crate::repository::distinct_ids(self.repo_rows()),
    {
        self.repository.inv_implies_distinct();
    }

    /// The index of the cached entry holding `id`, if any.
    fn cache_index(&self, id: &str) -> (r: Option<usize>)
        ensures
            match r {
                Some(i) => i < self.cache@.len() && self.cache_models()[i as int].id == id@,
                None => forall|j: int|
                    0 <= j < self.cache_models().len() ==> (#[trigger] self.cache_models()[j]).id
                        != id@,
            },
    {
        let mut i: usize = 0;
        while i < self.cache.len()
            invariant
                i <= self.cache@.len(),
                forall|j: int|
                    0 <= j < i ==> (#[trigger] self.cache_models()[j]).id != id@,
            decreases self.cache.len() - i,
        {
            if str_eq(self.cache[i].id.as_str(), id) {
                proof {
                    assert(self.cache_models()[i as int] == self.cache@[i as int]@);
                }
                return Some(i);
            }
            proof {
                assert(self.cache_models()[i as int] == self.cache@[i as int]@);
            }
            i = i + 1;
        }
        None
    }

    /// Build a memory from the inputs, write it to the repository, then
    /// insert it into the cache. Fails only if the repository write fails,
    /// and then changes nothing.
    pub fn store(
        &mut self,
        content: String,
        content_type: String,
        category: Option<String>,
        mode: Option<String>,
        metadata: MemoryMetadata,
    ) -> (r: Result<Memory, StorageError>)
        requires
            old(self).inv(),
            metadata.wf(),
        ensures
            final(self).inv(),
            final(self).tokenizer_strategy() == old(self).tokenizer_strategy(),
            match r {
                Ok(m) => {
                    &&& m.wf()
                    &&& m@.content == content@
                    &&& m@.content_type == content_type@
                    &&& m@.category == view_opt_string(category)
                    &&& m@.mode == view_opt_string(mode)
                    &&& m@.metadata == metadata@
                    &&& (old(self).tokenizer_strategy() == TokenizerType::Simple ==> m@.token_count
                        == simple_count(content@))
                    &&& m@.created_at == m@.last_accessed
                    &&& final(self).repo_rows() == upsert_row(
                        old(self).repo_rows(),
                        row_repr_of(m@),
                    )
                    &&& final(self).spec_cached(m@.id) == Some(m@)
                },
                Err(_) => final(self).repo_rows() == old(self).repo_rows() && final(self).cache_models() == old(self).cache_models(),
            },
    {
        let m = Memory::new(content, content_type, category, mode, metadata, &self.tokenizer);
        match self.repository.store(&m) {
            Ok(()) => {},
            Err(e) => {
                return Err(e);
            },
        }
        // insert-or-replace in the cache
        let ghost pre_cache = self.cache_models();
        match self.cache_index(m.id.as_str()) {
            Some(i) => {
                self.cache.remove(i);
                proof {
                    assert(self.cache_models() =~= pre_cache.remove(i as int));
                }
            },
            None => {},
        }
        let ghost mid_cache = self.cache_models();
        proof {
            assert(forall|j: int|
                0 <= j < mid_cache.len() ==> (#[trigger] mid_cache[j]).id != m@.id);
            assert(forall|j: int| 0 <= j < mid_cache.len() ==> pre_cache.contains(
                #[trigger] mid_cache[j],
            )) by {
                assert(forall|j: int|
                    0 <= j < mid_cache.len() ==> mid_cache[j] == pre_cache[j] || mid_cache[j]
                        == pre_cache[j + 1]);
            }
        }
        self.cache.push(m.clone());
        proof {
            assert(self.cache_models() =~= mid_cache.push(m@));
            assert forall|j: int|
                0 <= j < self.cache_models().len() implies self.repo_rows().contains(
                row_repr_of(#[trigger] self.cache_models()[j]),
            ) by {
                if j < mid_cache.len() {
                    let c = mid_cache[j];
                    assert(pre_cache.contains(c));
                    let w = choose|w: int| 0 <= w < pre_cache.len() && pre_cache[w] == c;
                    assert(old(self).repo_rows().contains(row_repr_of(c)));
                    lemma_contains_after_upsert(
                        old(self).repo_rows(),
                        row_repr_of(c),
                        row_repr_of(m@),
                    );
                } else {
                    assert(self.cache_models()[j] == m@);
                    let n = self.repo_rows().len();
                    assert(self.repo_rows()[n - 1] == row_repr_of(m@));
                }
            }
            let ghost fm = self.cache_models();
            assert(fm[fm.len() - 1] == m@);
            assert(self.spec_cached(m@.id) == Some(m@)) by {
                let j = choose|j: int| 0 <= j < fm.len() && (#[trigger] fm[j]).id == m@.id;
                if j != fm.len() - 1 {
                    assert(fm[j].id != fm[fm.len() - 1].id);
                }
            }
        }
        Ok(m)
    }

    /// Retrieve a memory by id. A cache hit refreshes the access time in
    /// the cached entry and, write-through, in the repository; a miss reads
    /// the repository and fills the cache; an absent id is a valid `None`.
    /// Beyond the access time of the requested id, nothing changes: the
    /// repository rows move only by `touch_rows` on that id, and every
    /// other id's cache record stays.
    pub fn retrieve(&mut self, id: &MemoryId) -> (r: Result<Option<Memory>, StorageError>)
        requires
            old(self).inv(),
        ensures
            final(self).inv(),
            final(self).tokenizer_strategy() == old(self).tokenizer_strategy(),
            match r {
                Ok(Some(m)) => {
                    &&& m.wf()
                    &&& m@.id == id@
                    &&& final(self).spec_cached(id@) == Some(m@)
                    &&& (old(self).spec_last_accessed(id@) matches Some(t) ==> m@.last_accessed
                        >= t)
                    &&& (old(self).spec_cached(id@) matches Some(c) ==> m@ == (MemoryModel {
                        last_accessed: m@.last_accessed,
                        ..c
                    }))
                    &&& exists|k: int|
                        0 <= k < old(self).repo_rows().len() && row_matches_except_access(
                            #[trigger] old(self).repo_rows()[k],
                            m@,
                        )
                    &&& final(self).repo_rows() == touch_rows(
                        old(self).repo_rows(),
                        id@,
                        rfc3339_of(m@.last_accessed),
                    )
                    &&& (forall|other: Seq<char>|
                        other != id@ ==> final(self).spec_cached(other) == old(self).spec_cached(
                            other,
                        ))
                    &&& final(self).repo_rows().contains(row_repr_of(m@))
                },
                Ok(None) => {
                    &&& forall|k: int|
                        0 <= k < old(self).repo_rows().len() ==> (#[trigger] old(
                            self,
                        ).repo_rows()[k]).id != id@
                    &&& final(self).repo_rows() == old(self).repo_rows()
                    &&& final(self).cache_models() == old(self).cache_models()
                },
                Err(_) => final(self).repo_rows() == old(self).repo_rows() && final(self).cache_models() == old(self).cache_models(),
            },
    {
        let found = self.cache_index(id.as_str());
        match found {
            Some(i) => {
                let now = now_timestamp();
                let mut e = self.cache[i].clone();
                proof {
                    assert(self.cache_models()[i as int] == self.cache@[i as int]@);
                }
                e.touch_at(now);
                match self.repository.touch(id.as_str(), e.last_accessed) {
                    Ok(()) => {},
                    Err(err) => {
                        return Err(err);
                    },
                }
                let ghost old_cache = self.cache_models();
                let ghost old_rows = old(self).repo_rows();
                let result = e.clone();
                self.cache[i] = e;
                proof {
                    let ts = rfc3339_of(result@.last_accessed);
                    assert(distinct_cache_ids(old_cache));
                    assert(self.cache_models() =~= old_cache.update(i as int, result@));
                    assert(self.repo_rows() == touch_rows(old_rows, id@, ts));
                    assert forall|j: int|
                        0 <= j < self.cache_models().len() implies self.repo_rows().contains(
                        row_repr_of(#[trigger] self.cache_models()[j]),
                    ) by {
                        if j == i {
                            let c_old = old_cache[i as int];
                            assert(old_rows.contains(row_repr_of(c_old)));
                            let w = choose|w: int|
                                0 <= w < old_rows.len() && old_rows[w] == row_repr_of(c_old);
                            assert(touch_rows(old_rows, id@, ts)[w] == (RowModel {
                                last_accessed: ts,
                                ..row_repr_of(c_old)
                            }));
                            assert(self.cache_models()[j] == result@);
                            assert(row_repr_of(result@) == (RowModel {
                                last_accessed: ts,
                                ..row_repr_of(c_old)
                            }));
                        } else {
                            let c = old_cache[j];
                            assert(self.cache_models()[j] == c);
                            assert(old_rows.contains(row_repr_of(c)));
                            let w = choose|w: int|
                                0 <= w < old_rows.len() && old_rows[w] == row_repr_of(c);
                            assert(c.id != old_cache[i as int].id);
                            assert(touch_rows(old_rows, id@, ts)[w] == old_rows[w]);
                        }
                    }
                    assert(forall|a: int, b: int|
                        0 <= a < b < self.cache_models().len() ==> (
                        #[trigger] self.cache_models()[a]).id != (
                        #[trigger] self.cache_models()[b]).id) by {
                        assert(forall|j: int|
                            0 <= j < self.cache_models().len() ==> (
                            #[trigger] self.cache_models()[j]).id == old_cache[j].id);
                    }
                    // the cache record under the requested id, before and after
                    lemma_cached_in_unique(old_cache, i as int);
                    assert(old(self).spec_cached(id@) == Some(old_cache[i as int]));
                    assert(distinct_cache_ids(self.cache_models()));
                    lemma_cached_in_unique(self.cache_models(), i as int);
                    assert(self.spec_cached(id@) == Some(result@));
                    // every other id keeps its record
                    assert forall|other: Seq<char>| other != id@ implies self.spec_cached(other)
                        == old(self).spec_cached(other) by {
                        lemma_cached_in_update(old_cache, i as int, result@, other);
                    }
                    // the stored row backing the hit, unchanged but for its stamp
                    let c_old = old_cache[i as int];
                    assert(old_rows.contains(row_repr_of(c_old)));
                    let w = choose|w: int|
                        0 <= w < old_rows.len() && old_rows[w] == row_repr_of(c_old);
                    assert(result@ == (MemoryModel {
                        last_accessed: result@.last_accessed,
                        ..c_old
                    }));
                    assert(row_matches_except_access(old_rows[w], result@));
                }
                Ok(Some(result))
            },
            None => {
                let fetched = match self.repository.retrieve(id.as_str()) {
                    Ok(v) => v,
                    Err(e) => {
                        return Err(e);
                    },
                };
                match fetched {
                    Some(m) => {
                        let result = m.clone();
                        let ghost old_cache = self.cache_models();
                        let ghost rows = old(self).repo_rows();
                        self.cache.push(m);
                        proof {
                            let ts = rfc3339_of(result@.last_accessed);
                            assert(distinct_cache_ids(old_cache));
                            assert(self.cache_models() =~= old_cache.push(result@));
                            // the rows hold the decoded row under this id ...
                            let k0 = choose|k: int|
                                0 <= k < rows.len() && rows[k] == row_repr_of(result@);
                            assert(rows[k0].id == id@);
                            assert(row_matches_except_access(rows[k0], result@));
                            // ... uniquely, and its stamp is already the result's,
                            // so touching it rewrites nothing
                            self.repository.inv_implies_distinct();
                            assert forall|k: int|
                                0 <= k < rows.len() implies touch_rows(rows, id@, ts)[k]
                                == rows[k] by {
                                if rows[k].id == id@ {
                                    if k != k0 {
                                        if k < k0 {
                                            assert(rows[k].id != rows[k0].id);
                                        } else {
                                            assert(rows[k0].id != rows[k].id);
                                        }
                                    }
                                    assert(rows[k].last_accessed == ts);
                                }
                            }
                            assert(touch_rows(rows, id@, ts) =~= rows);
                            assert(self.repo_rows().contains(row_repr_of(result@))) by {
                                assert(self.repo_rows()[k0] == row_repr_of(result@));
                            }
                            // the requested id was not cached before
                            assert(old(self).spec_cached(id@) is None);
                            // now it is, and no other record moved
                            let fm = self.cache_models();
                            assert(fm[fm.len() - 1] == result@);
                            assert(self.spec_cached(id@) == Some(result@)) by {
                                let j = choose|j: int|
                                    0 <= j < fm.len() && (#[trigger] fm[j]).id == id@;
                                if j != fm.len() - 1 {
                                    assert(fm[j].id != id@);
                                }
                            }
                            assert forall|other: Seq<char>| other != id@ implies self.spec_cached(
                                other,
                            ) == old(self).spec_cached(other) by {
                                lemma_cached_in_push(old_cache, result@, other);
                            }
                        }
                        Ok(Some(result))
                    },
                    None => Ok(None),
                }
            },
        }
    }

    /// Every stored memory id, straight from the repository (the cache is
    /// not consulted: writes always reach the repository first).
    pub fn get_all_ids(&self) -> (r: Result<Vec<MemoryId>, StorageError>)
        requires
            self.inv(),
        ensures
            match r {
                Ok(ids) => ids@.map_values(|i: MemoryId| i@).to_multiset() == self.repo_rows()
                    .map_values(|row: RowModel| row.id).to_multiset(),
                Err(_) => true,
            },
    {
        self.repository.get_all_ids()
    }

    /// The total token count across all stored memories, straight from the
    /// repository.
    pub fn total_tokens(&self) -> (r: Result<TokenCount, StorageError>)
        requires
            self.inv(),
        ensures
            match r {
                Ok(t) => t.0 as int == row_tokens_of(self.repo_rows()),
                Err(_) => true,
            },
    {
        self.repository.total_tokens()
    }
}

impl MemoryStore<InMemoryRepository> {
    /// A store over a fresh in-memory repository.
    pub fn new_in_memory(tokenizer: Tokenizer) -> (r: MemoryStore<InMemoryRepository>)
        ensures
            r.inv(),
            r.repo_rows() == Seq::<RowModel>::empty(),
            r.cache_models() == Seq::<MemoryModel>::empty(),
            r.tokenizer_strategy() == tokenizer.spec_strategy(),
    {
        let r = MemoryStore {
            repository: InMemoryRepository::new(),
            tokenizer,
            cache: Vec::new(),
        };
        proof {
            assert(r.cache_models() =~= Seq::<MemoryModel>::empty());
        }
        r
    }
}

impl MemoryStore<SqliteMemoryRepository> {
    /// A store over the SQLite database file at `db_path`.
    pub fn new_sqlite(db_path: &str, tokenizer: Tokenizer) -> (r: Result<
        MemoryStore<SqliteMemoryRepository>,
        StorageError,
    >)
        ensures
            match r {
                Ok(s) => s.inv() && s.cache_models() == Seq::<MemoryModel>::empty()
                    && s.tokenizer_strategy() == tokenizer.spec_strategy(),
                Err(_) => true,
            },
    {
        let repository = match SqliteMemoryRepository::new(db_path) {
            Ok(repo) => repo,
            Err(e) => {
                return Err(e);
            },
        };
        let r = MemoryStore { repository, tokenizer, cache: Vec::new() };
        proof {
            assert(r.cache_models() =~= Seq::<MemoryModel>::empty());
        }
        Ok(r)
    }
}

/// Law (round trip): a stored memory comes back from retrieval unchanged
/// except for the access time — in particular with the stored content and
/// the token count computed once at creation. `store` records the stored
/// memory as the cache's record for its id, `retrieve` returns that record
/// changed only in `last_accessed`, and this lemma spells out what the
/// equality gives.
pub proof fn lemma_round_trip(stored: MemoryModel, retrieved: MemoryModel)
    requires
        retrieved == (MemoryModel { last_accessed: retrieved.last_accessed, ..stored }),
    ensures
        retrieved.content == stored.content,
        retrieved.token_count == stored.token_count,
        retrieved.created_at == stored.created_at,
        retrieved.metadata == stored.metadata,
{
}

/// Law (monotonic access time): chaining `retrieve`'s contract with itself.
/// A successful retrieval records its result's access time as the store's
/// record for that id; the next successful retrieval of the same id returns
/// an access time at least that record. So successive retrievals see
/// non-decreasing `last_accessed` values.
pub proof fn lemma_monotonic_access_time(
    record_after_first: Option<int>,
    first: int,
    second: int,
)
    requires
        record_after_first == Some(first),
        record_after_first matches Some(t) ==> second >= t,
    ensures
        second >= first,
{
}

} // verus!
