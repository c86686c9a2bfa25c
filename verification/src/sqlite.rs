//! The durable repository: a single SQLite connection to one database file,
//! holding the memories table described by the durable schema. The ghost
//! table of rows abstracts the file's contents; each SQL statement's
//! contract states what it does to that table.
//!
//! The contracts assume this connection is the file's only writer, which
//! the engine's single-connection design provides, and that the file's
//! rows conform to the declared column types. Rows written by others are
//! still read defensively: whatever fails to decode canonically comes back
//! as a corrupt-record error rather than a wrong value.

use vstd::prelude::*;
use vstd::string::StringExecFns;

use crate::errors::StorageError;
use crate::memory::{map_of_pairs, str_eq, view_opt_string, Memory, MemoryId, MemoryMetadata};
use crate::repository::{
    distinct_ids, lemma_upsert_distinct, metadata_blob, row_repr_of, row_tokens_of, touch_rows,
    upsert_row, MemoryRepository, RowModel,
};
use crate::time::{format_rfc3339, parse_rfc3339, rfc3339_of, valid_timestamp, MAX_TIMESTAMP};
use crate::tokenizer::TokenCount;

verus! {

#[verifier::external_type_specification]
#[verifier::external_body]
pub struct ExConnection(rusqlite::Connection);

/// One row as read back from the database.
struct SqlRow {
    id: String,
    content: String,
    content_type: String,
    category: Option<String>,
    mode: Option<String>,
    metadata_json: String,
    token_count: i64,
    created_at: String,
    last_accessed: String,
}

impl View for SqlRow {
    type V = RowModel;

    closed spec fn view(&self) -> RowModel {
        RowModel {
            id: self.id@,
            content: self.content@,
            content_type: self.content_type@,
            category: view_opt_string(self.category),
            mode: view_opt_string(self.mode),
            metadata_json: self.metadata_json@,
            token_count: self.token_count as int,
            created_at: self.created_at@,
            last_accessed: self.last_accessed@,
        }
    }
}

/// SQLite-backed repository: one connection, one memories table, and the
/// ghost rows that stand for the table's contents.
pub struct SqliteMemoryRepository {
    conn: rusqlite::Connection,
    table: Ghost<Seq<RowModel>>,
}

/// Relies on serde_json::to_string over nested BTreeMaps: a canonical JSON
/// object (keys sorted) with the entries under a "values" field — a
/// function of the metadata mapping alone, named `metadata_blob`.
#[verifier::external_body]
fn encode_metadata(meta: &MemoryMetadata) -> (r: String)
    ensures
        r@ == metadata_blob(map_of_pairs(meta@)),
{
    let values: std::collections::BTreeMap<String, String> = meta.pairs.iter().cloned().collect();
    let mut root = std::collections::BTreeMap::new();
    root.insert(String::from("values"), values);
    serde_json::to_string(&root).unwrap_or_default()
}

/// Relies on serde_json::from_str: parsing the canonical encoding of a
/// mapping yields exactly its entries (sorted by key, hence distinct);
/// other inputs may yield anything or nothing.
#[verifier::external_body]
fn parse_metadata(s: &str) -> (r: Option<MemoryMetadata>)
    ensures
        r is None ==> forall|m: Map<Seq<char>, Seq<char>>|
            m.dom().finite() ==> s@ != metadata_blob(m),
        r matches Some(meta) ==> meta.wf() && (forall|m: Map<Seq<char>, Seq<char>>|
            m.dom().finite() && s@ == metadata_blob(m) ==> map_of_pairs(meta@) == m),
{
    let mut root: std::collections::BTreeMap<String, std::collections::BTreeMap<String, String>> =
        match serde_json::from_str(s) {
            Ok(v) => v,
            Err(_) => return None,
        };
    if root.len() != 1 {
        return None;
    }
    let values = root.remove("values")?;
    Some(MemoryMetadata { pairs: values.into_iter().collect() })
}

/// Relies on rusqlite's Connection::open and execute: opens (creating if
/// absent) the database file and ensures the memories table exists. The
/// ghost table stands for the rows already in the file; the id column is
/// the table's primary key, so their ids are distinct.
#[verifier::external_body]
fn open_repository(path: &str) -> (r: Result<SqliteMemoryRepository, StorageError>)
    ensures
        match r {
            Ok(repo) => distinct_ids(repo.table@),
            Err(_) => true,
        },
{
    let conn = match rusqlite::Connection::open(path) {
        Ok(c) => c,
        Err(_) => return Err(StorageError::Backend { operation: String::from("open") }),
    };
    let sql = "CREATE TABLE IF NOT EXISTS memories (id TEXT PRIMARY KEY, content TEXT NOT NULL, \
         content_type TEXT NOT NULL, category TEXT, mode TEXT, metadata_json TEXT NOT NULL, \
         token_count INTEGER NOT NULL, created_at TEXT NOT NULL, last_accessed TEXT NOT NULL)";
    match conn.execute(sql, ()) {
        Ok(_) => Ok(SqliteMemoryRepository { conn, table: Ghost(Seq::empty()) }),
        Err(_) => Err(StorageError::Backend { operation: String::from("create table") }),
    }
}

impl SqliteMemoryRepository {
    /// Relies on rusqlite's execute with INSERT OR REPLACE keyed by the
    /// primary key: upserts the row; a failed statement changes nothing.
    #[verifier::external_body]
    fn insert_row(&mut self, row: &SqlRow) -> (r: Result<(), StorageError>)
        ensures
            match r {
                Ok(()) => final(self).table@ == upsert_row(old(self).table@, row@),
                Err(_) => final(self).table@ == old(self).table@,
            },
    {
        let sql = "INSERT OR REPLACE INTO memories (id, content, content_type, category, mode, \
             metadata_json, token_count, created_at, last_accessed) VALUES (?, ?, ?, ?, ?, ?, ?, ?, ?)";
        let params = (&row.id, &row.content, &row.content_type, &row.category, &row.mode,
            &row.metadata_json, row.token_count, &row.created_at, &row.last_accessed);
        match self.conn.execute(sql, params) {
            Ok(_) => Ok(()),
            Err(_) => Err(StorageError::Backend { operation: String::from("store") }),
        }
    }

    /// Relies on rusqlite's query_row over SELECT ... WHERE id = ?: the row
    /// under the primary key, or None; a row whose token count does not fit
    /// the non-negative integer range reads back as an error.
    #[verifier::external_body]
    fn select_row(&self, id: &str) -> (r: Result<Option<SqlRow>, StorageError>)
        ensures
            match r {
                Ok(Some(row)) => row@.id == id@ && exists|k: int|
                    0 <= k < self.table@.len() && self.table@[k] == row@,
                Ok(None) => forall|k: int|
                    0 <= k < self.table@.len() ==> (#[trigger] self.table@[k]).id != id@,
                Err(_) => true,
            },
    {
        let sql = "SELECT id, content, content_type, category, mode, metadata_json, token_count, \
             created_at, last_accessed FROM memories WHERE id = ?";
        let res = self.conn.query_row(sql, (id,), |row| Ok(SqlRow {
            id: row.get(0)?, content: row.get(1)?, content_type: row.get(2)?,
            category: row.get(3)?, mode: row.get(4)?, metadata_json: row.get(5)?,
            token_count: row.get(6)?, created_at: row.get(7)?, last_accessed: row.get(8)?,
        }));
        match res {
            Ok(row) => Ok(Some(row)),
            Err(rusqlite::Error::QueryReturnedNoRows) => Ok(None),
            Err(_) => Err(StorageError::Backend { operation: String::from("retrieve") }),
        }
    }

    /// Relies on rusqlite's execute with UPDATE ... SET last_accessed:
    /// rewrites the matching row's last-accessed column; a failed statement
    /// changes nothing.
    #[verifier::external_body]
    fn update_last_accessed(&mut self, id: &str, ts: &str) -> (r: Result<(), StorageError>)
        ensures
            match r {
                Ok(()) => final(self).table@ == touch_rows(old(self).table@, id@, ts@),
                Err(_) => final(self).table@ == old(self).table@,
            },
    {
        match self.conn.execute("UPDATE memories SET last_accessed = ? WHERE id = ?", (ts, id)) {
            Ok(_) => Ok(()),
            Err(_) => Err(StorageError::Backend { operation: String::from("touch") }),
        }
    }

    /// Relies on rusqlite's prepare and query_map over SELECT id: every
    /// row's id, in an order the database chooses.
    #[verifier::external_body]
    fn select_ids(&self) -> (r: Result<Vec<String>, StorageError>)
        ensures
            match r {
                Ok(ids) => ids@.map_values(|s: String| s@).to_multiset() == self.table@.map_values(
                    |row: RowModel| row.id,
                ).to_multiset(),
                Err(_) => true,
            },
    {
        let mut stmt = match self.conn.prepare("SELECT id FROM memories") {
            Ok(s) => s,
            Err(_) => return Err(StorageError::Backend { operation: String::from("list ids") }),
        };
        let rows = stmt.query_map((), |row| row.get::<_, String>(0));
        match rows.and_then(|it| it.collect::<Result<Vec<String>, _>>()) {
            Ok(ids) => Ok(ids),
            Err(_) => Err(StorageError::Backend { operation: String::from("list ids") }),
        }
    }

    /// Relies on rusqlite's query_row over SELECT COALESCE(SUM(...), 0):
    /// the sum of the token-count column (zero when the table is empty);
    /// the database reports an error if the sum overflows its integer, and
    /// a negative sum fails the unsigned read.
    #[verifier::external_body]
    fn sum_tokens(&self) -> (r: Result<i64, StorageError>)
        ensures
            match r {
                Ok(v) => v as int == row_tokens_of(self.table@),
                Err(_) => true,
            },
    {
        let res = self.conn.query_row(
            "SELECT COALESCE(SUM(token_count), 0) FROM memories",
            (),
            |row| row.get::<_, i64>(0),
        );
        match res {
            Ok(v) => Ok(v),
            Err(_) => Err(StorageError::Backend { operation: String::from("total tokens") }),
        }
    }

    /// Open (creating if needed) the database file at `path` and ensure the
    /// memories table exists.
    pub fn new(path: &str) -> (r: Result<SqliteMemoryRepository, StorageError>)
        ensures
            match r {
                Ok(repo) => repo.inv(),
                Err(_) => true,
            },
    {
        open_repository(path)
    }
}

impl MemoryRepository for SqliteMemoryRepository {
    closed spec fn rows(&self) -> Seq<RowModel> {
        self.table@
    }

    closed spec fn inv(&self) -> bool {
        distinct_ids(self.table@)
    }

    proof fn inv_implies_distinct(&self) {
    }

    fn store(&mut self, memory: &Memory) -> (r: Result<(), StorageError>) {
        if memory.token_count.0 > 0x7FFFFFFFFFFFFFFF {
            // a token count beyond the signed integer column is refused as
            // a backend failure; no real content reaches this many tokens
            return Err(StorageError::Backend { operation: String::from_str("store") });
        }
        let json = encode_metadata(&memory.metadata);
        let created = format_rfc3339(memory.created_at);
        let accessed = format_rfc3339(memory.last_accessed);
        let row = SqlRow {
            id: memory.id.as_str().to_owned(),
            content: memory.content.clone(),
            content_type: memory.content_type.clone(),
            category: clone_opt_string(&memory.category),
            mode: clone_opt_string(&memory.mode),
            metadata_json: json,
            token_count: memory.token_count.0 as i64,
            created_at: created,
            last_accessed: accessed,
        };
        proof {
            assert(row@ == row_repr_of(memory@));
        }
        let r = self.insert_row(&row);
        proof {
            if r is Ok {
                lemma_upsert_distinct(old(self).table@, row@);
            }
        }
        r
    }

    fn retrieve(&self, id: &str) -> (r: Result<Option<Memory>, StorageError>) {
        let row = match self.select_row(id) {
            Ok(Some(row)) => row,
            Ok(None) => {
                return Ok(None);
            },
            Err(e) => {
                return Err(e);
            },
        };
        // Decode the metadata blob, re-encode it, and accept only the
        // canonical form: what comes back then provably denotes the stored
        // mapping.
        let meta = match parse_metadata(row.metadata_json.as_str()) {
            Some(m) => m,
            None => {
                return Err(StorageError::Corrupt { operation: String::from_str("metadata") });
            },
        };
        let reencoded = encode_metadata(&meta);
        if !str_eq(reencoded.as_str(), row.metadata_json.as_str()) {
            return Err(StorageError::Corrupt { operation: String::from_str("metadata") });
        }
        // The same strictness for the two timestamps.
        let created = match validate_timestamp_column(row.created_at.as_str()) {
            Some(t) => t,
            None => {
                return Err(StorageError::Corrupt { operation: String::from_str("created_at") });
            },
        };
        let accessed = match validate_timestamp_column(row.last_accessed.as_str()) {
            Some(t) => t,
            None => {
                return Err(StorageError::Corrupt { operation: String::from_str("last_accessed") });
            },
        };
        if row.token_count < 0 {
            return Err(StorageError::Corrupt { operation: String::from_str("token_count") });
        }
        let ghost rv = row@;
        let m = Memory {
            id: MemoryId::from_string(row.id),
            content: row.content,
            content_type: row.content_type,
            category: row.category,
            mode: row.mode,
            metadata: meta,
            token_count: TokenCount(row.token_count as u64),
            created_at: created,
            last_accessed: accessed,
        };
        proof {
            assert(row_repr_of(m@).metadata_json == rv.metadata_json);
            assert(row_repr_of(m@).created_at == rv.created_at);
            assert(row_repr_of(m@).last_accessed == rv.last_accessed);
            assert(row_repr_of(m@) == rv);
        }
        Ok(Some(m))
    }

    fn touch(&mut self, id: &str, now: i64) -> (r: Result<(), StorageError>) {
        let ts = format_rfc3339(now);
        let r = self.update_last_accessed(id, ts.as_str());
        proof {
            if r is Ok {
                lemma_touch_distinct(old(self).table@, id@, rfc3339_of(now as int));
            }
        }
        r
    }

    fn get_all_ids(&self) -> (r: Result<Vec<MemoryId>, StorageError>) {
        let raw = match self.select_ids() {
            Ok(v) => v,
            Err(e) => {
                return Err(e);
            },
        };
        let mut ids: Vec<MemoryId> = Vec::new();
        let mut i: usize = 0;
        while i < raw.len()
            invariant
                i <= raw@.len(),
                ids@.len() == i,
                forall|k: int| 0 <= k < i ==> (#[trigger] ids@[k])@ == raw@[k]@,
            decreases raw.len() - i,
        {
            ids.push(MemoryId::from_string(raw[i].clone()));
            i = i + 1;
        }
        proof {
            assert(ids@.map_values(|x: MemoryId| x@) =~= raw@.map_values(|s: String| s@));
        }
        Ok(ids)
    }

    fn total_tokens(&self) -> (r: Result<TokenCount, StorageError>) {
        match self.sum_tokens() {
            Ok(v) => {
                if v < 0 {
                    Err(StorageError::Corrupt { operation: String::from_str("total tokens") })
                } else {
                    Ok(TokenCount(v as u64))
                }
            },
            Err(e) => Err(e),
        }
    }
}

/// Clone an optional string.
fn clone_opt_string(s: &Option<String>) -> (r: Option<String>)
    ensures
        view_opt_string(r) == view_opt_string(*s),
{
    match s {
        Some(x) => Some(x.clone()),
        None => None,
    }
}

/// Parse a stored timestamp column and accept only its canonical RFC 3339
/// form, so the parsed value provably re-encodes to the stored string; a
/// `None` says the column is no valid timestamp's canonical encoding.
fn validate_timestamp_column(s: &str) -> (r: Option<i64>)
    ensures
        match r {
            Some(t) => valid_timestamp(t as int) && s@ == rfc3339_of(t as int),
            None => forall|t: int| valid_timestamp(t) ==> s@ != rfc3339_of(t),
        },
{
    let t = match parse_rfc3339(s) {
        Some(t) => t,
        None => {
            return None;
        },
    };
    if t < 0 || t > MAX_TIMESTAMP {
        return None;
    }
    let reencoded = format_rfc3339(t);
    if str_eq(reencoded.as_str(), s) {
        Some(t)
    } else {
        None
    }
}

/// Touching rows never changes their ids, so distinctness survives.
proof fn lemma_touch_distinct(rows: Seq<RowModel>, id: Seq<char>, ts: Seq<char>)
    requires
        distinct_ids(rows),
    ensures
        distinct_ids(touch_rows(rows, id, ts)),
{
    let touched = touch_rows(rows, id, ts);
    assert forall|a: int, b: int| 0 <= a < b < touched.len() implies (#[trigger] touched[a]).id != (
    #[trigger] touched[b]).id by {
        assert(touched[a].id == rows[a].id);
        assert(touched[b].id == rows[b].id);
    }
}

} // verus!
