//! The durable repository: persistence across reopen, metadata and
//! timestamp round trips, and the corrupt-row error.

use smart_memory::memory::{MemoryId, MemoryMetadata};
use smart_memory::store::MemoryStore;
use smart_memory::tokenizer::{Tokenizer, TokenizerType};

fn fresh_db_path(tag: &str) -> String {
    format!("/tmp/smart_memory_{}_{}.db", tag, uuid::Uuid::new_v4().simple())
}

#[test]
fn scenario_durable_reopen_returns_same_records() {
    let path = fresh_db_path("reopen");
    let (id1, id2, count1, count2, created1);
    {
        let mut store =
            MemoryStore::new_sqlite(&path, Tokenizer::new(TokenizerType::Simple)).unwrap();
        let mut meta = MemoryMetadata::new();
        meta.insert("language".to_string(), "rust".to_string());
        meta.insert("file".to_string(), "lib.rs".to_string());
        let a = store
            .store(
                "a durable little memory".to_string(),
                "text/plain".to_string(),
                Some("context".to_string()),
                Some("code".to_string()),
                meta,
            )
            .unwrap();
        let b = store
            .store("second entry".to_string(), "text/markdown".to_string(), None, None, MemoryMetadata::new())
            .unwrap();
        id1 = a.id.as_str().to_string();
        id2 = b.id.as_str().to_string();
        count1 = a.token_count.as_u64();
        count2 = b.token_count.as_u64();
        created1 = a.created_at;
    }
    // reopen against the same file: the records survive with the same
    // token counts
    let mut store2 =
        MemoryStore::new_sqlite(&path, Tokenizer::new(TokenizerType::Simple)).unwrap();
    let a2 = store2.retrieve(&MemoryId::from_string(id1)).unwrap().unwrap();
    assert_eq!(a2.content, "a durable little memory");
    assert_eq!(a2.token_count.as_u64(), count1);
    assert_eq!(a2.created_at, created1);
    assert_eq!(a2.category.as_deref(), Some("context"));
    assert_eq!(a2.mode.as_deref(), Some("code"));
    assert_eq!(a2.metadata.get("language").map(|s| s.as_str()), Some("rust"));
    assert_eq!(a2.metadata.get("file").map(|s| s.as_str()), Some("lib.rs"));
    let b2 = store2.retrieve(&MemoryId::from_string(id2)).unwrap().unwrap();
    assert_eq!(b2.content, "second entry");
    assert_eq!(b2.token_count.as_u64(), count2);
    assert_eq!(store2.get_all_ids().unwrap().len(), 2);
    assert_eq!(store2.total_tokens().unwrap().as_u64(), count1 + count2);
}

#[test]
fn durable_access_time_round_trips() {
    let path = fresh_db_path("touch");
    let id;
    let touched;
    {
        let mut store =
            MemoryStore::new_sqlite(&path, Tokenizer::new(TokenizerType::Simple)).unwrap();
        let m = store
            .store("touch me".to_string(), "text/plain".to_string(), None, None, MemoryMetadata::new())
            .unwrap();
        id = m.id.as_str().to_string();
        // a retrieval refreshes last_accessed write-through
        touched = store.retrieve(&m.id).unwrap().unwrap().last_accessed;
        assert!(touched >= m.created_at);
    }
    let mut store2 =
        MemoryStore::new_sqlite(&path, Tokenizer::new(TokenizerType::Simple)).unwrap();
    let again = store2.retrieve(&MemoryId::from_string(id)).unwrap().unwrap();
    assert_eq!(again.last_accessed, touched);
}

#[test]
fn corrupt_metadata_surfaces_as_error() {
    let path = fresh_db_path("corrupt");
    {
        let mut store =
            MemoryStore::new_sqlite(&path, Tokenizer::new(TokenizerType::Simple)).unwrap();
        store
            .store("good row".to_string(), "text/plain".to_string(), None, None, MemoryMetadata::new())
            .unwrap();
    }
    // damage the table directly
    {
        let conn = rusqlite::Connection::open(&path).unwrap();
        conn.execute(
            "INSERT INTO memories (id, content, content_type, category, mode, metadata_json, \
             token_count, created_at, last_accessed) VALUES (?, ?, ?, ?, ?, ?, ?, ?, ?)",
            (
                "mem_badrow01",
                "bad",
                "text/plain",
                Option::<String>::None,
                Option::<String>::None,
                "this is not the canonical metadata encoding",
                3i64,
                "2024-01-01T00:00:00+00:00",
                "2024-01-01T00:00:00+00:00",
            ),
        )
        .unwrap();
    }
    let mut store2 =
        MemoryStore::new_sqlite(&path, Tokenizer::new(TokenizerType::Simple)).unwrap();
    let bad = store2.retrieve(&MemoryId::from_string("mem_badrow01".to_string()));
    assert!(bad.is_err());
    let message = bad.unwrap_err().describe();
    assert!(message.starts_with("corrupt record:"));
}

#[test]
fn opening_an_impossible_path_fails() {
    let r = MemoryStore::new_sqlite(
        "/nonexistent_directory_for_sure/sub/dir/db.sqlite3",
        Tokenizer::new(TokenizerType::Simple),
    );
    assert!(r.is_err());
    let message = r.err().unwrap().describe();
    assert!(message.starts_with("storage failure:"));
}
