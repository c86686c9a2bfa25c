//! Configuration defaults, crash-recovery bookkeeping, versions, log
//! levels, backup rotation, and context assembly.

use smart_memory::assemble::{assemble_context, filter_bank_memories};
use smart_memory::backup::BackupManager;
use smart_memory::config::{MemoryBankConfig, Priority};
use smart_memory::loglevel::LogLevel;
use smart_memory::memory::{Memory, MemoryId, MemoryMetadata};
use smart_memory::recovery::CrashRecoveryManager;
use smart_memory::relevance::{RelevanceScore, ScoredMemory};
use smart_memory::tokenizer::TokenCount;
use smart_memory::version::{Version, VersionManager};

#[test]
fn config_defaults_are_the_documented_ones() {
    let config = MemoryBankConfig::default();
    assert_eq!(config.get_max_tokens("context").as_u64(), 10000);
    assert_eq!(config.get_max_tokens("decision").as_u64(), 5000);
    assert_eq!(config.get_max_tokens("progress").as_u64(), 8000);
    assert_eq!(config.get_max_tokens("product").as_u64(), 10000);
    assert_eq!(config.get_max_tokens("pattern").as_u64(), 5000);
    assert_eq!(config.get_priority("context"), Priority::High);
    assert_eq!(config.get_priority("decision"), Priority::Medium);
    assert_eq!(config.get_priority("progress"), Priority::High);
    assert_eq!(config.get_priority("product"), Priority::Medium);
    assert_eq!(config.get_priority("pattern"), Priority::Low);
    assert_eq!(config.token_budget.total, 50000);
    assert!(config.token_budget.per_category);
    assert_eq!(config.relevance.threshold, 700_000);
    assert!(config.relevance.boost_recent);
    assert!(config.update_triggers.auto_update);
    assert!(config.update_triggers.umb_command);
}

#[test]
fn unknown_categories_fall_back_instead_of_erroring() {
    let config = MemoryBankConfig::default();
    assert_eq!(config.get_max_tokens("never-configured").as_u64(), 1000);
    assert_eq!(config.get_priority("never-configured"), Priority::Medium);
}

#[test]
fn test_recovery_state() {
    let mut manager = CrashRecoveryManager::new();

    manager.set_paths("test.db", "config.json", 50051);
    manager.update_pid(12345);

    assert_eq!(manager.get_db_path(), Some("test.db"));
    assert_eq!(manager.get_config_path(), Some("config.json"));
    assert_eq!(manager.get_port(), Some(50051));
    assert_eq!(manager.get_pid(), Some(12345));

    manager.record_crash("first failure");
    assert_eq!(manager.get_crash_count(), 1);

    manager.record_crash("second failure");
    manager.record_crash("third failure");
    assert_eq!(manager.get_crash_count(), 3);
    assert!(manager.is_safe_mode_enabled());

    manager.reset_crash_count();
    assert_eq!(manager.get_crash_count(), 0);
    assert!(!manager.is_safe_mode_enabled());
}

#[test]
fn recovery_attempts_are_bounded() {
    let mut manager = CrashRecoveryManager::new();
    assert!(manager.should_attempt_recovery());
    manager.record_recovery_attempt();
    manager.record_recovery_attempt();
    manager.record_recovery_attempt();
    assert_eq!(manager.get_recovery_attempts(), 3);
    assert!(!manager.should_attempt_recovery());
    manager.set_max_recovery_attempts(5);
    assert!(manager.should_attempt_recovery());
    assert!(manager.check_previous_crash().is_none());
    manager.record_crash("boom");
    assert!(manager.check_previous_crash().is_some());
}

#[test]
fn recovery_rounds_respect_the_ceiling() {
    let mut manager = CrashRecoveryManager::new();
    // three rounds are allowed; an intact database succeeds, a broken and
    // unrepaired one fails but still counts
    assert!(manager.perform_recovery(true, false).is_ok());
    assert_eq!(manager.perform_recovery(false, false), Err("Database repair failed"));
    assert!(manager.perform_recovery(false, true).is_ok());
    assert_eq!(manager.perform_recovery(true, true), Err("Too many recovery attempts"));
    assert_eq!(manager.get_recovery_attempts(), 3);
    // recovery is needed only when a recorded process has died
    assert!(!manager.is_recovery_needed(false));
    manager.update_pid(4242);
    assert!(manager.is_recovery_needed(false));
    assert!(!manager.is_recovery_needed(true));
}

#[test]
fn version_parsing_and_tags() {
    let v = Version::parse("1.2.3").unwrap();
    assert_eq!((v.major, v.minor, v.patch), (1, 2, 3));
    assert!(v.pre_release.is_none());
    assert!(v.build.is_none());

    let v = Version::parse("10.0.42-alpha.1+build.5").unwrap();
    assert_eq!((v.major, v.minor, v.patch), (10, 0, 42));
    assert_eq!(v.pre_release.as_deref(), Some("alpha.1"));
    assert_eq!(v.build.as_deref(), Some("build.5"));

    // a second '-' segment that starts with '+' carries the build tag
    let v = Version::parse("1.2.3-rc-+77").unwrap();
    assert_eq!(v.pre_release.as_deref(), Some("rc"));
    assert_eq!(v.build.as_deref(), Some("77"));

    assert!(Version::parse("1.2").is_none());
    assert!(Version::parse("a.b.c").is_none());
    assert!(Version::parse("").is_none());
}

#[test]
fn version_ordering() {
    let a = Version::new(1, 2, 3);
    let b = Version::new(1, 2, 4);
    assert!(b.is_greater_than(&a));
    assert!(a.is_less_than(&b));
    assert!(a.is_equal_to(&Version::new(1, 2, 3)));

    // a pre-release ranks below the plain release
    let pre = Version::parse("1.2.3-alpha").unwrap();
    assert!(pre.is_less_than(&a));
    assert!(a.is_greater_than(&pre));

    // two pre-releases compare lexicographically
    let alpha = Version::parse("1.2.3-alpha").unwrap();
    let beta = Version::parse("1.2.3-beta").unwrap();
    assert!(alpha.is_less_than(&beta));
}

#[test]
fn version_manager_reports_no_updates() {
    let mut manager = VersionManager::new();
    assert!(!manager.check_for_updates());
    assert!(!manager.is_update_available());
    assert_eq!(manager.get_current_version().major, 0);
    assert!(manager.get_latest_version().is_none());
    let initialized = smart_memory::version::init();
    assert!(!initialized.is_update_available());
}

#[test]
fn log_levels_round_trip() {
    let levels = [
        LogLevel::Trace,
        LogLevel::Debug,
        LogLevel::Info,
        LogLevel::Warning,
        LogLevel::Error,
        LogLevel::Critical,
    ];
    for level in levels {
        assert_eq!(LogLevel::from_str(level.as_str()), Some(level));
    }
    assert_eq!(LogLevel::from_str("warning"), Some(LogLevel::Warning));
    assert_eq!(LogLevel::from_str("CrItIcAl"), Some(LogLevel::Critical));
    assert_eq!(LogLevel::from_str("verbose"), None);
    assert_eq!(LogLevel::Error.as_str(), "ERROR");
}

#[test]
fn backup_rotation_keeps_the_configured_number() {
    let mut manager = BackupManager::new("/tmp/backups".to_string());
    assert_eq!(manager.backup_dir(), "/tmp/backups");
    assert_eq!(manager.rotation_excess(10), 0);
    assert_eq!(manager.rotation_excess(12), 2);
    manager.set_max_backups(3);
    assert_eq!(manager.rotation_excess(12), 9);
    assert_eq!(manager.rotation_excess(2), 0);
}

#[test]
fn bank_filter_selects_by_category_and_date() {
    let make = |content: &str, category: Option<&str>, date: Option<&str>| {
        let mut metadata = MemoryMetadata::new();
        if let Some(d) = date {
            metadata.insert("date".to_string(), d.to_string());
        }
        Memory {
            id: MemoryId::new(),
            content: content.to_string(),
            content_type: "text/markdown".to_string(),
            category: category.map(|c| c.to_string()),
            mode: None,
            metadata,
            token_count: TokenCount::new(1),
            created_at: 10,
            last_accessed: 10,
        }
    };
    let memories = vec![
        make("in context, dated", Some("context"), Some("2024-05-01")),
        make("in decision, dated", Some("decision"), Some("2024-05-01")),
        make("in context, other day", Some("context"), Some("2024-05-02")),
        make("uncategorized", None, Some("2024-05-01")),
        make("undated", Some("context"), None),
    ];
    // no filters: everything passes
    let all = filter_bank_memories(&memories, &Vec::new(), None);
    assert_eq!(all.len(), 5);

    // category filter alone
    let cats = vec!["context".to_string()];
    let in_context = filter_bank_memories(&memories, &cats, None);
    let names: Vec<&str> = in_context.iter().map(|m| m.content.as_str()).collect();
    assert_eq!(names, vec!["in context, dated", "in context, other day", "undated"]);

    // category and date together
    let day = "2024-05-01".to_string();
    let dated = filter_bank_memories(&memories, &cats, Some(&day));
    let names: Vec<&str> = dated.iter().map(|m| m.content.as_str()).collect();
    assert_eq!(names, vec!["in context, dated"]);

    // date filter alone drops memories without that date entry
    let by_day = filter_bank_memories(&memories, &Vec::new(), Some(&day));
    assert_eq!(by_day.len(), 3);
}

#[test]
fn assembled_context_concatenates_with_blank_lines() {
    let make = |content: &str, score: u64, tokens: u64| ScoredMemory {
        memory: Memory {
            id: MemoryId::new(),
            content: content.to_string(),
            content_type: "text/markdown".to_string(),
            category: None,
            mode: None,
            metadata: MemoryMetadata::new(),
            token_count: TokenCount::new(tokens),
            created_at: 500,
            last_accessed: 500,
        },
        score: RelevanceScore::new(score),
    };
    let selected = vec![make("first part", 900_000, 12), make("second part", 800_000, 30)];
    let bundle = assemble_context(&selected);
    assert_eq!(bundle.context, "first part\n\nsecond part\n\n");
    assert_eq!(bundle.token_count, 42);
    assert_eq!(bundle.relevance_score, 900_000);
    assert_eq!(bundle.sources.len(), 2);
    assert_eq!(bundle.sources[0].source_id, selected[0].memory.id.as_str());
    assert_eq!(bundle.sources[0].source_type, "text/markdown");
    assert_eq!(bundle.sources[0].relevance, 900_000);
    assert_eq!(bundle.sources[1].relevance, 800_000);

    let empty: Vec<ScoredMemory> = Vec::new();
    let nothing = assemble_context(&empty);
    assert_eq!(nothing.context, "");
    assert_eq!(nothing.token_count, 0);
    assert_eq!(nothing.relevance_score, 0);
    assert!(nothing.sources.is_empty());
}
