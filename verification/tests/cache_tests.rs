use skill_translator::config::Settings;
use skill_translator::routes::cached_response;
use skill_translator::translator::Translator;
use skill_translator::cache::{StoreFigures, TranslationCache};
use skill_translator::clock::Timestamp;
use skill_translator::store::{StoreCommand, StoredRow};

const DAY: i64 = 86_400_000_000;
const T0: i64 = 1_700_000_000_000_000;

fn at(micros: i64) -> Timestamp {
    Timestamp::from_micros(micros).unwrap()
}

/// Carries a command out on a table held in memory.
fn carry_out(table: &mut Vec<StoredRow>, command: &StoreCommand) {
    match command {
        StoreCommand::Upsert(row) => {
            table.retain(|r| r.cache_key != row.cache_key);
            table.push(row.clone());
        }
        StoreCommand::Delete { cache_key } => table.retain(|r| &r.cache_key != cache_key),
        StoreCommand::AddHits { cache_key, count, accessed_at } => {
            for r in table.iter_mut() {
                if &r.cache_key == cache_key {
                    r.hit_count += count;
                    r.accessed_at = accessed_at.clone();
                }
            }
        }
        StoreCommand::DeleteCreatedBefore { cutoff } => table.retain(|r| !(r.created_at < *cutoff)),
        StoreCommand::DeleteAccessedBefore { cutoff } => {
            table.retain(|r| !(r.accessed_at < *cutoff))
        }
        StoreCommand::DeleteAll => table.clear(),
        StoreCommand::Checkpoint => {}
    }
}

fn find(table: &[StoredRow], key: &str) -> Option<StoredRow> {
    table.iter().find(|r| r.cache_key == key).cloned()
}

fn store(cache: &TranslationCache, table: &mut Vec<StoredRow>, key: &str, now: i64) {
    let (_, command) = cache.set(key, "sha256:src", "a/SKILL.md", "译文", "sha256:dst", None, &at(now));
    carry_out(table, &command);
}

#[test]
fn timestamp_is_written_as_rfc3339() {
    let t = at(T0);
    assert_eq!(t.micros(), T0);
    assert_eq!(t.to_rfc3339(), "2023-11-14T22:13:20+00:00");
    assert_eq!(at(T0 + 123_456).to_rfc3339(), "2023-11-14T22:13:20.123456+00:00");
    assert_eq!(at(0).to_rfc3339(), "1970-01-01T00:00:00+00:00");
}

#[test]
fn timestamp_out_of_range_has_no_date() {
    assert!(Timestamp::from_micros(i64::MAX).is_none());
    assert!(Timestamp::from_micros(i64::MIN).is_none());
}

#[test]
fn minus_days_goes_back_whole_days() {
    let t = at(T0).minus_days(30).unwrap();
    assert_eq!(t.micros(), T0 - 30 * DAY);
    assert_eq!(t.to_rfc3339(), "2023-10-15T22:13:20+00:00");
    assert_eq!(at(T0).minus_days(0).unwrap().micros(), T0);
    assert_eq!(at(T0).minus_days(-1).unwrap().micros(), T0 + DAY);
    assert!(at(T0).minus_days(i64::MAX).is_none());
    assert!(at(T0).minus_days(i64::MIN).is_none());
}

#[test]
fn new_cache_has_counted_nothing() {
    let cache = TranslationCache::new(30);
    assert_eq!(cache.miss_count(), 0);
    assert_eq!(cache.pending_hits_for("k"), 0);
}

#[test]
fn set_builds_a_fresh_row() {
    let cache = TranslationCache::new(30);
    let (entry, command) = cache.set(
        "key",
        "sha256:src",
        "a/SKILL.md",
        "译文",
        "sha256:dst",
        Some("{\"model\":\"m\"}".to_string()),
        &at(T0),
    );
    assert_eq!(entry.cache_key, "key");
    assert_eq!(entry.content_hash, "sha256:src");
    assert_eq!(entry.path, "a/SKILL.md");
    assert_eq!(entry.translated_content, "译文");
    assert_eq!(entry.translated_hash, "sha256:dst");
    assert_eq!(entry.created_at, T0);
    assert_eq!(entry.accessed_at, T0);
    assert_eq!(entry.hit_count, 0);
    assert_eq!(entry.metadata, "{\"model\":\"m\"}");
    match command {
        StoreCommand::Upsert(row) => {
            assert_eq!(row.cache_key, "key");
            assert_eq!(row.content_hash, "sha256:src");
            assert_eq!(row.path, "a/SKILL.md");
            assert_eq!(row.translated_content, "译文");
            assert_eq!(row.translated_hash, "sha256:dst");
            assert_eq!(row.created_at, "2023-11-14T22:13:20+00:00");
            assert_eq!(row.accessed_at, "2023-11-14T22:13:20+00:00");
            assert_eq!(row.hit_count, 0);
            assert_eq!(row.metadata, "{\"model\":\"m\"}");
        }
        other => panic!("expected Upsert, got {:?}", other),
    }
}

#[test]
fn set_without_metadata_stores_the_empty_object() {
    let cache = TranslationCache::new(30);
    let (entry, command) = cache.set("k", "h", "p", "c", "t", None, &at(T0));
    assert_eq!(entry.metadata, "{}");
    match command {
        StoreCommand::Upsert(row) => assert_eq!(row.metadata, "{}"),
        other => panic!("expected Upsert, got {:?}", other),
    }
}

#[test]
fn set_replaces_the_row_and_resets_its_hits() {
    let mut cache = TranslationCache::new(30);
    let mut table = Vec::new();
    store(&cache, &mut table, "k", T0);
    for _ in 0..3 {
        let (entry, _) = cache.get("k", find(&table, "k"), &at(T0 + 1));
        assert!(entry.is_some());
    }
    for command in cache.flush_pending_hits(&at(T0 + 2)) {
        carry_out(&mut table, &command);
    }
    assert_eq!(find(&table, "k").unwrap().hit_count, 3);
    store(&cache, &mut table, "k", T0 + DAY);
    assert_eq!(table.len(), 1);
    let row = find(&table, "k").unwrap();
    assert_eq!(row.hit_count, 0);
    assert_eq!(row.created_at, at(T0 + DAY).to_rfc3339());
    assert_eq!(row.accessed_at, at(T0 + DAY).to_rfc3339());
}

#[test]
fn get_of_an_absent_key_is_a_miss() {
    let mut cache = TranslationCache::new(30);
    let (entry, command) = cache.get("k", None, &at(T0));
    assert!(entry.is_none());
    assert!(command.is_none());
    assert_eq!(cache.miss_count(), 1);
    assert_eq!(cache.pending_hits_for("k"), 0);
    let _ = cache.get("k", None, &at(T0));
    assert_eq!(cache.miss_count(), 2);
}

#[test]
fn get_of_a_fresh_row_is_a_hit() {
    let mut cache = TranslationCache::new(30);
    let mut table = Vec::new();
    store(&cache, &mut table, "k", T0);
    let (entry, command) = cache.get("k", find(&table, "k"), &at(T0 + 30 * DAY));
    assert!(command.is_none());
    let entry = entry.unwrap();
    assert_eq!(entry.cache_key, "k");
    assert_eq!(entry.content_hash, "sha256:src");
    assert_eq!(entry.translated_content, "译文");
    assert_eq!(entry.translated_hash, "sha256:dst");
    assert_eq!(entry.created_at, T0);
    assert_eq!(entry.accessed_at, T0);
    assert_eq!(entry.hit_count, 1);
    assert_eq!(entry.metadata, "{}");
    assert_eq!(cache.miss_count(), 0);
    assert_eq!(cache.pending_hits_for("k"), 1);
    assert_eq!(table.len(), 1);
}

#[test]
fn get_counts_stored_and_buffered_hits() {
    let mut cache = TranslationCache::new(30);
    let mut row = StoredRow {
        cache_key: "k".to_string(),
        content_hash: "h".to_string(),
        path: "p".to_string(),
        translated_content: "c".to_string(),
        translated_hash: "t".to_string(),
        created_at: at(T0).to_rfc3339(),
        accessed_at: at(T0).to_rfc3339(),
        hit_count: 10,
        metadata: "{}".to_string(),
    };
    let (first, _) = cache.get("k", Some(row.clone()), &at(T0 + 1));
    assert_eq!(first.unwrap().hit_count, 11);
    let (second, _) = cache.get("k", Some(row.clone()), &at(T0 + 2));
    assert_eq!(second.unwrap().hit_count, 12);
    let (other, _) = cache.get("other", Some(row.clone()), &at(T0 + 2));
    assert_eq!(other.unwrap().hit_count, 11);
    row.hit_count = i64::MAX;
    let (full, _) = cache.get("k", Some(row), &at(T0 + 3));
    assert_eq!(full.unwrap().hit_count, i64::MAX);
}

#[test]
fn expired_row_is_invisible_and_removed() {
    let mut cache = TranslationCache::new(30);
    let mut table = Vec::new();
    store(&cache, &mut table, "old", T0);
    store(&cache, &mut table, "new", T0 + 10 * DAY);
    assert_eq!(table.len(), 2);
    let now = T0 + 30 * DAY + 1;
    let (entry, command) = cache.get("old", find(&table, "old"), &at(now));
    assert!(entry.is_none());
    match &command {
        Some(StoreCommand::Delete { cache_key }) => assert_eq!(cache_key, "old"),
        other => panic!("expected Delete, got {:?}", other),
    }
    assert_eq!(cache.miss_count(), 0);
    carry_out(&mut table, &command.unwrap());
    cache.expired_row_removed();
    assert_eq!(table.len(), 1);
    assert!(find(&table, "old").is_none());
    assert!(find(&table, "new").is_some());
    assert_eq!(cache.miss_count(), 1);
    assert_eq!(cache.pending_hits_for("old"), 0);
    let (again, command) = cache.get("old", find(&table, "old"), &at(now));
    assert!(again.is_none());
    assert!(command.is_none());
    assert_eq!(cache.miss_count(), 2);
}

#[test]
fn row_of_exactly_the_maximum_age_is_still_fresh() {
    let mut cache = TranslationCache::new(1);
    let mut table = Vec::new();
    store(&cache, &mut table, "k", T0);
    let (entry, _) = cache.get("k", find(&table, "k"), &at(T0 + DAY));
    assert!(entry.is_some());
    let (entry, command) = cache.get("k", find(&table, "k"), &at(T0 + DAY + 1));
    assert!(entry.is_none());
    assert!(command.is_some());
}

#[test]
fn row_with_unreadable_times_counts_as_written_now() {
    let mut cache = TranslationCache::new(30);
    let row = StoredRow {
        cache_key: "k".to_string(),
        content_hash: "h".to_string(),
        path: "p".to_string(),
        translated_content: "c".to_string(),
        translated_hash: "t".to_string(),
        created_at: "yesterday".to_string(),
        accessed_at: "".to_string(),
        hit_count: 0,
        metadata: "not json".to_string(),
    };
    let (entry, command) = cache.get("k", Some(row), &at(T0));
    assert!(command.is_none());
    let entry = entry.unwrap();
    assert_eq!(entry.created_at, T0);
    assert_eq!(entry.accessed_at, T0);
    assert_eq!(entry.metadata, "{}");
}

#[test]
fn row_times_are_read_with_their_offset() {
    let mut cache = TranslationCache::new(30);
    let row = StoredRow {
        cache_key: "k".to_string(),
        content_hash: "h".to_string(),
        path: "p".to_string(),
        translated_content: "c".to_string(),
        translated_hash: "t".to_string(),
        created_at: "2023-11-15T00:13:20+02:00".to_string(),
        accessed_at: "2023-11-14T22:13:21Z".to_string(),
        hit_count: 0,
        metadata: "{\"a\": [1, 2]}".to_string(),
    };
    let (entry, _) = cache.get("k", Some(row), &at(T0 + 5));
    let entry = entry.unwrap();
    assert_eq!(entry.created_at, T0);
    assert_eq!(entry.accessed_at, T0 + 1_000_000);
    assert_eq!(entry.metadata, "{\"a\": [1, 2]}");
}

#[test]
fn hits_reach_storage_with_the_flush() {
    let mut cache = TranslationCache::new(30);
    let mut table = Vec::new();
    store(&cache, &mut table, "k", T0);
    store(&cache, &mut table, "other", T0);
    let n = 7;
    for i in 0..n {
        let (entry, _) = cache.get("k", find(&table, "k"), &at(T0 + 1));
        assert_eq!(entry.unwrap().hit_count, i + 1);
    }
    assert_eq!(find(&table, "k").unwrap().hit_count, 0);
    assert_eq!(cache.pending_hits_for("k"), n);
    let commands = cache.flush_pending_hits(&at(T0 + 2));
    assert_eq!(commands.len(), 1);
    for command in &commands {
        carry_out(&mut table, command);
    }
    let row = find(&table, "k").unwrap();
    assert_eq!(row.hit_count, n);
    assert_eq!(row.accessed_at, at(T0 + 2).to_rfc3339());
    assert_eq!(row.created_at, at(T0).to_rfc3339());
    assert_eq!(find(&table, "other").unwrap().hit_count, 0);
    assert_eq!(cache.pending_hits_for("k"), 0);
    assert!(cache.flush_pending_hits(&at(T0 + 3)).is_empty());
}

#[test]
fn flush_has_one_command_for_each_key() {
    let mut cache = TranslationCache::new(30);
    let mut table = Vec::new();
    store(&cache, &mut table, "a", T0);
    store(&cache, &mut table, "b", T0);
    let _ = cache.get("a", find(&table, "a"), &at(T0));
    let _ = cache.get("b", find(&table, "b"), &at(T0));
    let _ = cache.get("a", find(&table, "a"), &at(T0));
    let commands = cache.flush_pending_hits(&at(T0 + 1));
    assert_eq!(commands.len(), 2);
    for command in &commands {
        carry_out(&mut table, command);
    }
    assert_eq!(find(&table, "a").unwrap().hit_count, 2);
    assert_eq!(find(&table, "b").unwrap().hit_count, 1);
}

#[test]
fn clear_expired_goes_by_creation() {
    let cache = TranslationCache::new(30);
    let mut table = Vec::new();
    store(&cache, &mut table, "old", T0);
    store(&cache, &mut table, "new", T0 + 20 * DAY);
    let command = cache.clear_expired(&at(T0 + 31 * DAY)).unwrap();
    match &command {
        StoreCommand::DeleteCreatedBefore { cutoff } => {
            assert_eq!(cutoff, &at(T0 + DAY).to_rfc3339())
        }
        other => panic!("expected DeleteCreatedBefore, got {:?}", other),
    }
    carry_out(&mut table, &command);
    assert_eq!(table.len(), 1);
    assert!(find(&table, "new").is_some());
}

#[test]
fn clear_stale_goes_by_access() {
    let mut cache = TranslationCache::new(365);
    let mut table = Vec::new();
    store(&cache, &mut table, "used", T0);
    store(&cache, &mut table, "unused", T0 + DAY);
    let _ = cache.get("used", find(&table, "used"), &at(T0 + 40 * DAY));
    for command in cache.flush_pending_hits(&at(T0 + 40 * DAY)) {
        carry_out(&mut table, &command);
    }
    let command = cache.clear_stale(30, &at(T0 + 45 * DAY)).unwrap();
    match &command {
        StoreCommand::DeleteAccessedBefore { cutoff } => {
            assert_eq!(cutoff, &at(T0 + 15 * DAY).to_rfc3339())
        }
        other => panic!("expected DeleteAccessedBefore, got {:?}", other),
    }
    carry_out(&mut table, &command);
    assert_eq!(table.len(), 1);
    assert!(find(&table, "used").is_some());
    let unaffected = cache.clear_expired(&at(T0 + 45 * DAY)).unwrap();
    carry_out(&mut table, &unaffected);
    assert_eq!(table.len(), 1);
}

#[test]
fn clear_with_a_cutoff_out_of_range_gives_no_command() {
    let cache = TranslationCache::new(i64::MAX);
    assert!(cache.clear_expired(&at(T0)).is_none());
    assert!(cache.clear_stale(i64::MAX, &at(T0)).is_none());
}

#[test]
fn clear_all_removes_every_row() {
    let cache = TranslationCache::new(30);
    let mut table = Vec::new();
    store(&cache, &mut table, "a", T0);
    store(&cache, &mut table, "b", T0);
    let command = cache.clear_all();
    assert!(matches!(command, StoreCommand::DeleteAll));
    carry_out(&mut table, &command);
    assert!(table.is_empty());
}

#[test]
fn stats_put_storage_and_memory_together() {
    let mut cache = TranslationCache::new(30);
    let _ = cache.get("absent", None, &at(T0));
    let stats = cache.get_stats(StoreFigures {
        entries: 2,
        size_bytes: Some(12),
        oldest: Some("2023-11-14T22:13:20+00:00".to_string()),
        newest: Some("2023-11-15T22:13:20+00:00".to_string()),
        hits: Some(5),
    });
    assert_eq!(stats.total_entries, 2);
    assert_eq!(stats.total_size_bytes, 12);
    assert_eq!(stats.oldest_entry, Some(T0));
    assert_eq!(stats.newest_entry, Some(T0 + DAY));
    assert_eq!(stats.total_hits, 5);
    assert_eq!(stats.total_misses, 1);
}

#[test]
fn stats_of_an_empty_table() {
    let cache = TranslationCache::new(30);
    let stats = cache.get_stats(StoreFigures {
        entries: 0,
        size_bytes: None,
        oldest: None,
        newest: None,
        hits: None,
    });
    assert_eq!(stats.total_entries, 0);
    assert_eq!(stats.total_size_bytes, 0);
    assert_eq!(stats.oldest_entry, None);
    assert_eq!(stats.newest_entry, None);
    assert_eq!(stats.total_hits, 0);
    assert_eq!(stats.total_misses, 0);
    let odd = cache.get_stats(StoreFigures {
        entries: 1,
        size_bytes: Some(1),
        oldest: Some("?".to_string()),
        newest: Some("?".to_string()),
        hits: Some(0),
    });
    assert_eq!(odd.oldest_entry, None);
    assert_eq!(odd.newest_entry, None);
}

#[test]
fn close_flushes_then_checkpoints() {
    let mut cache = TranslationCache::new(30);
    let mut table = Vec::new();
    store(&cache, &mut table, "k", T0);
    let _ = cache.get("k", find(&table, "k"), &at(T0));
    let commands = cache.close(&at(T0 + 1));
    assert_eq!(commands.len(), 2);
    assert!(matches!(commands[0], StoreCommand::AddHits { .. }));
    assert!(matches!(commands[1], StoreCommand::Checkpoint));
    assert_eq!(cache.pending_hits_for("k"), 0);
    let commands = cache.close(&at(T0 + 2));
    assert_eq!(commands.len(), 1);
    assert!(matches!(commands[0], StoreCommand::Checkpoint));
}

#[test]
fn second_translation_of_the_same_content_is_a_cache_hit() {
    let translator = Translator::new(&Settings::load(&Vec::new()));
    let mut cache = TranslationCache::new(30);
    let mut table: Vec<StoredRow> = Vec::new();
    let mut provider_calls = 0;
    let mut answers = Vec::new();
    for round in 0..2 {
        let key = translator.compute_cache_key("sha256:src", "en", "zh-CN");
        let (entry, _) = cache.get(&key, find(&table, &key), &at(T0 + round));
        match entry {
            Some(entry) => answers.push(cached_response(entry)),
            None => {
                provider_calls += 1;
                let hash = Translator::compute_hash("译文");
                let (_, command) =
                    cache.set(&key, "sha256:src", "p", "译文", &hash, None, &at(T0 + round));
                carry_out(&mut table, &command);
                answers.push(skill_translator::routes::fresh_response(
                    "译文",
                    "sha256:src".to_string(),
                    hash,
                    "{}".to_string(),
                ));
            }
        }
    }
    assert_eq!(provider_calls, 1);
    assert!(!answers[0].cached);
    assert!(answers[1].cached);
    assert_eq!(answers[0].translated_hash, answers[1].translated_hash);
    assert_eq!(answers[0].content_hash, answers[1].content_hash);
    assert_eq!(answers[0].translated_content, answers[1].translated_content);
}
