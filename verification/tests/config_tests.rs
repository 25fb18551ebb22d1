use skill_translator::cache::TranslationCache;
use skill_translator::clock::Timestamp;
use skill_translator::error::AppError;
use skill_translator::config::{get_settings, parse_bool, parse_i64, parse_unsigned, Settings};
use skill_translator::janitor::{
    advance, next_sleep, JanitorAction, JanitorState, CLEANUP_HOUR, STALE_DAYS,
};
use skill_translator::routes::{
    auth_middleware, cached_result, clear_cache, clear_expired_cache, flush_cache_hits, failed_result, filter_long_lines, fresh_result, health_check,
    languages, root, summarize, MAX_LINE_LENGTH,
};
use skill_translator::schemas::{default_skip_cached, TranslateOptions};

fn vars(pairs: &[(&str, &str)]) -> Vec<(String, String)> {
    pairs.iter().map(|(k, v)| (k.to_string(), v.to_string())).collect()
}

#[test]
fn settings_have_their_defaults() {
    let s = get_settings(&Vec::new());
    assert_eq!(s.openai_api_key, "");
    assert_eq!(s.openai_model, "gpt-4o-mini");
    assert_eq!(s.openai_base_url, "https://api.openai.com/v1");
    assert_eq!(s.host, "127.0.0.1");
    assert_eq!(s.port, 8080);
    assert!(!s.reload);
    assert_eq!(s.local_api_bearer, "");
    assert_eq!(s.translator_version, "1.0.0");
    assert_eq!(s.target_language, "zh-CN");
    assert_eq!(s.source_language, "en");
    assert_eq!(s.max_concurrent_translations, 5);
    assert_eq!(s.translation_timeout_seconds, 600);
    assert_eq!(s.max_tokens, 16000);
    assert_eq!(s.cache_db_path, "./data/cache.db");
    assert_eq!(s.cache_max_age_days, 30);
}

#[test]
fn settings_come_from_the_variables() {
    let s = Settings::load(&vars(&[
        ("OPENAI_API_KEY", "SECRET-REDACTED"),
        ("OPENAI_MODEL", "m"),
        ("OPENAI_BASE_URL", "http://localhost/v1"),
        ("HOST", "0.0.0.0"),
        ("PORT", "9000"),
        ("RELOAD", "true"),
        ("LOCAL_API_BEARER", "token"),
        ("TRANSLATOR_VERSION", "2.1.0"),
        ("TARGET_LANGUAGE", "ja"),
        ("SOURCE_LANGUAGE", "de"),
        ("MAX_CONCURRENT_TRANSLATIONS", "2"),
        ("TRANSLATION_TIMEOUT_SECONDS", "30"),
        ("MAX_TOKENS", "123"),
        ("CACHE_DB_PATH", "/tmp/c.db"),
        ("CACHE_MAX_AGE_DAYS", "-7"),
        ("PORT", "1"),
    ]));
    assert_eq!(s.openai_api_key, "SECRET-REDACTED");
    assert_eq!(s.openai_model, "m");
    assert_eq!(s.openai_base_url, "http://localhost/v1");
    assert_eq!(s.host, "0.0.0.0");
    assert_eq!(s.port, 9000);
    assert!(s.reload);
    assert_eq!(s.local_api_bearer, "token");
    assert_eq!(s.translator_version, "2.1.0");
    assert_eq!(s.target_language, "ja");
    assert_eq!(s.source_language, "de");
    assert_eq!(s.max_concurrent_translations, 2);
    assert_eq!(s.translation_timeout_seconds, 30);
    assert_eq!(s.max_tokens, 123);
    assert_eq!(s.cache_db_path, "/tmp/c.db");
    assert_eq!(s.cache_max_age_days, -7);
}

#[test]
fn settings_fall_back_where_a_number_is_none() {
    let s = Settings::load(&vars(&[
        ("PORT", "65536"),
        ("RELOAD", "yes"),
        ("MAX_TOKENS", "4294967296"),
        ("TRANSLATION_TIMEOUT_SECONDS", "ten"),
        ("CACHE_MAX_AGE_DAYS", ""),
        ("MAX_CONCURRENT_TRANSLATIONS", " 3"),
    ]));
    assert_eq!(s.port, 8080);
    assert!(!s.reload);
    assert_eq!(s.max_tokens, 16000);
    assert_eq!(s.translation_timeout_seconds, 600);
    assert_eq!(s.cache_max_age_days, 30);
    assert_eq!(s.max_concurrent_translations, 5);
}

#[test]
fn numbers_are_read_as_the_standard_library_reads_them() {
    for text in [
        "", "0", "00", "+", "-", "+0", "-0", "42", "+42", "-42", "4 2", " 42", "42 ", "0x10",
        "18446744073709551615", "18446744073709551616", "9223372036854775807",
        "9223372036854775808", "-9223372036854775808", "-9223372036854775809", "++1", "+-1",
        "1e3", "١٢", "000000000000000000000000000000001", "99999999999999999999999999",
    ] {
        assert_eq!(parse_unsigned(text, u64::MAX), text.parse::<u64>().ok(), "u64 {:?}", text);
        assert_eq!(
            parse_unsigned(text, u16::MAX as u64),
            text.parse::<u16>().ok().map(|n| n as u64),
            "u16 {:?}",
            text
        );
        assert_eq!(parse_i64(text), text.parse::<i64>().ok(), "i64 {:?}", text);
    }
}

#[test]
fn truth_values_are_read_as_the_standard_library_reads_them() {
    for text in ["true", "false", "True", "1", "", " true", "truee"] {
        assert_eq!(parse_bool(text), text.parse::<bool>().ok(), "for {:?}", text);
    }
}

#[test]
fn skip_cached_defaults_to_true() {
    assert!(default_skip_cached());
}

#[test]
fn options_default_to_english_to_chinese() {
    let o = TranslateOptions::default();
    assert!(o.preserve_frontmatter);
    assert!(o.preserve_code_blocks);
    assert!(!o.translate_code_comments);
    assert_eq!(o.target_language, "zh-CN");
    assert_eq!(o.source_language, "en");
}

#[test]
fn languages_come_from_the_options_or_the_settings() {
    let settings = Settings::load(&Vec::new());
    assert_eq!(languages(&None, &settings), ("en".to_string(), "zh-CN".to_string()));
    let mut o = TranslateOptions::default();
    o.source_language = "de".to_string();
    o.target_language = "fr".to_string();
    assert_eq!(languages(&Some(o), &settings), ("de".to_string(), "fr".to_string()));
}

#[test]
fn long_lines_are_removed() {
    let long = "x".repeat(MAX_LINE_LENGTH + 1);
    let exact = "y".repeat(MAX_LINE_LENGTH);
    let content = format!("a\n{}\nb\n{}\n", long, exact);
    let (out, removed) = filter_long_lines(&content);
    assert_eq!(removed, 1);
    assert_eq!(out, format!("a\nb\n{}", exact));
}

#[test]
fn document_without_long_lines_is_kept_as_it_is() {
    let content = "a\r\nb\n\nc\n";
    assert_eq!(filter_long_lines(content), (content.to_string(), 0));
    assert_eq!(filter_long_lines(""), (String::new(), 0));
}

#[test]
fn line_length_is_counted_in_bytes() {
    // 1667 characters of three bytes each are 5001 bytes
    let wide = "世".repeat(1667);
    let (out, removed) = filter_long_lines(&format!("{}\nshort", wide));
    assert_eq!(removed, 1);
    assert_eq!(out, "short");
    let fits = "世".repeat(1666);
    let (_, removed) = filter_long_lines(&format!("{}\nshort", fits));
    assert_eq!(removed, 0);
}

#[test]
fn requests_pass_without_a_configured_key() {
    assert_eq!(auth_middleware("", None), Ok(()));
    assert_eq!(auth_middleware("", Some("anything")), Ok(()));
}

#[test]
fn requests_need_the_configured_key() {
    assert_eq!(auth_middleware("k", Some("Bearer k")), Ok(()));
    assert_eq!(auth_middleware("k", None), Err("Missing Authorization header".to_string()));
    assert_eq!(auth_middleware("k", Some("Bearer x")), Err("Invalid API key".to_string()));
    assert_eq!(auth_middleware("k", Some("Bearer ")), Err("Invalid API key".to_string()));
    assert_eq!(auth_middleware("k", Some("Bearer k ")), Err("Invalid API key".to_string()));
    assert_eq!(
        auth_middleware("k", Some("bearer k")),
        Err("Invalid Authorization header format".to_string())
    );
    assert_eq!(
        auth_middleware("k", Some("k")),
        Err("Invalid Authorization header format".to_string())
    );
}

#[test]
fn root_and_health_describe_the_service() {
    let mut settings = Settings::load(&Vec::new());
    let root = root(&settings);
    assert_eq!(root.service, "Skill Translator");
    assert_eq!(root.version, "1.0.0");
    assert_eq!(root.description, "Translation service for SKILL.md files");
    assert_eq!(
        root.endpoints,
        vec![
            ("translate".to_string(), "/api/translate".to_string()),
            ("batch".to_string(), "/api/translate/batch".to_string()),
            ("health".to_string(), "/api/health".to_string()),
            ("cache_stats".to_string(), "/api/cache/stats".to_string()),
        ]
    );
    let health = health_check(&settings);
    assert_eq!(health.status, "healthy");
    assert_eq!(health.version, "1.0.0");
    assert!(health.cache_connected);
    assert!(!health.openai_configured);
    settings.openai_api_key = "SECRET-REDACTED".to_string();
    assert!(health_check(&settings).openai_configured);
}

#[test]
fn cache_endpoints_say_what_was_done() {
    assert_eq!(clear_cache(12), "Cleared all 12 entries");
    assert_eq!(clear_cache(0), "Cleared all 0 entries");
    assert_eq!(clear_cache(-3), "Cleared all -3 entries");
    assert_eq!(clear_cache(i64::MIN), "Cleared all -9223372036854775808 entries");
    assert_eq!(clear_expired_cache(7), "Cleared 7 expired entries");
    assert_eq!(flush_cache_hits(), "Flushed pending hits");
}

#[test]
fn batch_is_summed_up() {
    let cache = TranslationCache::new(30);
    let now = Timestamp::from_micros(0).unwrap();
    let (entry, _) = cache.set("k", "h1", "a.md", "c", "t1", None, &now);
    let results = vec![
        cached_result("a.md", entry),
        fresh_result("b.md", "h2", "text", "t2".to_string()),
        failed_result("c.md".to_string(), "h3".to_string(), &AppError::Internal("x".to_string())),
        fresh_result("d.md", "h4", "text", "t4".to_string()),
    ];
    assert!(results[0].success && results[0].cached);
    assert_eq!(results[0].translated_content, Some("Yw==".to_string()));
    assert_eq!(results[0].content_hash, "h1");
    assert_eq!(results[0].translated_hash, Some("t1".to_string()));
    assert!(results[1].success && !results[1].cached);
    assert_eq!(results[1].translated_content, Some("dGV4dA==".to_string()));
    assert!(!results[2].success && !results[2].cached);
    assert_eq!(results[2].error, Some("Internal server error: x".to_string()));
    assert_eq!(results[2].translated_content, None);
    let answer = summarize(results, 99);
    assert_eq!(answer.total_files, 4);
    assert_eq!(answer.successful, 3);
    assert_eq!(answer.failed, 1);
    assert_eq!(answer.cached_count, 1);
    assert_eq!(answer.processing_time_ms, 99);
    assert_eq!(answer.results.len(), 4);
    assert_eq!(answer.results[3].path, "d.md");
    let empty = summarize(Vec::new(), 0);
    assert_eq!((empty.total_files, empty.successful, empty.failed, empty.cached_count), (0, 0, 0, 0));
}

#[test]
fn janitor_sleeps_until_the_next_run() {
    let hour: i64 = 3_600_000_000;
    let day: i64 = 24 * hour;
    assert_eq!(CLEANUP_HOUR, 1);
    assert_eq!(STALE_DAYS, 30);
    // at midnight, today's run is an hour away
    let s = next_sleep(10 * day, Some(10 * day + hour));
    assert_eq!((s.seconds, s.micros), (3600, 0));
    // at two o'clock it has passed: the next is tomorrow's
    let s = next_sleep(10 * day + 2 * hour, Some(10 * day + hour));
    assert_eq!((s.seconds, s.micros), (23 * 3600, 0));
    // at the very time of the run the next is a day away
    let s = next_sleep(10 * day + hour, Some(10 * day + hour));
    assert_eq!((s.seconds, s.micros), (24 * 3600, 0));
    let s = next_sleep(10 * day + hour + 1, Some(10 * day + hour));
    assert_eq!((s.seconds, s.micros), (24 * 3600 - 1, 999_999));
    // without a known run, or with one long past, an hour
    let s = next_sleep(10 * day, None);
    assert_eq!((s.seconds, s.micros), (3600, 0));
    let s = next_sleep(10 * day, Some(5 * day));
    assert_eq!((s.seconds, s.micros), (3600, 0));
    let s = next_sleep(i64::MIN, Some(i64::MAX));
    assert_eq!((s.seconds, s.micros), (18_446_744_073_709, 551_615));
}

#[test]
fn janitor_goes_from_sleep_to_sweep_and_round_again() {
    let hour: i64 = 3_600_000_000;
    let (state, action) = advance(JanitorState::ComputeNextRun, 0, Some(hour));
    assert_eq!(state, JanitorState::Sleeping);
    match action {
        JanitorAction::Sleep(sleep) => assert_eq!((sleep.seconds, sleep.micros), (3600, 0)),
        other => panic!("expected a sleep, got {:?}", other),
    }
    let (state, action) = advance(state, hour, Some(hour));
    assert_eq!(state, JanitorState::Sweeping);
    assert!(matches!(action, JanitorAction::Sweep { stale_days: 30 }));
    let (state, action) = advance(state, hour + 5, Some(hour));
    assert_eq!(state, JanitorState::ComputeNextRun);
    assert!(matches!(action, JanitorAction::ReadClock));
}
