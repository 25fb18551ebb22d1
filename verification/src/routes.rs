//! What the endpoints decide: which lines of a document are kept, which
//! languages apply, whether a request may pass, and what is answered.

use crate::cache::{entry_for, CacheEntry};
use crate::config::Settings;
use crate::digest::{base64_text, encode_content};
use crate::error::AppError;
use crate::schemas::{
    BatchTranslateResponse, FileTranslationResult, HealthResponse, RootResponse,
    TranslateOptions, TranslateResponse,
};
use crate::store::{table_after, StoreCommand, StoredRow, Table};
use crate::text::{
    append_chars, chars_of, decimal, decimal_of, join_lines, joined, lines_of, matches_at, rows,
    same_chars, slice_of, split_lines, string_of,
};
use vstd::prelude::*;
use vstd::string::StringSliceAdditionalSpecFns;
use vstd::utf8::encode_utf8;

verus! {

/// The greatest length of a line, in bytes, that is kept for translation.
pub const MAX_LINE_LENGTH: usize = 5000;

/// The lines of at most `MAX_LINE_LENGTH` bytes, in order.
pub open spec fn short_lines(lines: Seq<Seq<char>>) -> Seq<Seq<char>>
    decreases lines.len(),
{
    if lines.len() == 0 {
        Seq::empty()
    } else if encode_utf8(lines[0]).len() <= MAX_LINE_LENGTH {
        seq![lines[0]] + short_lines(lines.skip(1))
    } else {
        short_lines(lines.skip(1))
    }
}

/// The document without its lines of more than `MAX_LINE_LENGTH` bytes, and
/// their number. A document without such a line is kept as it is; of any
/// other the lines that stay are joined by line feeds.
pub open spec fn without_long_lines(content: Seq<char>) -> (Seq<char>, nat) {
    let lines = lines_of(content);
    let kept = short_lines(lines);
    if kept.len() < lines.len() {
        (joined(kept), (lines.len() - kept.len()) as nat)
    } else {
        (content, 0)
    }
}

/// Removes the lines of more than `MAX_LINE_LENGTH` bytes and counts them.
pub fn filter_long_lines(content: &str) -> (r: (String, usize))
    ensures
        r.0@ == without_long_lines(content@).0,
        r.1 == without_long_lines(content@).1,
{
    let lines = split_lines(&chars_of(content));
    let mut kept: Vec<Vec<char>> = Vec::new();
    let mut removed: usize = 0;
    let mut i: usize = 0;
    let ghost all = rows(lines@);
    assert(all.skip(0) == all);
    while i < lines.len()
        invariant
            i <= lines.len(),
            all == rows(lines@),
            short_lines(all) == rows(kept@) + short_lines(all.skip(i as int)),
            kept.len() + removed == i,
        decreases lines.len() - i,
    {
        let ghost before = kept@;
        assert(all.skip(i as int).skip(1) == all.skip(i + 1));
        assert(all.skip(i as int)[0] == lines@[i as int]@);
        let line = string_of(&lines[i]);
        if line.as_str().as_bytes().len() <= MAX_LINE_LENGTH {
            let copy = slice_of(&lines[i], 0, lines[i].len());
            assert(copy@ == lines@[i as int]@);
            kept.push(copy);
            assert(rows(kept@) == rows(before) + seq![lines@[i as int]@]);
        } else {
            removed = removed + 1;
        }
        i = i + 1;
    }
    assert(all.skip(lines.len() as int) == Seq::<Seq<char>>::empty());
    assert(short_lines(all) == rows(kept@));
    if removed > 0 {
        (string_of(&join_lines(&kept)), removed)
    } else {
        (content.to_owned(), 0)
    }
}

/// The source and the target language of a request: those of its options,
/// or those of the settings where it has none.
pub fn languages(options: &Option<TranslateOptions>, settings: &Settings) -> (r: (String, String))
    ensures
        r.0@ == match options {
            Some(o) => o.source_language@,
            None => settings.source_language@,
        },
        r.1@ == match options {
            Some(o) => o.target_language@,
            None => settings.target_language@,
        },
{
    match options {
        Some(o) => (o.source_language.clone(), o.target_language.clone()),
        None => (settings.source_language.clone(), settings.target_language.clone()),
    }
}

/// Why a request may not pass; `None` where it may. Without a configured
/// key every request passes. With one, the request has to carry it behind
/// `Bearer ` in its authorization header.
pub open spec fn denial(api_bearer: Seq<char>, authorization: Option<Seq<char>>) -> Option<
    Seq<char>,
> {
    if api_bearer.len() == 0 {
        None
    } else {
        match authorization {
            None => Some("Missing Authorization header"@),
            Some(header) => if "Bearer "@.is_prefix_of(header) {
                if header.skip("Bearer "@.len() as int) == api_bearer {
                    None
                } else {
                    Some("Invalid API key"@)
                }
            } else {
                Some("Invalid Authorization header format"@)
            },
        }
    }
}

/// Tells whether a request may pass, and if not, why.
pub fn auth_middleware(api_bearer: &str, authorization: Option<&str>) -> (r: Result<(), String>)
    ensures
        match r {
            Ok(_) => denial(api_bearer@, match authorization {
                Some(h) => Some(h@),
                None => None,
            }) is None,
            Err(why) => denial(api_bearer@, match authorization {
                Some(h) => Some(h@),
                None => None,
            }) == Some(why@),
        },
{
    if api_bearer.is_empty() {
        return Ok(());
    }
    match authorization {
        None => Err("Missing Authorization header".to_owned()),
        Some(header) => {
            let given = chars_of(header);
            let scheme = chars_of("Bearer ");
            if matches_at(&given, 0, &scheme) {
                let token = slice_of(&given, scheme.len(), given.len());
                assert(token@ == header@.skip("Bearer "@.len() as int));
                if same_chars(&token, &chars_of(api_bearer)) {
                    Ok(())
                } else {
                    Err("Invalid API key".to_owned())
                }
            } else {
                Err("Invalid Authorization header format".to_owned())
            }
        },
    }
}

/// What the service says of itself.
pub fn root(settings: &Settings) -> (r: RootResponse)
    ensures
        r.service@ == "Skill Translator"@,
        r.version@ == settings.translator_version@,
        r.description@ == "Translation service for SKILL.md files"@,
        r.endpoints@.len() == 4,
        r.endpoints@[0].0@ == "translate"@ && r.endpoints@[0].1@ == "/api/translate"@,
        r.endpoints@[1].0@ == "batch"@ && r.endpoints@[1].1@ == "/api/translate/batch"@,
        r.endpoints@[2].0@ == "health"@ && r.endpoints@[2].1@ == "/api/health"@,
        r.endpoints@[3].0@ == "cache_stats"@ && r.endpoints@[3].1@ == "/api/cache/stats"@,
{
    let mut endpoints: Vec<(String, String)> = Vec::new();
    endpoints.push(("translate".to_owned(), "/api/translate".to_owned()));
    endpoints.push(("batch".to_owned(), "/api/translate/batch".to_owned()));
    endpoints.push(("health".to_owned(), "/api/health".to_owned()));
    endpoints.push(("cache_stats".to_owned(), "/api/cache/stats".to_owned()));
    RootResponse {
        service: "Skill Translator".to_owned(),
        version: settings.translator_version.clone(),
        description: "Translation service for SKILL.md files".to_owned(),
        endpoints,
    }
}

/// The answer to the question whether the service is well.
pub fn health_check(settings: &Settings) -> (r: HealthResponse)
    ensures
        r.status@ == "healthy"@,
        r.version@ == settings.translator_version@,
        r.cache_connected,
        r.openai_configured == (settings.openai_api_key@.len() > 0),
{
    HealthResponse {
        status: "healthy".to_owned(),
        version: settings.translator_version.clone(),
        cache_connected: true,
        openai_configured: !settings.openai_api_key.as_str().is_empty(),
    }
}

/// Whether `response` is the answer that holds the cached translation `entry`.
pub open spec fn answers_from_cache(response: TranslateResponse, entry: CacheEntry) -> bool {
    &&& response.cached
    &&& response.translated_content@ == base64_text(encode_utf8(entry.translated_content@))
    &&& response.content_hash@ == entry.content_hash@
    &&& response.translated_hash@ == entry.translated_hash@
    &&& response.metadata@ == entry.metadata@
}

/// The answer that holds a cached translation.
pub fn cached_response(entry: CacheEntry) -> (r: TranslateResponse)
    ensures
        answers_from_cache(r, entry),
{
    let translated_content = encode_content(entry.translated_content.as_str());
    TranslateResponse {
        translated_content,
        content_hash: entry.content_hash,
        translated_hash: entry.translated_hash,
        cached: true,
        metadata: entry.metadata,
    }
}

/// The answer with a translation that was just made.
pub fn fresh_response(
    translated_content: &str,
    content_hash: String,
    translated_hash: String,
    metadata: String,
) -> (r: TranslateResponse)
    ensures
        !r.cached,
        r.translated_content@ == base64_text(translated_content.spec_bytes()),
        r.content_hash@ == content_hash@,
        r.translated_hash@ == translated_hash@,
        r.metadata@ == metadata@,
{
    TranslateResponse {
        translated_content: encode_content(translated_content),
        content_hash,
        translated_hash,
        cached: false,
        metadata,
    }
}

/// What became of a document of a batch that was found in the cache.
pub fn cached_result(path: &str, entry: CacheEntry) -> (r: FileTranslationResult)
    ensures
        r.success,
        r.cached,
        r.path@ == path@,
        r.content_hash@ == entry.content_hash@,
        r.translated_content matches Some(text) && text@ == base64_text(
            encode_utf8(entry.translated_content@),
        ),
        r.translated_hash matches Some(hash) && hash@ == entry.translated_hash@,
        r.error is None,
{
    let translated_content = encode_content(entry.translated_content.as_str());
    FileTranslationResult {
        path: path.to_owned(),
        success: true,
        translated_content: Some(translated_content),
        content_hash: entry.content_hash,
        translated_hash: Some(entry.translated_hash),
        cached: true,
        error: None,
    }
}

/// What became of a document of a batch that was just translated.
pub fn fresh_result(path: &str, content_hash: &str, translated_content: &str, translated_hash: String) -> (r:
    FileTranslationResult)
    ensures
        r.success,
        !r.cached,
        r.path@ == path@,
        r.content_hash@ == content_hash@,
        r.translated_content matches Some(text) && text@ == base64_text(
            translated_content.spec_bytes(),
        ),
        r.translated_hash matches Some(hash) && hash@ == translated_hash@,
        r.error is None,
{
    FileTranslationResult {
        path: path.to_owned(),
        success: true,
        translated_content: Some(encode_content(translated_content)),
        content_hash: content_hash.to_owned(),
        translated_hash: Some(translated_hash),
        cached: false,
        error: None,
    }
}

/// What became of a document of a batch that could not be translated.
pub fn failed_result(path: String, content_hash: String, error: &AppError) -> (r:
    FileTranslationResult)
    ensures
        !r.success,
        !r.cached,
        r.path@ == path@,
        r.content_hash@ == content_hash@,
        r.translated_content is None,
        r.translated_hash is None,
        r.error matches Some(text) && text@ == error.message_text(),
{
    FileTranslationResult {
        path,
        success: false,
        translated_content: None,
        content_hash,
        translated_hash: None,
        cached: false,
        error: Some(error.message()),
    }
}

/// How many of the results are successes.
pub open spec fn successes(results: Seq<FileTranslationResult>) -> nat
    decreases results.len(),
{
    if results.len() == 0 {
        0
    } else {
        successes(results.drop_last()) + if results.last().success {
            1nat
        } else {
            0nat
        }
    }
}

/// How many of the results came from the cache.
pub open spec fn from_cache(results: Seq<FileTranslationResult>) -> nat
    decreases results.len(),
{
    if results.len() == 0 {
        0
    } else {
        from_cache(results.drop_last()) + if results.last().cached {
            1nat
        } else {
            0nat
        }
    }
}

/// The answer to a batch: the results, and how many of them are successes,
/// failures, and from the cache. Every document is one or the other, a
/// success or a failure.
pub fn summarize(results: Vec<FileTranslationResult>, processing_time_ms: u64) -> (r:
    BatchTranslateResponse)
    ensures
        r.results == results,
        r.total_files == results@.len(),
        r.successful == successes(results@),
        r.failed == results@.len() - successes(results@),
        r.cached_count == from_cache(results@),
        r.processing_time_ms == processing_time_ms,
{
    let mut successful: usize = 0;
    let mut cached_count: usize = 0;
    let mut failed: usize = 0;
    let mut i: usize = 0;
    while i < results.len()
        invariant
            i <= results.len(),
            successful == successes(results@.take(i as int)),
            cached_count == from_cache(results@.take(i as int)),
            successful + failed == i,
            cached_count <= i,
        decreases results.len() - i,
    {
        proof {
            let upto = results@.take(i + 1);
            assert(upto.drop_last() == results@.take(i as int));
            assert(upto.last() == results@[i as int]);
        }
        if results[i].cached {
            cached_count = cached_count + 1;
        }
        if results[i].success {
            successful = successful + 1;
        } else {
            failed = failed + 1;
        }
        i = i + 1;
    }
    assert(results@.take(results.len() as int) == results@);
    BatchTranslateResponse {
        total_files: successful + failed,
        results,
        successful,
        cached_count,
        failed,
        processing_time_ms,
    }
}

/// `n` written in decimal, with a minus sign where it is negative.
pub open spec fn signed_decimal(n: int) -> Seq<char> {
    if n < 0 {
        seq!['-'] + decimal((-n) as nat)
    } else {
        decimal(n as nat)
    }
}

fn write_signed(n: i64) -> (v: Vec<char>)
    ensures
        v@ == signed_decimal(n as int),
{
    if n < 0 {
        let mut v: Vec<char> = Vec::new();
        v.push('-');
        let magnitude: u64 = if n == i64::MIN {
            0x8000_0000_0000_0000
        } else {
            (-n) as u64
        };
        append_chars(&mut v, &decimal_of(magnitude));
        v
    } else {
        decimal_of(n as u64)
    }
}

/// What is answered once every entry has been cleared.
pub fn clear_cache(cleared: i64) -> (message: String)
    ensures
        message@ == "Cleared all "@ + signed_decimal(cleared as int) + " entries"@,
{
    let mut out = chars_of("Cleared all ");
    append_chars(&mut out, &write_signed(cleared));
    append_chars(&mut out, &chars_of(" entries"));
    string_of(&out)
}

/// What is answered once the expired entries have been cleared.
pub fn clear_expired_cache(cleared: i64) -> (message: String)
    ensures
        message@ == "Cleared "@ + signed_decimal(cleared as int) + " expired entries"@,
{
    let mut out = chars_of("Cleared ");
    append_chars(&mut out, &write_signed(cleared));
    append_chars(&mut out, &chars_of(" expired entries"));
    string_of(&out)
}

/// What is answered once the buffered hits have been written.
pub fn flush_cache_hits() -> (message: String)
    ensures
        message@ == "Flushed pending hits"@,
{
    "Flushed pending hits".to_owned()
}

/// Idempotence: a translation that has been stored is answered from the
/// cache the next time. Once the command of `set` has been carried out, the
/// table holds the stored row under the key, whatever it held before. A
/// lookup that finds this row before it expires is a hit, and the answer
/// built from its entry is marked as cached and carries the fingerprints
/// and the translation that were stored: no translation is asked of the
/// provider a second time.
pub proof fn lemma_stored_translation_is_answered_from_cache(
    table: Table,
    stored: StoredRow,
    found: StoredRow,
    entry: CacheEntry,
    response: TranslateResponse,
    now: int,
    ahead: int,
)
    requires
        found.cache_key@ == stored.cache_key@,
        found.columns() == table_after(StoreCommand::Upsert(stored), table)[stored.cache_key@],
        entry_for(entry, found, now, ahead),
        answers_from_cache(response, entry),
    ensures
        table_after(StoreCommand::Upsert(stored), table).contains_key(stored.cache_key@),
        response.cached,
        response.content_hash@ == stored.content_hash@,
        response.translated_hash@ == stored.translated_hash@,
        response.translated_content@ == base64_text(encode_utf8(stored.translated_content@)),
{
}

} // verus!
