//! The settings of the service, read from the variables of the environment.

use crate::text::{chars_of, same_chars, string_of};
use vstd::prelude::*;

verus! {

/// The settings of the service.
#[derive(Debug, Clone)]
pub struct Settings {
    pub openai_api_key: String,
    pub openai_model: String,
    pub openai_base_url: String,
    pub host: String,
    pub port: u16,
    pub reload: bool,
    pub local_api_bearer: String,
    pub translator_version: String,
    pub target_language: String,
    pub source_language: String,
    pub max_concurrent_translations: usize,
    pub translation_timeout_seconds: u64,
    pub max_tokens: u32,
    pub cache_db_path: String,
    pub cache_max_age_days: i64,
}

/// The value of the first variable named `name`.
pub open spec fn var_named(vars: Seq<(String, String)>, name: Seq<char>) -> Option<Seq<char>>
    decreases vars.len(),
{
    if vars.len() == 0 {
        None
    } else if vars[0].0@ == name {
        Some(vars[0].1@)
    } else {
        var_named(vars.skip(1), name)
    }
}

/// Whether `c` is one of the decimal digits `0` to `9`.
pub open spec fn is_digit(c: char) -> bool {
    '0' <= c <= '9'
}

/// The number that a decimal digit stands for.
pub open spec fn digit_value(c: char) -> nat {
    (c as u32 - '0' as u32) as nat
}

/// The number that decimal digits write.
pub open spec fn digits_value(s: Seq<char>) -> nat
    decreases s.len(),
{
    if s.len() == 0 {
        0
    } else {
        digits_value(s.drop_last()) * 10 + digit_value(s.last())
    }
}

/// Whether `s` holds nothing but decimal digits.
pub open spec fn all_digits(s: Seq<char>) -> bool {
    forall|i: int| 0 <= i < s.len() ==> is_digit(#[trigger] s[i])
}

/// The number that `s` writes, if `s` is one decimal digit or more and the
/// number is at most `max`.
pub open spec fn magnitude(s: Seq<char>, max: nat) -> Option<nat> {
    if s.len() > 0 && all_digits(s) && digits_value(s) <= max {
        Some(digits_value(s))
    } else {
        None
    }
}

/// The number that `s` writes without a sign or behind `+`, if it is at most `max`.
pub open spec fn parsed_unsigned(s: Seq<char>, max: nat) -> Option<nat> {
    if s.len() > 0 && s[0] == '+' {
        magnitude(s.skip(1), max)
    } else {
        magnitude(s, max)
    }
}

/// The number that `s` writes, with or without a sign, if it fits `i64`.
pub open spec fn parsed_i64(s: Seq<char>) -> Option<int> {
    if s.len() > 0 && s[0] == '-' {
        match magnitude(s.skip(1), 0x8000_0000_0000_0000) {
            Some(m) => Some(-(m as int)),
            None => None,
        }
    } else {
        match parsed_unsigned(s, 0x7fff_ffff_ffff_ffff) {
            Some(m) => Some(m as int),
            None => None,
        }
    }
}

/// The truth value that `s` writes: `true` or `false`, nothing else.
pub open spec fn parsed_bool(s: Seq<char>) -> Option<bool> {
    if s == "true"@ {
        Some(true)
    } else if s == "false"@ {
        Some(false)
    } else {
        None
    }
}

/// Digits write at least what any number of their first digits writes.
pub proof fn lemma_digits_value_grows(s: Seq<char>, k: int)
    requires
        0 <= k <= s.len(),
    ensures
        digits_value(s.take(k)) <= digits_value(s),
    decreases s.len() - k,
{
    if k < s.len() {
        lemma_digits_value_grows(s.drop_last(), k);
        assert(s.drop_last().take(k) == s.take(k));
    } else {
        assert(s.take(k) == s);
    }
}

/// Reads the digits of `text` from index `from` on as a number of at most `max`.
pub fn parse_magnitude(text: &Vec<char>, from: usize, max: u64) -> (r: Option<u64>)
    requires
        from <= text.len(),
    ensures
        match r {
            Some(n) => magnitude(text@.skip(from as int), max as nat) == Some(n as nat),
            None => magnitude(text@.skip(from as int), max as nat) is None,
        },
{
    let ghost s = text@.skip(from as int);
    if from == text.len() {
        return None;
    }
    let mut acc: u64 = 0;
    let mut i: usize = from;
    assert(s.take(0) == Seq::<char>::empty());
    while i < text.len()
        invariant
            from <= i <= text.len(),
            s == text@.skip(from as int),
            all_digits(s.take(i - from)),
            acc == digits_value(s.take(i - from)),
            acc <= max,
        decreases text.len() - i,
    {
        let c = text[i];
        assert(s[i - from] == c);
        if !('0' <= c && c <= '9') {
            return None;
        }
        let d: u64 = (c as u32 - '0' as u32) as u64;
        let next: u128 = (acc as u128) * 10 + (d as u128);
        proof {
            let upto = s.take(i - from + 1);
            assert(upto.drop_last() == s.take(i - from));
            assert(upto.last() == c);
            assert(next == digits_value(upto));
            assert forall|j: int| 0 <= j < upto.len() implies is_digit(#[trigger] upto[j]) by {
                if j < i - from {
                    assert(s.take(i - from)[j] == upto[j]);
                }
            }
        }
        if next > max as u128 {
            proof {
                lemma_digits_value_grows(s, i - from + 1);
            }
            return None;
        }
        acc = next as u64;
        i = i + 1;
    }
    assert(s.take(s.len() as int) == s);
    Some(acc)
}

/// Reads `text` as a number of at most `max`, written without a sign or behind `+`.
pub fn parse_unsigned(text: &str, max: u64) -> (r: Option<u64>)
    ensures
        match r {
            Some(n) => parsed_unsigned(text@, max as nat) == Some(n as nat),
            None => parsed_unsigned(text@, max as nat) is None,
        },
{
    let chars = chars_of(text);
    if chars.len() > 0 && chars[0] == '+' {
        parse_magnitude(&chars, 1, max)
    } else {
        assert(chars@.skip(0) == chars@);
        parse_magnitude(&chars, 0, max)
    }
}

/// Reads `text` as a number that fits `i64`, with or without a sign.
pub fn parse_i64(text: &str) -> (r: Option<i64>)
    ensures
        match r {
            Some(n) => parsed_i64(text@) == Some(n as int),
            None => parsed_i64(text@) is None,
        },
{
    let chars = chars_of(text);
    if chars.len() > 0 && chars[0] == '-' {
        match parse_magnitude(&chars, 1, 0x8000_0000_0000_0000) {
            Some(m) => if m == 0x8000_0000_0000_0000 {
                Some(i64::MIN)
            } else {
                Some(-(m as i64))
            },
            None => None,
        }
    } else {
        match parse_unsigned(text, 0x7fff_ffff_ffff_ffff) {
            Some(m) => Some(m as i64),
            None => None,
        }
    }
}

/// Reads `text` as a truth value.
pub fn parse_bool(text: &str) -> (r: Option<bool>)
    ensures
        r == parsed_bool(text@),
{
    let chars = chars_of(text);
    if same_chars(&chars, &chars_of("true")) {
        Some(true)
    } else if same_chars(&chars, &chars_of("false")) {
        Some(false)
    } else {
        None
    }
}

/// Looks up the first variable named `name`.
pub fn lookup<'a>(vars: &'a Vec<(String, String)>, name: &str) -> (r: Option<&'a String>)
    ensures
        match r {
            Some(value) => var_named(vars@, name@) == Some(value@),
            None => var_named(vars@, name@) is None,
        },
{
    let wanted = name.to_owned();
    let mut i: usize = 0;
    assert(vars@.skip(0) == vars@);
    while i < vars.len()
        invariant
            i <= vars.len(),
            wanted@ == name@,
            var_named(vars@, name@) == var_named(vars@.skip(i as int), name@),
        decreases vars.len() - i,
    {
        assert(vars@.skip(i as int)[0] == vars@[i as int]);
        assert(vars@.skip(i as int).skip(1) == vars@.skip(i + 1));
        if vars[i].0 == wanted {
            return Some(&vars[i].1);
        }
        i = i + 1;
    }
    None
}

/// The text of a variable, or `default` where it is not set.
pub open spec fn text_setting(vars: Seq<(String, String)>, name: Seq<char>, default: Seq<char>) -> Seq<
    char,
> {
    match var_named(vars, name) {
        Some(value) => value,
        None => default,
    }
}

/// The number of a variable, or `default` where it is not set or writes no
/// number of at most `max`.
pub open spec fn number_setting(
    vars: Seq<(String, String)>,
    name: Seq<char>,
    max: nat,
    default: nat,
) -> nat {
    match var_named(vars, name) {
        Some(value) => match parsed_unsigned(value, max) {
            Some(n) => n,
            None => default,
        },
        None => default,
    }
}

fn text_or(vars: &Vec<(String, String)>, name: &str, default: &str) -> (r: String)
    ensures
        r@ == text_setting(vars@, name@, default@),
{
    match lookup(vars, name) {
        Some(value) => value.clone(),
        None => default.to_owned(),
    }
}

fn number_or(vars: &Vec<(String, String)>, name: &str, max: u64, default: u64) -> (r: u64)
    requires
        default <= max,
    ensures
        r == number_setting(vars@, name@, max as nat, default as nat),
        r <= max,
{
    match lookup(vars, name) {
        Some(value) => match parse_unsigned(value.as_str(), max) {
            Some(n) => n,
            None => default,
        },
        None => default,
    }
}

/// Whether `settings` are what the variables `vars` give: each setting from
/// the variable of its name, and its default where the variable is not set
/// or, for a number or a truth value, does not write one.
pub open spec fn settings_from(vars: Seq<(String, String)>, settings: Settings) -> bool {
    &&& settings.openai_api_key@ == text_setting(vars, "OPENAI_API_KEY"@, ""@)
    &&& settings.openai_model@ == text_setting(vars, "OPENAI_MODEL"@, "gpt-4o-mini"@)
    &&& settings.openai_base_url@ == text_setting(
        vars,
        "OPENAI_BASE_URL"@,
        "https://api.openai.com/v1"@,
    )
    &&& settings.host@ == text_setting(vars, "HOST"@, "127.0.0.1"@)
    &&& settings.port == number_setting(vars, "PORT"@, 0xffff, 8080)
    &&& settings.reload == match var_named(vars, "RELOAD"@) {
        Some(value) => match parsed_bool(value) {
            Some(b) => b,
            None => false,
        },
        None => false,
    }
    &&& settings.local_api_bearer@ == text_setting(vars, "LOCAL_API_BEARER"@, ""@)
    &&& settings.translator_version@ == text_setting(vars, "TRANSLATOR_VERSION"@, "1.0.0"@)
    &&& settings.target_language@ == text_setting(vars, "TARGET_LANGUAGE"@, "zh-CN"@)
    &&& settings.source_language@ == text_setting(vars, "SOURCE_LANGUAGE"@, "en"@)
    &&& settings.max_concurrent_translations == number_setting(
        vars,
        "MAX_CONCURRENT_TRANSLATIONS"@,
        usize::MAX as nat,
        5,
    )
    &&& settings.translation_timeout_seconds == number_setting(
        vars,
        "TRANSLATION_TIMEOUT_SECONDS"@,
        u64::MAX as nat,
        600,
    )
    &&& settings.max_tokens == number_setting(vars, "MAX_TOKENS"@, 0xffff_ffff, 16000)
    &&& settings.cache_db_path@ == text_setting(vars, "CACHE_DB_PATH"@, "./data/cache.db"@)
    &&& settings.cache_max_age_days == match var_named(vars, "CACHE_MAX_AGE_DAYS"@) {
        Some(value) => match parsed_i64(value) {
            Some(n) => n,
            None => 30,
        },
        None => 30,
    }
}

impl Settings {
    /// The settings that the variables give.
    pub fn load(vars: &Vec<(String, String)>) -> (settings: Settings)
        ensures
            settings_from(vars@, settings),
    {
        let reload = match lookup(vars, "RELOAD") {
            Some(value) => match parse_bool(value.as_str()) {
                Some(b) => b,
                None => false,
            },
            None => false,
        };
        let cache_max_age_days: i64 = match lookup(vars, "CACHE_MAX_AGE_DAYS") {
            Some(value) => match parse_i64(value.as_str()) {
                Some(n) => n,
                None => 30,
            },
            None => 30,
        };
        Settings {
            openai_api_key: text_or(vars, "OPENAI_API_KEY", ""),
            openai_model: text_or(vars, "OPENAI_MODEL", "gpt-4o-mini"),
            openai_base_url: text_or(vars, "OPENAI_BASE_URL", "https://api.openai.com/v1"),
            host: text_or(vars, "HOST", "127.0.0.1"),
            port: number_or(vars, "PORT", 0xffff, 8080) as u16,
            reload,
            local_api_bearer: text_or(vars, "LOCAL_API_BEARER", ""),
            translator_version: text_or(vars, "TRANSLATOR_VERSION", "1.0.0"),
            target_language: text_or(vars, "TARGET_LANGUAGE", "zh-CN"),
            source_language: text_or(vars, "SOURCE_LANGUAGE", "en"),
            max_concurrent_translations: number_or(
                vars,
                "MAX_CONCURRENT_TRANSLATIONS",
                usize::MAX as u64,
                5,
            ) as usize,
            translation_timeout_seconds: number_or(
                vars,
                "TRANSLATION_TIMEOUT_SECONDS",
                u64::MAX,
                600,
            ),
            max_tokens: number_or(vars, "MAX_TOKENS", 0xffff_ffff, 16000) as u32,
            cache_db_path: text_or(vars, "CACHE_DB_PATH", "./data/cache.db"),
            cache_max_age_days,
        }
    }
}

/// The settings of the service, given the variables of its environment.
pub fn get_settings(vars: &Vec<(String, String)>) -> (settings: Settings)
    ensures
        settings_from(vars@, settings),
{
    Settings::load(vars)
}

} // verus!
