//! One document's translation, around the calls to the provider: what is
//! sent, and how the answers become the translated document.

use crate::config::Settings;
use crate::digest::{compute_hash, fingerprint};
use crate::fields::string_field;
use crate::gate::RetryPolicy;
use crate::header::rewritten_field;
use crate::parser::{
    blocks_view, is_parse_of, restored, substituted, translatable, ContentParser, ParsedContent,
};
use crate::text::{
    append_chars, chars_of, drop_blank_lines, join_lines, joined, lines_of, non_blank, split_lines,
    string_of,
};
use vstd::prelude::*;
use vstd::string::StringSliceAdditionalSpecFns;
use vstd::utf8::encode_utf8;

verus! {

/// How often a call to the provider is tried.
pub const MAX_RETRIES: u32 = 3;

/// The base delay between two tries, in milliseconds.
pub const RETRY_DELAY_MS: u64 = 2000;

/// What the provider is told before the text to translate.
pub const SYSTEM_PROMPT: &'static str =
    "You are a professional technical translator specializing in software documentation.
Your task is to translate SKILL.md files from English to Chinese (Simplified, zh-CN).

IMPORTANT RULES:
1. Translate the content naturally while preserving technical accuracy
2. Keep all code examples, commands, and URLs unchanged
3. Preserve the markdown formatting exactly
4. Keep technical terms in English when appropriate (e.g., OpenClaw, ClawHub, API, CLI)
5. Translate comments in code blocks only if they are clearly explanatory
6. Maintain the same structure and organization as the original
7. Do not add or remove any sections
8. Preserve all placeholders like ___CODE_BLOCK_0___ exactly as they are

Translate the following content to Chinese (Simplified):";

/// What the translation of documents needs to know.
pub struct Translator {
    pub model: String,
    pub max_tokens: u32,
    pub translator_version: String,
    /// How many calls to the provider may run at once.
    pub max_concurrent_translations: usize,
    pub policy: RetryPolicy,
    pub parser: ContentParser,
}

/// Figures about one translation.
#[derive(Debug, Clone)]
pub struct TranslationMetadata {
    /// The length of the document in bytes.
    pub original_chars: usize,
    /// The length of the translated document in bytes.
    pub translated_chars: usize,
    pub processing_time_ms: u64,
    pub translator_version: String,
    pub model: String,
    pub source_language: String,
    pub target_language: String,
}

/// A document made ready for translation.
#[derive(Debug)]
pub struct Draft {
    pub parsed: ParsedContent,
    /// The body with placeholders for its code blocks: the text to translate.
    pub body_request: String,
    /// The description of the header, where it is to be translated.
    pub description_request: Option<String>,
}

/// What a cache key is the fingerprint of: the content's fingerprint, the
/// two languages and the version, with a colon between each two.
pub open spec fn key_material(
    content_hash: Seq<char>,
    source_language: Seq<char>,
    target_language: Seq<char>,
    version: Seq<char>,
) -> Seq<char> {
    content_hash + seq![':'] + source_language + seq![':'] + target_language + seq![':'] + version
}

/// The cache key of a translation.
pub open spec fn cache_key(
    content_hash: Seq<char>,
    source_language: Seq<char>,
    target_language: Seq<char>,
    version: Seq<char>,
) -> Seq<char> {
    fingerprint(encode_utf8(key_material(content_hash, source_language, target_language, version)))
}

/// The description that is sent for translation: that of the header, if it
/// is a string and not empty.
pub open spec fn description_to_translate(parsed: ParsedContent) -> Option<Seq<char>> {
    match string_field(parsed.frontmatter_dict@, "description"@) {
        Some(text) => if text.len() > 0 && translatable("description"@) {
            Some(text)
        } else {
            None
        },
        None => None,
    }
}

/// The text without its blank lines.
pub open spec fn without_blank_lines(text: Seq<char>) -> Seq<char> {
    joined(non_blank(lines_of(text)))
}

/// The translated document: the header, with the description replaced where
/// one was translated, and behind it the translated body with its code
/// blocks back in place.
pub open spec fn assembled(
    parsed: ParsedContent,
    translated_body: Seq<char>,
    translated_description: Option<Seq<char>>,
) -> Seq<char> {
    let header = match translated_description {
        Some(text) => rewritten_field(
            parsed.frontmatter@,
            "description"@,
            without_blank_lines(text),
        ),
        None => parsed.frontmatter@,
    };
    header + restored(translated_body, blocks_view(parsed.code_blocks@))
}

impl Translator {
    /// A translator with the given settings, three tries for each call and
    /// two seconds as the base delay between them.
    pub fn new(settings: &Settings) -> (translator: Translator)
        ensures
            translator.model@ == settings.openai_model@,
            translator.max_tokens == settings.max_tokens,
            translator.translator_version@ == settings.translator_version@,
            translator.max_concurrent_translations == settings.max_concurrent_translations,
            translator.policy.attempts() == MAX_RETRIES,
            translator.policy.base_delay_ms() == RETRY_DELAY_MS,
            translator.policy.deadline_seconds() == settings.translation_timeout_seconds,
    {
        let policy = match RetryPolicy::new(
            MAX_RETRIES,
            RETRY_DELAY_MS,
            settings.translation_timeout_seconds,
        ) {
            Some(policy) => policy,
            None => vstd::pervasive::unreached(),
        };
        Translator {
            model: settings.openai_model.clone(),
            max_tokens: settings.max_tokens,
            translator_version: settings.translator_version.clone(),
            max_concurrent_translations: settings.max_concurrent_translations,
            policy,
            parser: ContentParser::new(),
        }
    }

    /// The fingerprint of a text.
    pub fn compute_hash(content: &str) -> (hash: String)
        ensures
            hash@ == fingerprint(content.spec_bytes()),
            hash@.len() == 71,
    {
        compute_hash(content)
    }

    /// The cache key of a translation: the fingerprint of the content's
    /// fingerprint, the two languages and this translator's version.
    pub fn compute_cache_key(
        &self,
        content_hash: &str,
        source_language: &str,
        target_language: &str,
    ) -> (key: String)
        ensures
            key@ == cache_key(
                content_hash@,
                source_language@,
                target_language@,
                self.translator_version@,
            ),
            key@.len() == 71,
    {
        let mut material = chars_of(content_hash);
        material.push(':');
        append_chars(&mut material, &chars_of(source_language));
        material.push(':');
        append_chars(&mut material, &chars_of(target_language));
        material.push(':');
        append_chars(&mut material, &chars_of(self.translator_version.as_str()));
        assert(material@ =~= key_material(
            content_hash@,
            source_language@,
            target_language@,
            self.translator_version@,
        ));
        let text = string_of(&material);
        compute_hash(text.as_str())
    }

    /// Makes a document ready: takes it apart, puts placeholders for the
    /// code blocks of its body, and picks the description to translate.
    pub fn prepare(&self, content: &str) -> (draft: Draft)
        ensures
            is_parse_of(content@, draft.parsed),
            draft.body_request@ == substituted(
                draft.parsed.body@,
                blocks_view(draft.parsed.code_blocks@),
            ),
            match draft.description_request {
                Some(text) => description_to_translate(draft.parsed) == Some(text@),
                None => description_to_translate(draft.parsed) is None,
            },
    {
        let parsed = self.parser.parse(content);
        let body_request = self.parser.replace_code_blocks(
            parsed.body.as_str(),
            &parsed.code_blocks,
        );
        let description_request = match self.parser.get_description_field(
            &parsed.frontmatter_dict,
        ) {
            Some(text) => if !text.as_str().is_empty() && self.parser.is_translatable_field(
                "description",
            ) {
                Some(text)
            } else {
                None
            },
            None => None,
        };
        Draft { parsed, body_request, description_request }
    }

    /// Puts the translated document together: `translated_body` is the
    /// provider's answer to the body request, `translated_description` its
    /// answer to the description request, if there was one.
    pub fn assemble(
        &self,
        draft: &Draft,
        translated_body: &str,
        translated_description: Option<&str>,
    ) -> (content: String)
        ensures
            content@ == assembled(draft.parsed, translated_body@, match translated_description {
                Some(text) => Some(text@),
                None => None,
            }),
    {
        let body = self.parser.restore_code_blocks(translated_body, &draft.parsed.code_blocks);
        let header = match translated_description {
            Some(text) => {
                let lines = drop_blank_lines(split_lines(&chars_of(text)));
                let cleaned = string_of(&join_lines(&lines));
                self.parser.translate_frontmatter_field(
                    draft.parsed.frontmatter.as_str(),
                    "description",
                    cleaned.as_str(),
                )
            },
            None => draft.parsed.frontmatter.clone(),
        };
        let mut content = chars_of(header.as_str());
        append_chars(&mut content, &chars_of(body.as_str()));
        string_of(&content)
    }

    /// The figures of a translation that took `processing_time_ms`.
    pub fn metadata(
        &self,
        content: &str,
        translated_content: &str,
        processing_time_ms: u64,
        source_language: &str,
        target_language: &str,
    ) -> (m: TranslationMetadata)
        ensures
            m.original_chars == content.spec_bytes().len(),
            m.translated_chars == translated_content.spec_bytes().len(),
            m.processing_time_ms == processing_time_ms,
            m.translator_version@ == self.translator_version@,
            m.model@ == self.model@,
            m.source_language@ == source_language@,
            m.target_language@ == target_language@,
    {
        TranslationMetadata {
            original_chars: content.as_bytes().len(),
            translated_chars: translated_content.as_bytes().len(),
            processing_time_ms,
            translator_version: self.translator_version.clone(),
            model: self.model.clone(),
            source_language: source_language.to_owned(),
            target_language: target_language.to_owned(),
        }
    }
}

/// Whether the character `c` occurs nowhere in `s`.
pub open spec fn free_of(s: Seq<char>, c: char) -> bool {
    forall|i: int| 0 <= i < s.len() ==> #[trigger] s[i] != c
}

/// Texts that begin with different colon-free parts before their first
/// colon differ, and so do texts that differ behind it.
pub proof fn lemma_split_at_colon(a: Seq<char>, x: Seq<char>, b: Seq<char>, y: Seq<char>)
    requires
        free_of(a, ':'),
        free_of(b, ':'),
        a + seq![':'] + x == b + seq![':'] + y,
    ensures
        a == b,
        x == y,
{
    let left = a + seq![':'] + x;
    let right = b + seq![':'] + y;
    if a.len() < b.len() {
        assert(left[a.len() as int] == ':');
        assert(right[a.len() as int] == b[a.len() as int]);
    } else if b.len() < a.len() {
        assert(right[b.len() as int] == ':');
        assert(left[b.len() as int] == a[b.len() as int]);
    }
    assert(a =~= b) by {
        assert forall|i: int| 0 <= i < a.len() implies a[i] == b[i] by {
            assert(left[i] == a[i]);
            assert(right[i] == b[i]);
        }
    }
    assert(x =~= y) by {
        assert(left.len() == right.len());
        assert forall|i: int| 0 <= i < x.len() implies x[i] == y[i] by {
            assert(left[a.len() + 1 + i] == x[i]);
            assert(right[b.len() + 1 + i] == y[i]);
        }
    }
}

/// Determinism: the same fingerprint, languages and version give the same
/// cache key.
pub proof fn lemma_cache_key_deterministic(
    content_hash: Seq<char>,
    source_language: Seq<char>,
    target_language: Seq<char>,
    version: Seq<char>,
    other_hash: Seq<char>,
    other_source: Seq<char>,
    other_target: Seq<char>,
    other_version: Seq<char>,
)
    requires
        content_hash == other_hash,
        source_language == other_source,
        target_language == other_target,
        version == other_version,
    ensures
        cache_key(content_hash, source_language, target_language, version) == cache_key(
            other_hash,
            other_source,
            other_target,
            other_version,
        ),
{
}

/// Texts that end with different colon-free parts behind their last colon
/// differ, and so do texts that differ before it.
pub proof fn lemma_split_at_last_colon(x: Seq<char>, a: Seq<char>, y: Seq<char>, b: Seq<char>)
    requires
        free_of(a, ':'),
        free_of(b, ':'),
        x + seq![':'] + a == y + seq![':'] + b,
    ensures
        a == b,
        x == y,
{
    let left = x + seq![':'] + a;
    let right = y + seq![':'] + b;
    assert(left.len() == right.len());
    if a.len() < b.len() {
        assert(left[x.len() as int] == ':');
        assert(right[x.len() as int] == b[x.len() - y.len() - 1]);
    } else if b.len() < a.len() {
        assert(right[y.len() as int] == ':');
        assert(left[y.len() as int] == a[y.len() - x.len() - 1]);
    }
    assert(x =~= y) by {
        assert forall|i: int| 0 <= i < x.len() implies x[i] == y[i] by {
            assert(left[i] == x[i]);
            assert(right[i] == y[i]);
        }
    }
    assert(a =~= b) by {
        assert forall|i: int| 0 <= i < a.len() implies a[i] == b[i] by {
            assert(left[x.len() + 1 + i] == a[i]);
            assert(right[y.len() + 1 + i] == b[i]);
        }
    }
}

/// What two cache keys are the fingerprints of differs as soon as one of
/// the inputs does, where the languages hold no colon and either the
/// versions or the fingerprints of the content hold none. A fingerprint
/// such as `sha256:…` may hold colons where the versions hold none.
pub proof fn lemma_key_material_differs(
    content_hash: Seq<char>,
    source_language: Seq<char>,
    target_language: Seq<char>,
    version: Seq<char>,
    other_hash: Seq<char>,
    other_source: Seq<char>,
    other_target: Seq<char>,
    other_version: Seq<char>,
)
    requires
        free_of(source_language, ':'),
        free_of(target_language, ':'),
        free_of(other_source, ':'),
        free_of(other_target, ':'),
        (free_of(version, ':') && free_of(other_version, ':')) || (free_of(content_hash, ':')
            && free_of(other_hash, ':')),
        content_hash != other_hash || source_language != other_source || target_language
            != other_target || version != other_version,
    ensures
        key_material(content_hash, source_language, target_language, version) != key_material(
            other_hash,
            other_source,
            other_target,
            other_version,
        ),
{
    let m = key_material(content_hash, source_language, target_language, version);
    let n = key_material(other_hash, other_source, other_target, other_version);
    if m == n {
        if free_of(version, ':') && free_of(other_version, ':') {
            let x1 = content_hash + seq![':'] + source_language + seq![':'] + target_language;
            let y1 = other_hash + seq![':'] + other_source + seq![':'] + other_target;
            lemma_split_at_last_colon(x1, version, y1, other_version);
            let x2 = content_hash + seq![':'] + source_language;
            let y2 = other_hash + seq![':'] + other_source;
            lemma_split_at_last_colon(x2, target_language, y2, other_target);
            lemma_split_at_last_colon(content_hash, source_language, other_hash, other_source);
        } else {
            let x1 = source_language + seq![':'] + target_language + seq![':'] + version;
            let y1 = other_source + seq![':'] + other_target + seq![':'] + other_version;
            assert(m =~= content_hash + seq![':'] + x1);
            assert(n =~= other_hash + seq![':'] + y1);
            lemma_split_at_colon(content_hash, x1, other_hash, y1);
            let x2 = target_language + seq![':'] + version;
            let y2 = other_target + seq![':'] + other_version;
            assert(x1 =~= source_language + seq![':'] + x2);
            assert(y1 =~= other_source + seq![':'] + y2);
            lemma_split_at_colon(source_language, x2, other_source, y2);
            lemma_split_at_colon(target_language, version, other_target, other_version);
        }
    }
}

} // verus!
