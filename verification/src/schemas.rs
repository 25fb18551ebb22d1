//! The requests and answers of the service.

use vstd::prelude::*;

verus! {

/// How a document is to be translated.
#[derive(Debug, Clone)]
pub struct TranslateOptions {
    pub preserve_frontmatter: bool,
    pub preserve_code_blocks: bool,
    pub translate_code_comments: bool,
    pub target_language: String,
    pub source_language: String,
}

impl Default for TranslateOptions {
    /// Header and code blocks preserved, comments in code left alone, from
    /// English to simplified Chinese.
    fn default() -> (options: TranslateOptions)
        ensures
            options.preserve_frontmatter,
            options.preserve_code_blocks,
            !options.translate_code_comments,
            options.target_language@ == "zh-CN"@,
            options.source_language@ == "en"@,
    {
        TranslateOptions {
            preserve_frontmatter: true,
            preserve_code_blocks: true,
            translate_code_comments: false,
            target_language: "zh-CN".to_owned(),
            source_language: "en".to_owned(),
        }
    }
}

/// The request to translate one document.
#[derive(Debug, Clone)]
pub struct TranslateRequest {
    /// The document in base64.
    pub content: String,
    /// Where the document lies in its repository.
    pub path: String,
    /// The fingerprint of the document.
    pub content_hash: String,
    pub options: Option<TranslateOptions>,
}

/// The answer to the request to translate one document.
#[derive(Debug, Clone)]
pub struct TranslateResponse {
    /// The translated document in base64.
    pub translated_content: String,
    pub content_hash: String,
    pub translated_hash: String,
    /// Whether the translation came from the cache.
    pub cached: bool,
    /// JSON text.
    pub metadata: String,
}

/// One document of a batch.
#[derive(Debug, Clone)]
pub struct FileToTranslate {
    pub path: String,
    /// The document in base64.
    pub content: String,
    pub content_hash: String,
}

/// The request to translate several documents.
#[derive(Debug, Clone)]
pub struct BatchTranslateRequest {
    pub files: Vec<FileToTranslate>,
    pub options: Option<TranslateOptions>,
    /// Whether a cached translation is returned without translating again.
    pub skip_cached: bool,
}

/// What `skip_cached` is where a request does not say: true.
pub fn default_skip_cached() -> (skip: bool)
    ensures
        skip,
{
    true
}

/// What became of one document of a batch.
#[derive(Debug, Clone)]
pub struct FileTranslationResult {
    pub path: String,
    pub success: bool,
    pub translated_content: Option<String>,
    pub content_hash: String,
    pub translated_hash: Option<String>,
    pub cached: bool,
    pub error: Option<String>,
}

/// The answer to the request to translate several documents.
#[derive(Debug, Clone)]
pub struct BatchTranslateResponse {
    pub results: Vec<FileTranslationResult>,
    pub total_files: usize,
    pub successful: usize,
    pub cached_count: usize,
    pub failed: usize,
    pub processing_time_ms: u64,
}

/// The answer to the question whether the service is well.
#[derive(Debug, Clone)]
pub struct HealthResponse {
    pub status: String,
    pub version: String,
    pub cache_connected: bool,
    pub openai_configured: bool,
}

/// What the service says of itself.
#[derive(Debug, Clone)]
pub struct RootResponse {
    pub service: String,
    pub version: String,
    pub description: String,
    /// Each endpoint's name with its path.
    pub endpoints: Vec<(String, String)>,
}

} // verus!
