//! The errors of the service and the text each is reported with.

use crate::text::{append_chars, chars_of, decimal, decimal_of, string_of};
use vstd::prelude::*;

verus! {

/// What can go wrong with one call to the translation provider.
#[derive(Debug, Clone)]
pub enum TranslationError {
    /// No answer within the given number of seconds, all attempts together.
    Timeout(u64),
    /// Every attempt failed; `error` describes the last failure.
    RetryFailed { attempts: u32, error: String },
    /// The provider answered with nothing.
    EmptyResponse,
    /// The provider, or the connection to it, reported an error.
    OpenAIError(String),
}

/// What can go wrong with a request.
#[derive(Debug, Clone)]
pub enum AppError {
    TranslationError(TranslationError),
    /// Storage failed; the text is what storage said.
    CacheError(String),
    /// The content is no base64; the text is what the decoder said.
    Base64Error(String),
    BadRequest(String),
    Internal(String),
}

/// An error of a call to the provider as a mathematical value.
pub enum ErrorView {
    Timeout(nat),
    RetryFailed { attempts: nat, error: Seq<char> },
    EmptyResponse,
    OpenAIError(Seq<char>),
}

impl View for TranslationError {
    type V = ErrorView;

    open spec fn view(&self) -> ErrorView {
        match self {
            TranslationError::Timeout(seconds) => ErrorView::Timeout(*seconds as nat),
            TranslationError::RetryFailed { attempts, error } => ErrorView::RetryFailed {
                attempts: *attempts as nat,
                error: error@,
            },
            TranslationError::EmptyResponse => ErrorView::EmptyResponse,
            TranslationError::OpenAIError(text) => ErrorView::OpenAIError(text@),
        }
    }
}

impl TranslationError {
    /// The text the error is reported with.
    pub open spec fn message_text(&self) -> Seq<char> {
        match self {
            TranslationError::Timeout(seconds) => "Translation timed out after "@ + decimal(
                *seconds as nat,
            ) + " seconds"@,
            TranslationError::RetryFailed { attempts, error } => "Translation failed after "@
                + decimal(*attempts as nat) + " attempts: "@ + error@,
            TranslationError::EmptyResponse => "Empty response from upstream API"@,
            TranslationError::OpenAIError(text) => "OpenAI API error: "@ + text@,
        }
    }

    /// The text the error is reported with.
    pub fn message(&self) -> (text: String)
        ensures
            text@ == self.message_text(),
    {
        match self {
            TranslationError::Timeout(seconds) => {
                let mut out = chars_of("Translation timed out after ");
                append_chars(&mut out, &decimal_of(*seconds));
                append_chars(&mut out, &chars_of(" seconds"));
                string_of(&out)
            },
            TranslationError::RetryFailed { attempts, error } => {
                let mut out = chars_of("Translation failed after ");
                append_chars(&mut out, &decimal_of(*attempts as u64));
                append_chars(&mut out, &chars_of(" attempts: "));
                append_chars(&mut out, &chars_of(error.as_str()));
                string_of(&out)
            },
            TranslationError::EmptyResponse => {
                string_of(&chars_of("Empty response from upstream API"))
            },
            TranslationError::OpenAIError(text) => {
                let mut out = chars_of("OpenAI API error: ");
                append_chars(&mut out, &chars_of(text.as_str()));
                string_of(&out)
            },
        }
    }
}

impl AppError {
    /// The text the error is reported with.
    pub open spec fn message_text(&self) -> Seq<char> {
        match self {
            AppError::TranslationError(e) => "Translation error: "@ + e.message_text(),
            AppError::CacheError(text) => "Cache error: "@ + text@,
            AppError::Base64Error(text) => "Invalid base64 content: "@ + text@,
            AppError::BadRequest(text) => "Invalid request: "@ + text@,
            AppError::Internal(text) => "Internal server error: "@ + text@,
        }
    }

    /// The status code the error is answered with: 400 for what the request
    /// got wrong, 500 for the rest.
    pub open spec fn status_code(&self) -> u16 {
        match self {
            AppError::BadRequest(_) | AppError::Base64Error(_) => 400,
            _ => 500,
        }
    }

    /// The detail the error is answered with.
    pub open spec fn detail_text(&self) -> Seq<char> {
        match self {
            AppError::BadRequest(text) => text@,
            AppError::Base64Error(text) => "Invalid base64 content: "@ + text@,
            AppError::TranslationError(e) => "Translation failed: "@ + e.message_text(),
            AppError::CacheError(text) => "Cache error: "@ + text@,
            AppError::Internal(text) => text@,
        }
    }

    /// The text the error is reported with.
    pub fn message(&self) -> (text: String)
        ensures
            text@ == self.message_text(),
    {
        let (mut out, rest) = match self {
            AppError::TranslationError(e) => (chars_of("Translation error: "), e.message()),
            AppError::CacheError(text) => (chars_of("Cache error: "), text.clone()),
            AppError::Base64Error(text) => (chars_of("Invalid base64 content: "), text.clone()),
            AppError::BadRequest(text) => (chars_of("Invalid request: "), text.clone()),
            AppError::Internal(text) => (chars_of("Internal server error: "), text.clone()),
        };
        append_chars(&mut out, &chars_of(rest.as_str()));
        string_of(&out)
    }

    /// The status code and the detail the error is answered with.
    pub fn response(&self) -> (r: (u16, String))
        ensures
            r.0 == self.status_code(),
            r.1@ == self.detail_text(),
    {
        match self {
            AppError::BadRequest(text) => (400, text.clone()),
            AppError::Base64Error(text) => {
                let mut out = chars_of("Invalid base64 content: ");
                append_chars(&mut out, &chars_of(text.as_str()));
                (400, string_of(&out))
            },
            AppError::TranslationError(e) => {
                let mut out = chars_of("Translation failed: ");
                append_chars(&mut out, &chars_of(e.message().as_str()));
                (500, string_of(&out))
            },
            AppError::CacheError(text) => {
                let mut out = chars_of("Cache error: ");
                append_chars(&mut out, &chars_of(text.as_str()));
                (500, string_of(&out))
            },
            AppError::Internal(text) => (500, text.clone()),
        }
    }
}

} // verus!
