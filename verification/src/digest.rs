//! Fingerprints and the encoding of content for transport: SHA-256 in
//! hexadecimal, and base64.
//!
//! What a digest is and which text is base64 of what bytes is named, not
//! described; how bytes are written in hexadecimal and in base64 is
//! described.

use crate::error::AppError;
use crate::text::{append_chars, chars_of, push_char, string_of};
use sha2::Digest;
use vstd::prelude::*;
use vstd::string::StringSliceAdditionalSpecFns;
use vstd::utf8::{
    decode_utf8, encode_utf8, encode_utf8_decode_utf8, encode_utf8_valid_utf8, valid_utf8,
};

verus! {

/// The SHA-256 digest of `data`.
pub uninterp spec fn sha256(data: Seq<u8>) -> Seq<u8>;

/// The character for `n`, which is below 64, in the standard alphabet of
/// base64.
pub open spec fn base64_digit(n: nat) -> char {
    "ABCDEFGHIJKLMNOPQRSTUVWXYZabcdefghijklmnopqrstuvwxyz0123456789+/"@[n as int]
}

/// `data` in base64 with the standard alphabet and padding: four characters
/// for every three bytes, six bits each, and for one or two bytes left at
/// the end two or three characters and `=` up to four.
pub open spec fn base64_text(data: Seq<u8>) -> Seq<char>
    decreases data.len(),
{
    if data.len() == 0 {
        Seq::empty()
    } else if data.len() == 1 {
        seq![
            base64_digit((data[0] / 4) as nat),
            base64_digit(((data[0] % 4) * 16) as nat),
            '=',
            '=',
        ]
    } else if data.len() == 2 {
        seq![
            base64_digit((data[0] / 4) as nat),
            base64_digit(((data[0] % 4) * 16 + data[1] / 16) as nat),
            base64_digit(((data[1] % 16) * 4) as nat),
            '=',
        ]
    } else {
        seq![
            base64_digit((data[0] / 4) as nat),
            base64_digit(((data[0] % 4) * 16 + data[1] / 16) as nat),
            base64_digit(((data[1] % 16) * 4 + data[2] / 64) as nat),
            base64_digit((data[2] % 64) as nat),
        ] + base64_text(data.skip(3))
    }
}

/// The bytes that the base64 text `text`, given as bytes, stands for, as the
/// `base64` crate's `STANDARD` engine decodes it; `None` where it rejects
/// the text.
pub uninterp spec fn base64_bytes(text: Seq<u8>) -> Option<Seq<u8>>;

/// `base64::DecodeError`, of which nothing is known here.
#[verifier::external_type_specification]
#[verifier::external_body]
pub struct ExDecodeError(base64::DecodeError);

/// The hexadecimal digit for `n`, which is below sixteen, in lower case.
pub open spec fn hex_digit(n: nat) -> char {
    "0123456789abcdef"@[n as int]
}

/// The bytes in hexadecimal: two digits in lower case for each byte, the
/// higher half first.
pub open spec fn hex_lower(data: Seq<u8>) -> Seq<char>
    decreases data.len(),
{
    if data.len() == 0 {
        Seq::empty()
    } else {
        hex_lower(data.drop_last()) + seq![
            hex_digit((data.last() / 16) as nat),
            hex_digit((data.last() % 16) as nat),
        ]
    }
}

/// Bytes in hexadecimal take two characters each.
pub proof fn lemma_hex_lower_len(data: Seq<u8>)
    ensures
        hex_lower(data).len() == 2 * data.len(),
    decreases data.len(),
{
    if data.len() > 0 {
        lemma_hex_lower_len(data.drop_last());
    }
}

/// The SHA-256 digest of `data`, by `sha2::Sha256`: a hasher is made, fed
/// the data and finished. The digest has 32 bytes.
#[verifier::external_body]
fn sha256_digest(data: &[u8]) -> (r: Vec<u8>)
    ensures
        r@ == sha256(data@),
        r@.len() == 32,
{
    let mut hasher = sha2::Sha256::new();
    hasher.update(data);
    hasher.finalize().to_vec()
}

/// The hexadecimal digit for `n`, which is below sixteen, in lower case.
fn hex_char(n: u8) -> (c: char)
    requires
        n < 16,
    ensures
        c == hex_digit(n as nat),
{
    proof {
        reveal_strlit("0123456789abcdef");
    }
    if n == 0 {
        '0'
    } else if n == 1 {
        '1'
    } else if n == 2 {
        '2'
    } else if n == 3 {
        '3'
    } else if n == 4 {
        '4'
    } else if n == 5 {
        '5'
    } else if n == 6 {
        '6'
    } else if n == 7 {
        '7'
    } else if n == 8 {
        '8'
    } else if n == 9 {
        '9'
    } else if n == 10 {
        'a'
    } else if n == 11 {
        'b'
    } else if n == 12 {
        'c'
    } else if n == 13 {
        'd'
    } else if n == 14 {
        'e'
    } else {
        'f'
    }
}

/// Writes the bytes in hexadecimal, in lower case.
pub fn hex_encode(data: &Vec<u8>) -> (r: String)
    ensures
        r@ == hex_lower(data@),
{
    let mut out: Vec<char> = Vec::new();
    let mut i: usize = 0;
    while i < data.len()
        invariant
            i <= data.len(),
            out@ == hex_lower(data@.take(i as int)),
        decreases data.len() - i,
    {
        let byte: u8 = data[i];
        let ghost before = out@;
        out.push(hex_char(byte / 16));
        out.push(hex_char(byte % 16));
        i = i + 1;
        proof {
            let upto = data@.take(i as int);
            assert(upto.drop_last() == data@.take(i - 1));
            assert(upto.last() == byte);
            assert(out@ == before + seq![
                hex_digit((byte / 16) as nat),
                hex_digit((byte % 16) as nat),
            ]);
        }
    }
    assert(data@.take(data.len() as int) == data@);
    string_of(&out)
}

/// `Engine::encode` of the `base64` crate's `STANDARD` engine, which writes
/// base64 with the standard alphabet and with padding. The same engine
/// decodes what it has encoded to the bytes that were given.
#[verifier::external_body]
fn base64_encode(data: &[u8]) -> (r: String)
    ensures
        r@ == base64_text(data@),
        base64_bytes(encode_utf8(r@)) == Some(data@),
{
    base64::Engine::encode(&base64::engine::general_purpose::STANDARD, data)
}

/// `Engine::decode` of the `base64` crate's `STANDARD` engine.
#[verifier::external_body]
fn base64_decode(text: &[u8]) -> (r: Result<Vec<u8>, base64::DecodeError>)
    ensures
        match r {
            Ok(data) => base64_bytes(text@) == Some(data@),
            Err(_) => base64_bytes(text@) is None,
        },
{
    base64::Engine::decode(&base64::engine::general_purpose::STANDARD, text)
}

/// What a `base64::DecodeError` says of itself, by its `Display`.
#[verifier::external_body]
fn describe_decode_error(error: &base64::DecodeError) -> String {
    format!("{}", error)
}

/// `String::from_utf8` of the standard library: the text that the bytes
/// encode, or, where they are no UTF-8, what the error says of itself.
#[verifier::external_body]
fn text_from_utf8(bytes: Vec<u8>) -> (r: Result<String, String>)
    ensures
        match r {
            Ok(text) => valid_utf8(bytes@) && text@ == decode_utf8(bytes@),
            Err(_) => !valid_utf8(bytes@),
        },
{
    String::from_utf8(bytes).map_err(|e| format!("{}", e))
}

/// The fingerprint of `data`: `sha256:` and the digest in hexadecimal.
pub open spec fn fingerprint(data: Seq<u8>) -> Seq<char> {
    "sha256:"@ + hex_lower(sha256(data))
}

/// The fingerprint of a text: `sha256:` and the SHA-256 digest of its UTF-8
/// bytes in hexadecimal, 71 characters in all.
pub fn compute_hash(content: &str) -> (hash: String)
    ensures
        hash@ == fingerprint(content.spec_bytes()),
        hash@.len() == 71,
{
    let digest = sha256_digest(content.as_bytes());
    let hex = hex_encode(&digest);
    let mut hash = String::new();
    push_char(&mut hash, 's');
    push_char(&mut hash, 'h');
    push_char(&mut hash, 'a');
    push_char(&mut hash, '2');
    push_char(&mut hash, '5');
    push_char(&mut hash, '6');
    push_char(&mut hash, ':');
    proof {
        reveal_strlit("sha256:");
        assert(hash@ =~= "sha256:"@);
        lemma_hex_lower_len(digest@);
    }
    let mut i: usize = 0;
    let chars = chars_of(hex.as_str());
    while i < chars.len()
        invariant
            i <= chars.len(),
            hash@ == "sha256:"@ + chars@.take(i as int),
        decreases chars.len() - i,
    {
        push_char(&mut hash, chars[i]);
        i = i + 1;
        assert(chars@.take(i as int) == chars@.take(i - 1).push(chars@[i - 1]));
    }
    assert(chars@.take(chars.len() as int) == chars@);
    hash
}

/// The content that the base64 text `encoded` stands for: the text that its
/// bytes encode in UTF-8; none where the text is no base64 or the bytes are
/// no UTF-8.
pub open spec fn decoded_content(encoded: Seq<char>) -> Option<Seq<char>> {
    match base64_bytes(encode_utf8(encoded)) {
        Some(data) => if valid_utf8(data) {
            Some(decode_utf8(data))
        } else {
            None
        },
        None => None,
    }
}

/// The content in base64, for transport. Decoding gives the content back.
pub fn encode_content(content: &str) -> (encoded: String)
    ensures
        encoded@ == base64_text(content.spec_bytes()),
        decoded_content(encoded@) == Some(content@),
{
    proof {
        encode_utf8_valid_utf8(content@);
        encode_utf8_decode_utf8(content@);
    }
    base64_encode(content.as_bytes())
}

/// The content that a base64 text stands for.
///
/// Text that is no base64 gives `Base64Error`; base64 of bytes that are no
/// UTF-8 gives `BadRequest`.
pub fn decode_content(encoded: &str) -> (r: Result<String, AppError>)
    ensures
        match r {
            Ok(content) => decoded_content(encoded@) == Some(content@),
            Err(AppError::Base64Error(_)) => base64_bytes(encoded.spec_bytes()) is None,
            Err(AppError::BadRequest(text)) => {
                &&& base64_bytes(encoded.spec_bytes()) matches Some(data)
                &&& !valid_utf8(data)
                &&& "Invalid UTF-8 content: "@.is_prefix_of(text@)
            },
            Err(_) => false,
        },
{
    match base64_decode(encoded.as_bytes()) {
        Ok(bytes) => match text_from_utf8(bytes) {
            Ok(content) => Ok(content),
            Err(reason) => {
                let mut text = chars_of("Invalid UTF-8 content: ");
                append_chars(&mut text, &chars_of(reason.as_str()));
                Err(AppError::BadRequest(string_of(&text)))
            },
        },
        Err(error) => Err(AppError::Base64Error(describe_decode_error(&error))),
    }
}

} // verus!
