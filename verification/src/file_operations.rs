//! Rules on the files that the editor reads, writes and watches: which
//! sizes and extensions it accepts, and what it records of a file to detect
//! changes. Nothing here touches a file; callers hand in what they read.

use crate::types::FileHashInfo;
use sha2::{Digest, Sha256};
use vstd::prelude::*;

verus! {

/// The largest size in bytes of a file that is read or hashed.
pub const MAX_FILE_SIZE: u64 = 10 * 1024 * 1024;

/// The SHA-256 digest of the UTF-8 encoding of `text`, written as 64
/// lowercase hexadecimal digits.
pub uninterp spec fn sha256_hex(text: Seq<char>) -> Seq<char>;

/// Calls `sha2::Sha256::digest` on the bytes of `content` and formats the
/// digest with `{:x}`. Trusted: the result is the digest in lowercase
/// hexadecimal, which this crate names `sha256_hex` and does not spell
/// out.
#[verifier::external_body]
pub(crate) fn sha256_hex_digest(content: &str) -> (hex: String)
    ensures
        hex@ == sha256_hex(content@),
{
    format!("{:x}", Sha256::digest(content.as_bytes()))
}

/// `text` in lowercase, as `str::to_lowercase` gives it.
pub uninterp spec fn lowercased(text: Seq<char>) -> Seq<char>;

/// Calls `str::to_lowercase`. Trusted: the result is the lowercase form of
/// `text` by the Unicode rules, which this crate names `lowercased` and
/// does not spell out.
#[verifier::external_body]
pub(crate) fn to_lowercase(text: &str) -> (lower: String)
    ensures
        lower@ == lowercased(text@),
{
    text.to_lowercase()
}

/// Whether a file of `file_size` bytes is too large to be read or hashed.
pub open spec fn is_large(file_size: u64) -> bool {
    file_size > MAX_FILE_SIZE
}

/// Whether a file with this extension is a note: in lowercase the
/// extension is `md` or `txt`.
pub open spec fn is_supported(extension: Seq<char>) -> bool {
    lowercased(extension) == "md"@ || lowercased(extension) == "txt"@
}

/// Whether a file of `file_size` bytes is too large to be read or hashed.
pub fn is_large_file(file_size: u64) -> (res: bool)
    ensures
        res == is_large(file_size),
{
    file_size > MAX_FILE_SIZE
}

/// Whether a file with this extension is a note.
pub fn is_supported_extension(extension: &str) -> (res: bool)
    ensures
        res == is_supported(extension@),
{
    let lower = to_lowercase(extension);
    lower == "md".to_string() || lower == "txt".to_string()
}

/// Accepts a file of at most `MAX_FILE_SIZE` bytes for reading.
pub fn check_file_size(file_size: u64) -> (res: Result<(), String>)
    ensures
        match res {
            Ok(_) => !is_large(file_size),
            Err(message) => is_large(file_size) && message@ == "File too large (max 10MB)"@,
        },
{
    if file_size > MAX_FILE_SIZE {
        Err("File too large (max 10MB)".to_string())
    } else {
        Ok(())
    }
}

/// Accepts a path for reading or writing by its extension: a path without
/// an extension, or with a supported one.
pub fn check_file_type(extension: Option<&str>) -> (res: Result<(), String>)
    ensures
        match res {
            Ok(_) => extension matches Some(e) ==> is_supported(e@),
            Err(message) => {
                &&& extension matches Some(e) && !is_supported(e@)
                &&& message@ == "Unsupported file type. Only .md and .txt files are supported"@
            },
        },
{
    match extension {
        Some(e) => {
            if is_supported_extension(e) {
                Ok(())
            } else {
                Err("Unsupported file type. Only .md and .txt files are supported".to_string())
            }
        },
        None => Ok(()),
    }
}

/// What is recorded of a file with the given modification time and size.
/// A large file is not hashed: its hash is the word `large_file`, and
/// `content` is not looked at. Any other file has the SHA-256 digest of
/// `content`, its text, in lowercase hexadecimal.
pub fn calculate_file_hash(content: &str, modified_time: u64, file_size: u64) -> (res:
    FileHashInfo)
    ensures
        res.modified_time == modified_time,
        res.file_size == file_size,
        res.hash@ == if is_large(file_size) {
            "large_file"@
        } else {
            sha256_hex(content@)
        },
{
    let hash = if is_large_file(file_size) {
        "large_file".to_string()
    } else {
        sha256_hex_digest(content)
    };
    FileHashInfo { hash, modified_time, file_size }
}

} // verus!
