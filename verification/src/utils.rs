//! Scratch-name generation and the transfer filter: which files of a local
//! source tree are worth sending into the container at all.
use vstd::prelude::*;

use rand::distr::SampleString;

use crate::strutil::{contains_seq, str_contains};

verus! {

/// Files larger than this many bytes are never transferred.
pub const MAX_FILE_SIZE_BYTES: u64 = 1048576;

/// Is a character one of the 62 ASCII alphanumerics?
pub open spec fn is_alnum(c: char) -> bool {
    ('0' <= c && c <= '9') || ('A' <= c && c <= 'Z') || ('a' <= c && c <= 'z')
}

/// Relies on rand's `Alphanumeric::sample_string`: the result holds exactly
/// `length` characters, each drawn from the 62-character ASCII alphanumeric
/// set, freshly each call.
#[verifier::external_body]
pub fn generate_random_string(length: usize) -> (r: String)
    ensures
        r@.len() == length as nat,
        forall|i: int| 0 <= i < r@.len() ==> is_alnum(r@[i]),
{
    rand::distr::Alphanumeric.sample_string(&mut rand::rng(), length)
}

/// Whether the pattern matches the text, as the regex engine decides it; a
/// pure function of pattern and text.
pub uninterp spec fn regex_match_of(pattern: Seq<char>, text: Seq<char>) -> bool;

/// Whether the regex engine accepts the pattern at all; a pure function of
/// the pattern.
pub uninterp spec fn regex_pattern_ok(pattern: Seq<char>) -> bool;

/// Relies on regex's `Regex::new` and `Regex::is_match`: compilation succeeds
/// or fails on the pattern alone, and for a pattern the engine accepts, the
/// answer is whether it matches the text.
#[verifier::external_body]
fn regex_is_match(pattern: &str, text: &str) -> (r: Option<bool>)
    ensures
        (r is Some) == regex_pattern_ok(pattern@),
        r matches Some(b) ==> b == regex_match_of(pattern@, text@),
{
    match regex::Regex::new(pattern) {
        Ok(re) => Some(re.is_match(text)),
        Err(_) => None,
    }
}

/// Relative paths matching this pattern — version-control metadata, build
/// output, lockfiles, local tool state — are never transferred.
pub open spec fn filter_pattern_spec() -> Seq<char> {
    "^(?:\\.git|target/|.idea|Cargo.lock|build/|.aptos/)"@
}

pub fn filter_pattern() -> (r: &'static str)
    ensures
        r@ == filter_pattern_spec(),
{
    "^(?:\\.git|target/|.idea|Cargo.lock|build/|.aptos/)"
}

/// A file is transferred exactly when its absolute path is outside any build
/// directory, its relative path escapes the filter pattern, and its size is
/// within the ceiling.
pub open spec fn transfer_allowed(
    pattern: Seq<char>,
    path: Seq<char>,
    relative: Seq<char>,
    size_bytes: u64,
) -> bool {
    !contains_seq(path, "/build/"@) && !regex_match_of(pattern, relative) && size_bytes
        <= MAX_FILE_SIZE_BYTES
}

/// Decides whether one file of the source tree is transferred; `None` exactly
/// when the regex engine rejects the filter pattern itself, and never for a
/// path already excluded as build output.
pub fn should_transfer(filter: &str, path: &str, relative: &str, size_bytes: u64) -> (r: Option<
    bool,
>)
    ensures
        r matches Some(b) ==> b == transfer_allowed(filter@, path@, relative@, size_bytes),
        contains_seq(path@, "/build/"@) ==> r == Some(false),
        !contains_seq(path@, "/build/"@) ==> (r is Some) == regex_pattern_ok(filter@),
{
    if str_contains(path, "/build/") {
        return Some(false);
    }
    match regex_is_match(filter, relative) {
        None => None,
        Some(m) => {
            if m {
                Some(false)
            } else if size_bytes > MAX_FILE_SIZE_BYTES {
                Some(false)
            } else {
                Some(true)
            }
        },
    }
}

} // verus!
