//! Calls into outside crates and into std functions that vstd gives no
//! specification, each behind a trusted item whose contract says what the
//! outside source or documentation shows.

use vstd::prelude::*;
use hmac::Mac;

verus! {

// ---------------------------------------------------------------------------
// regex
// ---------------------------------------------------------------------------

/// What `regex::Regex::new(pattern)` followed by `replace_all(haystack,
/// replacement)` gives: `None` when the pattern does not compile, otherwise
/// the haystack with every non-overlapping leftmost-first match replaced by
/// the replacement, whose `$name` / `${name}` references expand to the
/// matched groups.
pub uninterp spec fn regex_replace_all_result(
    pattern: Seq<char>,
    haystack: Seq<char>,
    replacement: Seq<char>,
) -> Option<Seq<char>>;

/// Compiles `pattern` with `regex::Regex::new` and, when it compiles, returns
/// `Regex::replace_all(haystack, replacement)` as an owned string.
///
/// Trusted: the result is the named result of these two calls; and every
/// character of the result is taken either from the haystack (kept text and
/// expanded groups) or from the replacement's literal text, since
/// `replace_all` writes nothing else. For the pattern `\s+` and the
/// replacement `" "`: the pattern compiles, `\s` is the Unicode
/// `White_Space` class and `+` is greedy, so each match is a maximal run of
/// whitespace, and each run becomes one space.
#[verifier::external_body]
pub(crate) fn regex_replace_all(pattern: &str, haystack: &str, replacement: &str) -> (res: Option<
    String,
>)
    ensures
        match res {
            Some(r) => regex_replace_all_result(pattern@, haystack@, replacement@) == Some(r@),
            None => regex_replace_all_result(pattern@, haystack@, replacement@) is None,
        },
        res matches Some(r) ==> forall|i: int|
            0 <= i < r@.len() ==> haystack@.contains(#[trigger] r@[i]) || replacement@.contains(
                r@[i],
            ),
        pattern@ == seq!['\\', 's', '+'] && replacement@ == seq![' '] ==> res is Some
            && res.unwrap()@ == crate::text::ws_runs_to_space(haystack@),
{
    match regex::Regex::new(pattern) {
        Ok(re) => Some(re.replace_all(haystack, replacement).into_owned()),
        Err(_) => None,
    }
}

// ---------------------------------------------------------------------------
// hex
// ---------------------------------------------------------------------------

/// The value of an ASCII hexadecimal digit (either case).
pub open spec fn hex_digit_value(c: char) -> Option<u8> {
    if '0' <= c && c <= '9' {
        Some((c as u32 - '0' as u32) as u8)
    } else if 'a' <= c && c <= 'f' {
        Some((c as u32 - 'a' as u32 + 10) as u8)
    } else if 'A' <= c && c <= 'F' {
        Some((c as u32 - 'A' as u32 + 10) as u8)
    } else {
        None
    }
}

/// The bytes that the hexadecimal text `s` encodes, two digits per byte with
/// the high nibble first; `None` when `s` has an odd number of characters or
/// a character that is not a hexadecimal digit.
pub open spec fn hex_decoded(s: Seq<char>) -> Option<Seq<u8>>
    decreases s.len(),
{
    if s.len() == 0 {
        Some(Seq::empty())
    } else if s.len() == 1 {
        None
    } else {
        match (hex_digit_value(s[0]), hex_digit_value(s[1]), hex_decoded(s.skip(2))) {
            (Some(hi), Some(lo), Some(rest)) => Some(seq![(hi * 16 + lo) as u8] + rest),
            _ => None,
        }
    }
}

/// `hex::decode(s)`, with the error dropped.
///
/// Trusted: `hex::decode` rejects input of odd byte length and any byte that
/// is not an ASCII hexadecimal digit, and otherwise turns each pair of digits
/// into one byte, high nibble first. A non-ASCII character is encoded with
/// bytes that are no hexadecimal digits, so over characters the result is
/// `hex_decoded`.
#[verifier::external_body]
pub(crate) fn hex_decode(s: &str) -> (res: Option<Vec<u8>>)
    ensures
        match res {
            Some(v) => hex_decoded(s@) == Some(v@),
            None => hex_decoded(s@) is None,
        },
{
    hex::decode(s).ok()
}

// ---------------------------------------------------------------------------
// hmac / sha2
// ---------------------------------------------------------------------------

/// The HMAC-SHA256 tag of `message` under `key` (32 bytes).
pub uninterp spec fn hmac_sha256_tag(key: Seq<u8>, message: Seq<u8>) -> Seq<u8>;

/// Checks `tag` against the HMAC-SHA256 of `message` under `key`, with
/// `Hmac::<Sha256>::new_from_slice(key)`, `Mac::update(message)` and
/// `Mac::verify_slice(tag)`.
///
/// Trusted: `new_from_slice` accepts keys of every length (it never fails for
/// HMAC), and `verify_slice` succeeds exactly when `tag` has the tag's length
/// and equals it (compared in constant time); so the result is whether `tag`
/// is the tag.
#[verifier::external_body]
pub(crate) fn hmac_sha256_verify(key: &[u8], message: &[u8], tag: &[u8]) -> (ok: bool)
    ensures
        ok == (tag@ == hmac_sha256_tag(key@, message@)),
{
    match <hmac::Hmac<sha2::Sha256> as Mac>::new_from_slice(key) {
        Ok(mut mac) => {
            mac.update(message);
            mac.verify_slice(tag).is_ok()
        },
        Err(_) => false,
    }
}

// ---------------------------------------------------------------------------
// str::to_uppercase
// ---------------------------------------------------------------------------

/// What `str::to_uppercase` gives for `s`: each character mapped by the
/// Unicode uppercase mapping (some characters map to several).
pub uninterp spec fn uppercase_of(s: Seq<char>) -> Seq<char>;

/// ASCII uppercase of one character: `a`..=`z` become `A`..=`Z`, everything
/// else is unchanged.
pub open spec fn ascii_upper(c: char) -> char {
    if 'a' <= c && c <= 'z' {
        ((c as u32) - 32) as char
    } else {
        c
    }
}

/// Whether every character of `s` is ASCII.
pub open spec fn all_ascii(s: Seq<char>) -> bool {
    forall|i: int| 0 <= i < s.len() ==> (#[trigger] s[i] as u32) < 128
}

/// `str::to_uppercase(s)`.
///
/// Trusted: the result is the named Unicode uppercase of `s`; for ASCII text
/// the Unicode mapping is the ASCII one (`a`..=`z` to `A`..=`Z`, every other
/// ASCII character unchanged), character for character.
#[verifier::external_body]
pub(crate) fn to_uppercase(s: &str) -> (res: String)
    ensures
        res@ == uppercase_of(s@),
        all_ascii(s@) ==> res@ == s@.map_values(|c: char| ascii_upper(c)),
{
    s.to_uppercase()
}

// ---------------------------------------------------------------------------
// The system clock
// ---------------------------------------------------------------------------

#[verifier::external_type_specification]
#[verifier::external_body]
pub struct ExSystemTime(std::time::SystemTime);

#[verifier::external_type_specification]
#[verifier::external_body]
pub struct ExSystemTimeError(std::time::SystemTimeError);

/// `SystemTime::now()`: the current time; nothing is claimed of it.
pub assume_specification[ std::time::SystemTime::now ]() -> std::time::SystemTime;

/// `SystemTime::duration_since`: the time elapsed since `earlier`, or an
/// error when `earlier` is later; nothing is claimed of either.
pub assume_specification[ std::time::SystemTime::duration_since ](
    t: &std::time::SystemTime,
    earlier: std::time::SystemTime,
) -> Result<core::time::Duration, std::time::SystemTimeError>;

/// `Duration::as_millis`: whole milliseconds; nothing is claimed of the value.
pub assume_specification[ core::time::Duration::as_millis ](d: &core::time::Duration) -> u128;

/// `Duration::as_secs`: whole seconds; nothing is claimed of the value.
pub assume_specification[ core::time::Duration::as_secs ](d: &core::time::Duration) -> u64;

/// The Unix epoch, `SystemTime::UNIX_EPOCH`.
#[verifier::external_body]
pub(crate) fn unix_epoch() -> std::time::SystemTime {
    std::time::SystemTime::UNIX_EPOCH
}

} // verus!
