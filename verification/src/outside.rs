//! The calls this library makes into other crates and into the parts of the
//! standard library that carry no specification. Each item here is trusted:
//! its contract is believed, not proved.

use vstd::prelude::*;
use rand::Rng;
use sha1::Digest;

verus! {

/// The text that `byte_unit` renders for `size` bytes in the most fitting
/// decimal unit, with `decimals` digits after the point.
pub uninterp spec fn spec_adjusted_decimal_text(size: u128, decimals: usize) -> Seq<char>;

/// Calls `byte_unit::Byte::from_u128` (0 when the size is out of its range),
/// `get_appropriate_unit(UnitType::Decimal)` and formats the result with the
/// given precision. Claimed: the text is a function of the two arguments.
#[verifier::external_body]
pub(crate) fn adjusted_decimal_text(size: u128, decimals: usize) -> (r: String)
    ensures
        r@ == spec_adjusted_decimal_text(size, decimals),
{
    let byte = byte_unit::Byte::from_u128(size).unwrap_or_default().get_appropriate_unit(
        byte_unit::UnitType::Decimal,
    );
    format!("{byte:.decimals$}")
}

/// Calls `rand::rng().random_range(0..n)`. Claimed: the result lies below
/// `n`; which value comes is left open. The range must not be empty, as
/// `random_range` panics on an empty range.
#[verifier::external_body]
pub(crate) fn random_below(n: usize) -> (r: usize)
    requires
        n > 0,
    ensures
        r < n,
{
    rand::rng().random_range(0..n)
}

/// Calls `rand::random::<u32>()`. Nothing is claimed of the number: any
/// `u32` may come.
#[verifier::external_body]
pub(crate) fn random_u32() -> (r: u32) {
    rand::random::<u32>()
}

/// The SHA-1 digest of `data`.
pub uninterp spec fn spec_sha1(data: Seq<u8>) -> Seq<u8>;

/// Calls `sha1::Sha1::digest`. Claimed: the digest is a function of the
/// bytes and has the 20 bytes of SHA-1.
#[verifier::external_body]
pub(crate) fn sha1_digest(data: &[u8]) -> (r: Vec<u8>)
    ensures
        r@ == spec_sha1(data@),
        r@.len() == 20,
{
    sha1::Sha1::digest(data).to_vec()
}

/// What `egs_api` decodes from the bytes of a chunk file: the uncompressed
/// size the header states (when it states one) and the payload.
pub uninterp spec fn spec_chunk_decode(bytes: Seq<u8>) -> Option<(Option<u32>, Seq<u8>)>;

/// The little-endian 32-bit number at `at` in `b`.
pub open spec fn le_u32(b: Seq<u8>, at: int) -> int {
    b[at] + b[at + 1] * 256 + b[at + 2] * 65536 + b[at + 3] * 16777216
}

/// The magic number that opens a chunk file.
pub open spec fn chunk_magic() -> int {
    2986228386
}

/// Whether `egs_api`'s chunk parser reads `b` without running past its end:
/// the magic number must be there; when it matches, the fixed header (41
/// bytes), the hash fields of header version 2 (62 bytes) and the size field
/// of version 3 (66 bytes) must be there too.
pub open spec fn chunk_bytes_safe(b: Seq<u8>) -> bool {
    &&& b.len() >= 4
    &&& le_u32(b, 0) == chunk_magic() ==> {
        &&& b.len() >= 41
        &&& le_u32(b, 4) >= 2 ==> b.len() >= 62
        &&& le_u32(b, 4) >= 3 ==> b.len() >= 66
    }
}

/// Calls `egs_api::api::types::chunk::Chunk::from_vec` and keeps the stated
/// uncompressed size and the data. Claimed: the result is a function of the
/// bytes, and a file without the chunk magic number gives none. The parser
/// indexes the buffer without checks, so the bytes must be long enough for
/// the header they announce.
#[verifier::external_body]
pub(crate) fn chunk_decode(bytes: Vec<u8>) -> (r: Option<(Option<u32>, Vec<u8>)>)
    requires
        chunk_bytes_safe(bytes@),
    ensures
        match r {
            Some((u, d)) => spec_chunk_decode(bytes@) == Some((u, d@)),
            None => spec_chunk_decode(bytes@) is None,
        },
        le_u32(bytes@, 0) != chunk_magic() ==> r is None,
{
    match egs_api::api::types::chunk::Chunk::from_vec(bytes) {
        Some(c) => Some((c.uncompressed_size, c.data)),
        None => None,
    }
}

/// Calls `String::push`. Claimed: the character is appended.
#[verifier::external_body]
pub(crate) fn push_char(s: &mut String, c: char)
    ensures
        final(s)@ == old(s)@.push(c),
{
    s.push(c);
}

/// The capture groups of a list of regex matches, as text.
pub open spec fn captures_view(v: Seq<Vec<Option<String>>>) -> Seq<Seq<Option<Seq<char>>>> {
    v.map_values(
        |m: Vec<Option<String>>|
            m@.map_values(
                |g: Option<String>|
                    match g {
                        Some(s) => Some(s@),
                        None => None,
                    },
            ),
    )
}

/// What `regex` finds in `text` for `pattern`: nothing when the pattern
/// does not compile; else, for each successive non-overlapping match, its
/// capture groups in order (group 0 is the whole match, a group that took
/// no part is absent).
pub uninterp spec fn spec_regex_captures(pattern: Seq<char>, text: Seq<char>) -> Option<
    Seq<Seq<Option<Seq<char>>>>,
>;

/// Compiles `pattern` with `regex::Regex::new` and lists the groups of every
/// match of `Regex::captures_iter` over `text`. Claimed: the result is a
/// function of the two texts, and group 0 of each match is present, as the
/// regex documentation states.
#[verifier::external_body]
pub(crate) fn regex_captures(pattern: &str, text: &str) -> (r: Option<Vec<Vec<Option<String>>>>)
    ensures
        match r {
            Some(ms) => spec_regex_captures(pattern@, text@) == Some(captures_view(ms@)) && forall|
                i: int,
            |
                0 <= i < ms@.len() ==> (#[trigger] ms@[i])@.len() >= 1 && ms@[i]@[0] is Some,
            None => spec_regex_captures(pattern@, text@) is None,
        },
{
    let re = match regex::Regex::new(pattern) {
        Ok(re) => re,
        Err(_) => return None,
    };
    let mut all = Vec::new();
    for caps in re.captures_iter(text) {
        all.push(caps.iter().map(|g| g.map(|m| m.as_str().to_string())).collect());
    }
    Some(all)
}

/// What `version_compare::compare` says of `a` against `b`: -1 for less,
/// 0 for equal, 1 for greater (-2, 2 and 3 would stand for less-or-equal,
/// greater-or-equal and not-equal); nothing when either is not a version.
pub uninterp spec fn spec_version_compare(a: Seq<char>, b: Seq<char>) -> Option<i8>;

/// Calls `version_compare::compare`. Claimed: the result is a function of
/// the two texts and, as the crate documents, only ever equal, less or
/// greater.
#[verifier::external_body]
pub(crate) fn version_compare(a: &str, b: &str) -> (r: Option<i8>)
    ensures
        r == spec_version_compare(a@, b@),
        r matches Some(c) ==> -1 <= c <= 1,
{
    match version_compare::compare(a, b) {
        Ok(version_compare::Cmp::Lt) => Some(-1),
        Ok(version_compare::Cmp::Eq) => Some(0),
        Ok(version_compare::Cmp::Gt) => Some(1),
        Ok(version_compare::Cmp::Le) => Some(-2),
        Ok(version_compare::Cmp::Ge) => Some(2),
        Ok(version_compare::Cmp::Ne) => Some(3),
        Err(_) => None,
    }
}

/// What `str::to_lowercase` makes of a text (full Unicode lower case).
pub uninterp spec fn spec_to_lowercase(s: Seq<char>) -> Seq<char>;

/// Calls `str::to_lowercase`. Claimed: the result is a function of the text.
#[verifier::external_body]
pub(crate) fn to_lowercase(s: &str) -> (r: String)
    ensures
        r@ == spec_to_lowercase(s@),
{
    s.to_lowercase()
}

/// What `char::to_uppercase` makes of a character (one or more characters).
pub uninterp spec fn spec_char_upper(c: char) -> Seq<char>;

/// Calls `char::to_uppercase` and collects the characters. Claimed: the
/// result is a function of the character.
#[verifier::external_body]
pub(crate) fn char_upper(c: char) -> (r: String)
    ensures
        r@ == spec_char_upper(c),
{
    c.to_uppercase().collect::<String>()
}

/// The Pango markup that `html2pango` makes of an HTML text.
pub uninterp spec fn spec_html_markup(html: Seq<char>) -> Seq<char>;

/// Calls `html2pango::matrix_html_to_markup`, which cleans the HTML and
/// turns it into Pango markup. Claimed: the markup is a function of the
/// text.
#[verifier::external_body]
pub(crate) fn html_markup(html: &str) -> (r: String)
    ensures
        r@ == spec_html_markup(html@),
{
    html2pango::matrix_html_to_markup(html)
}

} // verus!
