//! Calls into outside crates, with what their sources show of them.
use vstd::prelude::*;
use vstd::utf8::{encode_utf8, valid_utf8, decode_utf8};
use rand::Rng;
use crate::num::digit_char;

verus! {

/// An ASCII letter or digit.
pub open spec fn is_alnum_ascii(c: u32) -> bool {
    (48 <= c && c <= 57) || (65 <= c && c <= 90) || (97 <= c && c <= 122)
}

/// `rand::thread_rng().sample(rand::distributions::Alphanumeric)`: a random byte
/// drawn from `A-Z`, `a-z`, `0-9` (rand 0.8, `distributions/other.rs`). Which
/// byte comes out is chance; only the set it comes from is stated.
#[verifier::external_body]
pub(crate) fn sample_alphanumeric() -> (b: u8)
    ensures
        is_alnum_ascii(b as u32),
{
    rand::thread_rng().sample(rand::distributions::Alphanumeric)
}

/// `rand::thread_rng().gen_range(low..high)` on `u16` (rand 0.8,
/// `Rng::gen_range`, which panics on an empty range): a random value with
/// `low <= r < high`. Which one is chance.
#[verifier::external_body]
pub(crate) fn random_in_range(low: u16, high: u16) -> (r: u16)
    requires
        low < high,
    ensures
        low <= r < high,
{
    rand::thread_rng().gen_range(low..high)
}

/// `fastrand::alphanumeric()`: a random `char` from `A-Z`, `a-z`, `0-9`
/// (fastrand 2, `Rng::alphanumeric`). Which one is chance.
#[verifier::external_body]
pub(crate) fn fastrand_alphanumeric() -> (c: char)
    ensures
        is_alnum_ascii(c as u32),
{
    fastrand::alphanumeric()
}

pub open spec fn is_hex_byte(b: u8) -> bool {
    (48 <= b && b <= 57) || (65 <= b && b <= 70) || (97 <= b && b <= 102)
}

pub open spec fn hex_byte_value(b: u8) -> nat {
    if b <= 57 {
        (b - 48) as nat
    } else if b <= 70 {
        (b - 55) as nat
    } else {
        (b - 87) as nat
    }
}

/// Percent-decoding of bytes as `urlencoding::decode_binary` does it: `%` and
/// two hex digits become that byte; anything else, a lone `%` and `+`
/// included, stays as it is.
pub open spec fn percent_decode(b: Seq<u8>) -> Seq<u8>
    decreases b.len(),
{
    if b.len() == 0 {
        Seq::empty()
    } else if b[0] == 37 && b.len() >= 3 && is_hex_byte(b[1]) && is_hex_byte(b[2]) {
        seq![(hex_byte_value(b[1]) * 16 + hex_byte_value(b[2])) as u8] + percent_decode(b.skip(3))
    } else {
        seq![b[0]] + percent_decode(b.skip(1))
    }
}

/// The text `urlencoding::decode` gives for `s`: the percent-decoded UTF-8
/// bytes, when they are valid UTF-8.
pub open spec fn url_decoded(s: Seq<char>) -> Option<Seq<char>> {
    let bytes = percent_decode(encode_utf8(s));
    if valid_utf8(bytes) {
        Some(decode_utf8(bytes))
    } else {
        None
    }
}

/// `urlencoding::decode(s)` (urlencoding 2.1, `dec.rs`), made owned: the
/// text of the percent-decoded bytes, or `None` when they are not UTF-8.
#[verifier::external_body]
pub(crate) fn url_decode(s: &str) -> (r: Option<String>)
    ensures
        r matches Some(v) ==> url_decoded(s@) == Some(v@),
        r is None ==> url_decoded(s@) is None,
{
    match urlencoding::decode(s) {
        Ok(v) => Some(v.into_owned()),
        Err(_) => None,
    }
}

/// A byte that `urlencoding::encode` leaves as it is.
pub open spec fn is_unreserved_byte(b: u8) -> bool {
    is_alnum_ascii(b as u32) || b == 45 || b == 46 || b == 95 || b == 126
}

/// `urlencoding::encode` of bytes: unreserved bytes stay, every other byte
/// becomes `%` and two upper-case hex digits.
pub open spec fn percent_encode(b: Seq<u8>) -> Seq<char>
    decreases b.len(),
{
    if b.len() == 0 {
        Seq::empty()
    } else {
        let x = b[0];
        let head = if is_unreserved_byte(x) {
            seq![(x as u32) as char]
        } else {
            seq!['%', digit_char((x / 16) as nat), digit_char((x % 16) as nat)]
        };
        head + percent_encode(b.skip(1))
    }
}

/// `urlencoding::encode(s)` (urlencoding 2.1, `enc.rs`), made owned: every
/// UTF-8 byte of `s` except `A-Z a-z 0-9 - . _ ~` becomes `%XX`.
#[verifier::external_body]
pub(crate) fn url_encode(s: &str) -> (r: String)
    ensures
        r@ == percent_encode(encode_utf8(s@)),
{
    urlencoding::encode(s).into_owned()
}

/// The MIME type that `mime_guess` gives first for a file name by its
/// extension, or `application/octet-stream`.
pub uninterp spec fn guessed_mime(name: Seq<char>) -> Seq<char>;

/// A name whose extension the path rules of every platform read alike: it
/// holds no `\` (a separator on Windows only) and no `:` (a drive prefix on
/// Windows only).
pub open spec fn portable_name(name: Seq<char>) -> bool {
    !name.contains('\\') && !name.contains(':')
}

/// `mime_guess::from_path(name).first_or_octet_stream()` as text (mime_guess 2):
/// a case-insensitive lookup of `Path::extension` of `name` in the crate's
/// static table. For a portable name the result depends on `name` alone; the
/// table itself is not restated here. Of other names nothing is stated: their
/// extension follows the platform's path rules.
#[verifier::external_body]
pub(crate) fn mime_guess_first(name: &str) -> (r: String)
    ensures
        portable_name(name@) ==> r@ == guessed_mime(name@),
{
    mime_guess::from_path(name).first_or_octet_stream().to_string()
}

}
