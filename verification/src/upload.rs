//! Receiving files from phones: device names, file names, batches.
use vstd::prelude::*;
use crate::text::{chars_of, string_of, extend_chars, lower_ascii, contains, contains_seq, ascii_lower_seq,
    split_char, split_on, views, starts_with, has_prefix, trim, trimmed, slice_chars};
use crate::num::{parse_unsigned, parse_unsigned_exec, decimal, decimal_exec};
use crate::range::{find_header, header_value, header_views};
use crate::outside::{url_decode, url_decoded, url_encode, percent_encode, fastrand_alphanumeric, is_alnum_ascii};
use vstd::utf8::{encode_utf8, encode_scalar, decode_utf8, valid_utf8, encode_utf8_decode_utf8, encode_utf8_valid_utf8};
use crate::outside::percent_decode;
use crate::text::{lemma_split_two, lemma_split_on_absent, same_chars};

verus! {

/// The device family named by a `User-Agent`, matched without regard to
/// ASCII case: iPhone (also iPad), Android, Windows, Mac, Linux, else Unknown.
pub open spec fn device_guess(ua: Seq<char>) -> Seq<char> {
    let l = ascii_lower_seq(ua);
    if contains_seq(l, "iphone"@) || contains_seq(l, "ipad"@) {
        "iPhone"@
    } else if contains_seq(l, "android"@) {
        "Android"@
    } else if contains_seq(l, "windows"@) {
        "Windows"@
    } else if contains_seq(l, "macintosh"@) || contains_seq(l, "mac os"@) {
        "Mac"@
    } else if contains_seq(l, "linux"@) {
        "Linux"@
    } else {
        "Unknown"@
    }
}

/// Names the device family of a `User-Agent`, ignoring ASCII case. Unicode
/// lower-casing would answer the same: the only other characters that
/// lower-case to ASCII letters are U+212A (to `k`, which no pattern holds) and
/// U+0130 (to `i` then U+0307, which no pattern holds either).
pub fn guess_device(ua: &str) -> (r: String)
    ensures
        r@ == device_guess(ua@),
{
    let u = chars_of(ua);
    let l = lower_ascii(&u);
    if contains(&l, &chars_of("iphone")) || contains(&l, &chars_of("ipad")) {
        String::from_str("iPhone")
    } else if contains(&l, &chars_of("android")) {
        String::from_str("Android")
    } else if contains(&l, &chars_of("windows")) {
        String::from_str("Windows")
    } else if contains(&l, &chars_of("macintosh")) || contains(&l, &chars_of("mac os")) {
        String::from_str("Mac")
    } else if contains(&l, &chars_of("linux")) {
        String::from_str("Linux")
    } else {
        String::from_str("Unknown")
    }
}

/// The device family recorded with an uploaded file: the same families as
/// [`guess_device`], matched with case.
pub open spec fn upload_device(ua: Seq<char>) -> Seq<char> {
    if contains_seq(ua, "iPhone"@) || contains_seq(ua, "iPad"@) {
        "iPhone"@
    } else if contains_seq(ua, "Android"@) {
        "Android"@
    } else if contains_seq(ua, "Windows"@) {
        "Windows"@
    } else if contains_seq(ua, "Macintosh"@) || contains_seq(ua, "Mac OS"@) {
        "Mac"@
    } else if contains_seq(ua, "Linux"@) {
        "Linux"@
    } else {
        "Unknown"@
    }
}

pub fn device_from_ua(ua: &str) -> (r: String)
    ensures
        r@ == upload_device(ua@),
{
    let u = chars_of(ua);
    if contains(&u, &chars_of("iPhone")) || contains(&u, &chars_of("iPad")) {
        String::from_str("iPhone")
    } else if contains(&u, &chars_of("Android")) {
        String::from_str("Android")
    } else if contains(&u, &chars_of("Windows")) {
        String::from_str("Windows")
    } else if contains(&u, &chars_of("Macintosh")) || contains(&u, &chars_of("Mac OS")) {
        String::from_str("Mac")
    } else if contains(&u, &chars_of("Linux")) {
        String::from_str("Linux")
    } else {
        String::from_str("Unknown")
    }
}

/// The `User-Agent` of a request, or empty.
pub fn user_agent(headers: &[(String, String)]) -> (r: String)
    ensures
        r@ == (match header_value(header_views(headers@), "user-agent"@) {
            Some(v) => v,
            None => Seq::<char>::empty(),
        }),
{
    match find_header(headers, &chars_of("user-agent")) {
        Some(v) => v,
        None => String::new(),
    }
}

/// The raw `name=` value of an upload URL: the query is what lies between
/// the first and the second `?`; the first `&`-separated part that starts
/// with `name=` gives the value after it.
pub open spec fn query_name(url: Seq<char>) -> Option<Seq<char>> {
    let pieces = split_on(url, '?');
    if pieces.len() < 2 {
        None
    } else {
        first_named(split_on(pieces[1], '&'))
    }
}

/// The rest of the first part that starts with `name=`.
pub open spec fn first_named(parts: Seq<Seq<char>>) -> Option<Seq<char>>
    decreases parts.len(),
{
    if parts.len() == 0 {
        None
    } else if has_prefix(parts[0], "name="@) {
        Some(parts[0].skip(5))
    } else {
        first_named(parts.skip(1))
    }
}

pub open spec fn or_text(v: Option<Seq<char>>, d: Seq<char>) -> Seq<char> {
    match v {
        Some(x) => x,
        None => d,
    }
}

/// The file name an upload is stored under: the URL-decoded `name=` query
/// value, with `received_file` when it is missing or does not decode.
pub open spec fn upload_name(url: Seq<char>) -> Seq<char> {
    or_text(url_decoded(or_text(query_name(url), "received_file"@)), "received_file"@)
}

fn first_named_exec(parts: &Vec<Vec<char>>) -> (r: Option<Vec<char>>)
    ensures
        r matches Some(v) ==> first_named(views(parts@)) == Some(v@),
        r is None ==> first_named(views(parts@)) is None,
{
    let prefix = chars_of("name=");
    proof { reveal_strlit("name="); }
    let mut i: usize = 0;
    assert(views(parts@).skip(0) =~= views(parts@));
    while i < parts.len()
        invariant
            i <= parts.len(),
            prefix@ == "name="@,
            prefix@.len() == 5,
            first_named(views(parts@)) == first_named(views(parts@).skip(i as int)),
        decreases parts.len() - i,
    {
        assert(views(parts@).skip(i as int)[0] == parts@[i as int]@);
        assert(views(parts@).skip(i as int).skip(1) =~= views(parts@).skip(i + 1));
        if starts_with(&parts[i], &prefix) {
            let v = slice_chars(&parts[i], 5, parts[i].len());
            assert(v@ =~= parts@[i as int]@.skip(5));
            return Some(v);
        }
        i = i + 1;
    }
    None
}

/// The file name under which an upload with this URL is stored.
pub fn upload_file_name(url: &str) -> (r: String)
    ensures
        r@ == upload_name(url@),
{
    let u = chars_of(url);
    let pieces = split_char(&u, '?');
    let raw: Option<Vec<char>> = if pieces.len() < 2 {
        None
    } else {
        assert(views(pieces@)[1] == pieces@[1]@);
        let parts = split_char(&pieces[1], '&');
        first_named_exec(&parts)
    };
    let raw_text = match raw {
        Some(v) => string_of(&v),
        None => String::from_str("received_file"),
    };
    match url_decode(raw_text.as_str()) {
        Some(v) => v,
        None => String::from_str("received_file"),
    }
}

/// A character that a plain quoted `filename=` may carry: ASCII, and not a
/// control character.
pub open spec fn plain_filename_char(c: char) -> bool {
    (c as u32) < 0x80 && 0x20 <= (c as u32) && (c as u32) != 0x7F
}

/// The name with `"` and `\` removed.
pub open spec fn safe_name(name: Seq<char>) -> Seq<char> {
    name.filter(|c: char| c != '"' && c != '\\')
}

/// `Content-Disposition` of a download: a quoted plain name when every
/// character allows it, else the RFC 5987 `filename*=UTF-8''` form with the
/// name percent-encoded.
pub open spec fn disposition(name: Seq<char>) -> Seq<char> {
    let s = safe_name(name);
    if forall|i: int| 0 <= i < s.len() ==> plain_filename_char(#[trigger] s[i]) {
        "attachment; filename=\""@ + s + "\""@
    } else {
        "attachment; filename*=UTF-8''"@ + percent_encode(encode_utf8(s))
    }
}

pub fn content_disposition(name: &str) -> (r: String)
    ensures
        r@ == disposition(name@),
{
    let n = chars_of(name);
    let mut s: Vec<char> = Vec::new();
    let mut plain = true;
    let mut i: usize = 0;
    while i < n.len()
        invariant
            i <= n.len(),
            s@ == safe_name(n@.take(i as int)),
            plain == (forall|j: int| 0 <= j < s@.len() ==> plain_filename_char(#[trigger] s@[j])),
        decreases n.len() - i,
    {
        let c = n[i];
        assert(n@.take(i + 1) =~= n@.take(i as int).push(c));
        assert(safe_name(n@.take(i as int).push(c)) =~= if c != '"' && c != '\\' {
            safe_name(n@.take(i as int)).push(c)
        } else {
            safe_name(n@.take(i as int))
        }) by {
            reveal_with_fuel(Seq::<_>::filter, 1);
            assert(n@.take(i as int).push(c).drop_last() =~= n@.take(i as int));
        }
        if c != '"' && c != '\\' {
            let ghost before = s@;
            let u = c as u32;
            let ok = u < 0x80 && 0x20 <= u && u != 0x7F;
            s.push(c);
            assert(plain && ok <==> (forall|j: int| 0 <= j < s@.len() ==> plain_filename_char(#[trigger] s@[j]))) by {
                if !(forall|j: int| 0 <= j < s@.len() ==> plain_filename_char(#[trigger] s@[j])) {
                    let j = choose|j: int| 0 <= j < s@.len() && !plain_filename_char(#[trigger] s@[j]);
                    if j < before.len() {
                        assert(s@[j] == before[j]);
                    }
                }
                if forall|j: int| 0 <= j < s@.len() ==> plain_filename_char(#[trigger] s@[j]) {
                    assert(plain_filename_char(s@[before.len() as int]));
                    assert forall|j: int| 0 <= j < before.len() implies plain_filename_char(#[trigger] before[j]) by {
                        assert(s@[j] == before[j]);
                    }
                }
            }
            plain = plain && ok;
        }
        i = i + 1;
    }
    assert(n@.take(n@.len() as int) =~= n@);
    let mut out: Vec<char>;
    if plain {
        out = chars_of("attachment; filename=\"");
        extend_chars(&mut out, &s);
        out.push('"');
        proof { reveal_strlit("\""); }
        assert(seq!['"'] =~= "\""@);
    } else {
        out = chars_of("attachment; filename*=UTF-8''");
        let st = string_of(&s);
        let enc = url_encode(st.as_str());
        let e = chars_of(enc.as_str());
        extend_chars(&mut out, &e);
    }
    string_of(&out)
}

/// Which family an upload's `User-Agent` is recorded under: the families are
/// tried in the order iPhone (`iPhone` or `iPad`), Android, Windows, Mac
/// (`Macintosh` or `Mac OS`), Linux, and the first whose mark the text holds
/// wins; with none it is Unknown. So an Android phone, whose `User-Agent` also
/// names Linux, is recorded as Android.
pub proof fn law_upload_device_order(ua: Seq<char>)
    ensures
        contains_seq(ua, "iPhone"@) || contains_seq(ua, "iPad"@) ==> upload_device(ua) == "iPhone"@,
        !contains_seq(ua, "iPhone"@) && !contains_seq(ua, "iPad"@) && contains_seq(ua, "Android"@)
            ==> upload_device(ua) == "Android"@,
        !contains_seq(ua, "iPhone"@) && !contains_seq(ua, "iPad"@) && !contains_seq(ua, "Android"@)
            && contains_seq(ua, "Windows"@) ==> upload_device(ua) == "Windows"@,
        !contains_seq(ua, "iPhone"@) && !contains_seq(ua, "iPad"@) && !contains_seq(ua, "Android"@)
            && !contains_seq(ua, "Windows"@) && (contains_seq(ua, "Macintosh"@) || contains_seq(ua, "Mac OS"@))
            ==> upload_device(ua) == "Mac"@,
        !contains_seq(ua, "iPhone"@) && !contains_seq(ua, "iPad"@) && !contains_seq(ua, "Android"@)
            && !contains_seq(ua, "Windows"@) && !contains_seq(ua, "Macintosh"@) && !contains_seq(ua, "Mac OS"@)
            && contains_seq(ua, "Linux"@) ==> upload_device(ua) == "Linux"@,
        !contains_seq(ua, "iPhone"@) && !contains_seq(ua, "iPad"@) && !contains_seq(ua, "Android"@)
            && !contains_seq(ua, "Windows"@) && !contains_seq(ua, "Macintosh"@) && !contains_seq(ua, "Mac OS"@)
            && !contains_seq(ua, "Linux"@) ==> upload_device(ua) == "Unknown"@,
{
}

/// The same order for the device named when a batch is announced, with the
/// marks matched without regard to ASCII case.
pub proof fn law_guess_device_order(ua: Seq<char>)
    ensures
        ({
            let l = ascii_lower_seq(ua);
            &&& contains_seq(l, "iphone"@) || contains_seq(l, "ipad"@) ==> device_guess(ua) == "iPhone"@
            &&& !contains_seq(l, "iphone"@) && !contains_seq(l, "ipad"@) && contains_seq(l, "android"@)
                ==> device_guess(ua) == "Android"@
            &&& !contains_seq(l, "iphone"@) && !contains_seq(l, "ipad"@) && !contains_seq(l, "android"@)
                && contains_seq(l, "windows"@) ==> device_guess(ua) == "Windows"@
            &&& !contains_seq(l, "iphone"@) && !contains_seq(l, "ipad"@) && !contains_seq(l, "android"@)
                && !contains_seq(l, "windows"@) && (contains_seq(l, "macintosh"@) || contains_seq(l, "mac os"@))
                ==> device_guess(ua) == "Mac"@
            &&& !contains_seq(l, "iphone"@) && !contains_seq(l, "ipad"@) && !contains_seq(l, "android"@)
                && !contains_seq(l, "windows"@) && !contains_seq(l, "macintosh"@) && !contains_seq(l, "mac os"@)
                && contains_seq(l, "linux"@) ==> device_guess(ua) == "Linux"@
        }),
{
}

/// Which form of `Content-Disposition` a download gets, by the characters
/// of its safe name (the name without `"` and `\`): when one of them is not
/// ASCII (code point 0x80 or above) or is a control character, the RFC 5987
/// form `filename*=UTF-8''` with the name's UTF-8 bytes percent-encoded;
/// when all are printable ASCII, the plain quoted form.
pub proof fn law_disposition_form(name: Seq<char>)
    ensures
        ({
            let s = safe_name(name);
            &&& (exists|i: int| 0 <= i < s.len() && ((#[trigger] s[i]) as u32 >= 0x80 || (s[i] as u32) < 0x20
                || s[i] as u32 == 0x7F)) ==> disposition(name) == "attachment; filename*=UTF-8''"@
                + percent_encode(encode_utf8(s))
            &&& (forall|i: int| 0 <= i < s.len() ==> 0x20 <= (#[trigger] s[i]) as u32 && (s[i] as u32) < 0x7F)
                ==> disposition(name) == "attachment; filename=\""@ + s + "\""@
        }),
{
    let s = safe_name(name);
    if exists|i: int| 0 <= i < s.len() && ((#[trigger] s[i]) as u32 >= 0x80 || (s[i] as u32) < 0x20
        || s[i] as u32 == 0x7F) {
        let i = choose|i: int| 0 <= i < s.len() && ((#[trigger] s[i]) as u32 >= 0x80 || (s[i] as u32) < 0x20
            || s[i] as u32 == 0x7F);
        assert(!plain_filename_char(s[i]));
    }
}

/// The position of the last `.` in `s`.
pub open spec fn last_dot(s: Seq<char>) -> Option<int>
    decreases s.len(),
{
    if s.len() == 0 {
        None
    } else if s.last() == '.' {
        Some(s.len() - 1)
    } else {
        last_dot(s.drop_last())
    }
}

/// `Path::file_stem` and `Path::extension` of a file name: split at the last
/// `.`; with no `.`, or only a leading one, or for `..`, the whole name is the
/// stem and there is no extension.
pub open spec fn split_stem(name: Seq<char>) -> (Seq<char>, Option<Seq<char>>) {
    if name == ".."@ {
        (name, None)
    } else {
        match last_dot(name) {
            None => (name, None),
            Some(i) => if i == 0 { (name, None) } else { (name.take(i), Some(name.skip(i + 1))) },
        }
    }
}

/// The stem and extension used to rename a received file whose name is
/// taken: those of its file name (`file` when the path has none, and an
/// empty extension when there is none).
pub fn stem_and_extension(file_name: Option<&str>) -> (r: (String, String))
    ensures
        match file_name {
            None => r.0@ == "file"@ && r.1@ == Seq::<char>::empty(),
            Some(n) => r.0@ == split_stem(n@).0 && r.1@ == or_text(split_stem(n@).1, Seq::<char>::empty()),
        },
{
    proof { reveal_strlit(""); }
    let n = match file_name {
        None => { return (String::from_str("file"), String::new()); },
        Some(n) => n,
    };
    let s = chars_of(n);
    if same_chars(&s, &chars_of("..")) {
        return (String::from_str(n), String::new());
    }
    let mut i: usize = s.len();
    assert(s@.take(s@.len() as int) =~= s@);
    while i > 0 && s[i - 1] != '.'
        invariant
            i <= s.len(),
            last_dot(s@) == last_dot(s@.take(i as int)),
        decreases i,
    {
        assert(s@.take(i as int).drop_last() =~= s@.take(i - 1));
        assert(s@.take(i as int).last() == s@[i - 1]);
        i = i - 1;
    }
    if i == 0 {
        assert(s@.take(0) =~= Seq::<char>::empty());
    } else {
        assert(s@.take(i as int).last() == s@[i - 1]);
    }
    if i <= 1 {
        return (String::from_str(n), String::new());
    }
    let stem = crate::text::slice_chars(&s, 0, i - 1);
    let ext = crate::text::slice_chars(&s, i, s.len());
    (string_of(&stem), string_of(&ext))
}

/// `<stem> (<n>)` or `<stem> (<n>).<ext>`: the name tried when a received
/// file's name is taken.
pub open spec fn renamed(stem: Seq<char>, ext: Seq<char>, n: nat) -> Seq<char> {
    if ext.len() == 0 {
        stem + " ("@ + decimal(n) + ")"@
    } else {
        stem + " ("@ + decimal(n) + ")."@ + ext
    }
}

pub fn rename_candidate(stem: &str, ext: &str, counter: u32) -> (r: String)
    ensures
        r@ == renamed(stem@, ext@, counter as nat),
{
    let mut out = chars_of(stem);
    extend_chars(&mut out, &chars_of(" ("));
    extend_chars(&mut out, &decimal_exec(counter as u64));
    let e = chars_of(ext);
    if e.len() == 0 {
        extend_chars(&mut out, &chars_of(")"));
    } else {
        extend_chars(&mut out, &chars_of(")."));
        extend_chars(&mut out, &e);
    }
    string_of(&out)
}

/// The number of files a batch announces: the body, trimmed, as a `u64`, or 0.
pub open spec fn announced_count(body: Seq<char>) -> nat {
    match parse_unsigned(trimmed(body), u64::MAX as nat) {
        Some(n) => n,
        None => 0,
    }
}

pub fn parse_expected_count(body: &str) -> (r: u64)
    ensures
        r as nat == announced_count(body@),
{
    let b = chars_of(body);
    let t = trim(&b);
    match parse_unsigned_exec(&t, u64::MAX) {
        Some(n) => n,
        None => 0,
    }
}

/// A ten-character id for a pending upload confirmation, from
/// `fastrand::alphanumeric`.
pub fn pending_id() -> (r: String)
    ensures
        r@.len() == 10,
        forall|i: int| 0 <= i < 10 ==> is_alnum_ascii(#[trigger] r@[i] as u32),
{
    let mut v: Vec<char> = Vec::new();
    let mut i: usize = 0;
    while i < 10
        invariant
            i <= 10,
            v@.len() == i,
            forall|j: int| 0 <= j < i ==> is_alnum_ascii(#[trigger] v@[j] as u32),
        decreases 10 - i,
    {
        v.push(fastrand_alphanumeric());
        i = i + 1;
    }
    string_of(&v)
}

/// How `/upload-start` is answered.
#[derive(Debug, Clone, Copy, PartialEq, Eq)]
pub enum UploadStartReply {
    /// 200 `ok`.
    Accepted,
    /// 403 `rejected`.
    Rejected,
}

/// With automatic receiving the batch is accepted; otherwise the user's
/// answer decides, and no answer (the request was dropped) rejects it.
pub fn upload_start_reply(auto_receive: bool, answer: Option<bool>) -> (r: UploadStartReply)
    ensures
        r == (if auto_receive || answer == Some(true) { UploadStartReply::Accepted } else { UploadStartReply::Rejected }),
{
    if auto_receive {
        UploadStartReply::Accepted
    } else {
        match answer {
            Some(true) => UploadStartReply::Accepted,
            _ => UploadStartReply::Rejected,
        }
    }
}

impl UploadStartReply {
    pub fn status(&self) -> (r: u16)
        ensures
            r == (if *self == UploadStartReply::Accepted { 200u16 } else { 403u16 }),
    {
        match self {
            UploadStartReply::Accepted => 200,
            UploadStartReply::Rejected => 403,
        }
    }
}


proof fn lemma_scalar_without_percent(c: char)
    requires
        c != '%',
    ensures
        !encode_scalar(c as u32).contains(37u8),
{
    let v = c as u32;
    let e = encode_scalar(v);
    if e.contains(37u8) {
        let j = choose|j: int| 0 <= j < e.len() && e[j] == 37u8;
        if v <= 0x7F {
            assert((v & 0x7F) as u8 == 37u8 ==> v == 37) by (bit_vector)
                requires
                    v <= 0x7F,
            ;
            assert(c as u32 == 37 ==> c == '%');
        } else {
            assert(forall|x: u32| #![auto] (0x80 | (x & 0x3F) as u8) != 37u8) by (bit_vector);
            assert(forall|x: u32| #![auto] (0x80 | ((x >> 6) & 0x3F) as u8) != 37u8) by (bit_vector);
            assert(forall|x: u32| #![auto] (0x80 | ((x >> 12) & 0x3F) as u8) != 37u8) by (bit_vector);
            assert(forall|x: u32| #![auto] (0xC0 | ((x >> 6) & 0x1F) as u8) != 37u8) by (bit_vector);
            assert(forall|x: u32| #![auto] (0xE0 | ((x >> 12) & 0x0F) as u8) != 37u8) by (bit_vector);
            assert(forall|x: u32| #![auto] (0xF0 | ((x >> 18) & 0x7) as u8) != 37u8) by (bit_vector);
        }
    }
}

proof fn lemma_utf8_without_percent(s: Seq<char>)
    requires
        !s.contains('%'),
    ensures
        !encode_utf8(s).contains(37u8),
    decreases s.len(),
{
    if s.len() > 0 {
        assert(!s.drop_first().contains('%')) by {
            if s.drop_first().contains('%') {
                let j = choose|j: int| 0 <= j < s.drop_first().len() && s.drop_first()[j] == '%';
                assert(s[j + 1] == '%');
            }
        }
        assert(s[0] != '%');
        lemma_scalar_without_percent(s[0]);
        lemma_utf8_without_percent(s.drop_first());
        let a = encode_scalar(s[0] as u32);
        let b = encode_utf8(s.drop_first());
        if (a + b).contains(37u8) {
            let j = choose|j: int| 0 <= j < (a + b).len() && (a + b)[j] == 37u8;
            if j < a.len() {
                assert(a[j] == 37u8);
            } else {
                assert(b[j - a.len()] == 37u8);
            }
        }
    }
}

proof fn lemma_percent_decode_plain(b: Seq<u8>)
    requires
        !b.contains(37u8),
    ensures
        percent_decode(b) == b,
    decreases b.len(),
{
    if b.len() > 0 {
        assert(b[0] != 37u8);
        assert(!b.skip(1).contains(37u8)) by {
            if b.skip(1).contains(37u8) {
                let j = choose|j: int| 0 <= j < b.skip(1).len() && b.skip(1)[j] == 37u8;
                assert(b[j + 1] == 37u8);
            }
        }
        lemma_percent_decode_plain(b.skip(1));
        assert(seq![b[0]] + b.skip(1) =~= b);
    }
}

/// A name without `%` decodes to itself.
pub proof fn lemma_plain_name_decodes_to_itself(name: Seq<char>)
    requires
        !name.contains('%'),
    ensures
        url_decoded(name) == Some(name),
{
    lemma_utf8_without_percent(name);
    lemma_percent_decode_plain(encode_utf8(name));
    encode_utf8_valid_utf8(name);
    encode_utf8_decode_utf8(name);
}

/// An upload to `<path>?name=<name>`, where the name holds no `?`, `&` or
/// `%` (and the path no `?`), is stored under exactly that name.
pub proof fn law_plain_upload_name_kept(path: Seq<char>, name: Seq<char>)
    requires
        !path.contains('?'),
        !name.contains('?'),
        !name.contains('&'),
        !name.contains('%'),
    ensures
        upload_name(path + seq!['?'] + "name="@ + name) == name,
{
    reveal_strlit("name=");
    let q = "name="@ + name;
    assert(!q.contains('?')) by {
        if q.contains('?') {
            let j = choose|j: int| 0 <= j < q.len() && q[j] == '?';
            if j >= 5 {
                assert(name[j - 5] == '?');
            }
        }
    }
    assert(!q.contains('&')) by {
        if q.contains('&') {
            let j = choose|j: int| 0 <= j < q.len() && q[j] == '&';
            if j >= 5 {
                assert(name[j - 5] == '&');
            }
        }
    }
    assert(path + seq!['?'] + "name="@ + name =~= path + seq!['?'] + q);
    lemma_split_two(path, q, '?');
    lemma_split_on_absent(q, '&');
    assert(has_prefix(q, "name="@)) by {
        assert(q.subrange(0, 5) =~= "name="@);
    }
    assert(q.skip(5) =~= name);
    assert(first_named(seq![q]) == Some(name));
    lemma_plain_name_decodes_to_itself(name);
}


/// An upload whose URL has no query is stored as `received_file`.
pub proof fn law_upload_without_query_is_received_file(url: Seq<char>)
    requires
        !url.contains('?'),
    ensures
        upload_name(url) == "received_file"@,
{
    reveal_strlit("received_file");
    lemma_split_on_absent(url, '?');
    assert(!"received_file"@.contains('%')) by {
        if "received_file"@.contains('%') {
            let j = choose|j: int| 0 <= j < "received_file"@.len() && "received_file"@[j] == '%';
        }
    }
    lemma_plain_name_decodes_to_itself("received_file"@);
}

}
