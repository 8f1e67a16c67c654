//! The byte range that a download answers, from the request's `Range` header.
use vstd::prelude::*;
use crate::text::{chars_of, strip_prefix, split_char, views, lower_ascii, matches_at, without_prefix, split_on, ascii_lower_seq, occurs_at};
use crate::num::{parse_unsigned, parse_unsigned_exec, decimal, lemma_decimal_digits, law_decimal_roundtrip, is_digit};
use crate::text::{lemma_split_two, has_prefix};

verus! {

/// The part of a file that a download sends, and with which status.
#[derive(Debug, Clone, Copy, PartialEq, Eq)]
pub struct ByteRange {
    pub start: u64,
    pub end: u64,
    pub status: u16,
    pub content_len: u64,
}

/// `total - 1`, or `0` for an empty file.
pub open spec fn last_index(total: u64) -> u64 {
    if total == 0 { 0 } else { (total - 1) as u64 }
}

/// The whole file, answered with status 200.
pub open spec fn whole_file(total: u64) -> ByteRange {
    ByteRange { start: 0, end: last_index(total), status: 200, content_len: total }
}

pub open spec fn bytes_unit() -> Seq<char> {
    seq!['b', 'y', 't', 'e', 's', '=']
}

pub open spec fn or_default(v: Option<nat>, d: nat) -> nat {
    match v {
        Some(x) => x,
        None => d,
    }
}

/// The range answered for a `Range` header value `bytes=a-b` (either end may be
/// left out or unreadable), given a file of `total` bytes; without a usable
/// header the whole file is sent.
pub open spec fn range_plan(header: Option<Seq<char>>, total: u64) -> ByteRange {
    match header {
        None => whole_file(total),
        Some(val) => match without_prefix(val, bytes_unit()) {
            None => whole_file(total),
            Some(rv) => {
                let parts = split_on(rv, '-');
                if parts.len() != 2 {
                    whole_file(total)
                } else {
                    let last = last_index(total) as nat;
                    let start = or_default(parse_unsigned(parts[0], u64::MAX as nat), 0);
                    let end0 = if parts[1].len() == 0 {
                        last
                    } else {
                        or_default(parse_unsigned(parts[1], u64::MAX as nat), last)
                    };
                    let end = if end0 < last { end0 } else { last };
                    if start <= end && end < total {
                        ByteRange {
                            start: start as u64,
                            end: end as u64,
                            status: 206,
                            content_len: (end - start + 1) as u64,
                        }
                    } else {
                        whole_file(total)
                    }
                }
            },
        },
    }
}

fn bytes_unit_exec() -> (r: Vec<char>)
    ensures
        r@ == bytes_unit(),
{
    let r = vec!['b', 'y', 't', 'e', 's', '='];
    assert(r@ =~= bytes_unit());
    r
}

/// Decides which bytes of a file of `total_len` bytes a download sends, from
/// the value of its `Range` header, if any. A partial answer (206) always
/// lies inside the file; anything else sends the whole file with 200.
pub fn parse_range(header: Option<&str>, total_len: u64) -> (r: ByteRange)
    ensures
        r == range_plan(
            match header { Some(h) => Some(h@), None => None::<Seq<char>> },
            total_len,
        ),
        r.status == 206 ==> r.start <= r.end && r.end < total_len && r.content_len == r.end - r.start + 1,
        r.status != 206 ==> r == whole_file(total_len),
{
    let last: u64 = if total_len == 0 { 0 } else { total_len - 1 };
    let whole = ByteRange { start: 0, end: last, status: 200, content_len: total_len };
    let h = match header {
        None => { return whole; },
        Some(h) => h,
    };
    let val = chars_of(h);
    let unit = bytes_unit_exec();
    let rv = match strip_prefix(&val, &unit) {
        None => { return whole; },
        Some(rv) => rv,
    };
    let parts = split_char(&rv, '-');
    if parts.len() != 2 {
        return whole;
    }
    assert(views(parts@)[0] == parts@[0]@);
    assert(views(parts@)[1] == parts@[1]@);
    let start: u64 = match parse_unsigned_exec(&parts[0], u64::MAX) {
        Some(v) => v,
        None => 0,
    };
    let end0: u64 = if parts[1].len() == 0 {
        last
    } else {
        match parse_unsigned_exec(&parts[1], u64::MAX) {
            Some(v) => v,
            None => last,
        }
    };
    let end = if end0 < last { end0 } else { last };
    if start <= end && end < total_len {
        ByteRange { start, end, status: 206, content_len: end - start + 1 }
    } else {
        whole
    }
}

/// The value of the first header whose name, in ASCII lower case, is `name`.
pub open spec fn header_value(headers: Seq<(Seq<char>, Seq<char>)>, name: Seq<char>) -> Option<Seq<char>>
    decreases headers.len(),
{
    if headers.len() == 0 {
        None
    } else if ascii_lower_seq(headers[0].0) == name {
        Some(headers[0].1)
    } else {
        header_value(headers.skip(1), name)
    }
}

/// The headers as pairs of character sequences.
pub open spec fn header_views(headers: Seq<(String, String)>) -> Seq<(Seq<char>, Seq<char>)> {
    headers.map_values(|h: (String, String)| (h.0@, h.1@))
}

/// Finds the first header whose name, lower-cased, equals `name` (header
/// names are ASCII, so ASCII lower-casing is all there is to it).
pub fn find_header(headers: &[(String, String)], name: &[char]) -> (r: Option<String>)
    ensures
        r matches Some(v) ==> header_value(header_views(headers@), name@) == Some(v@),
        r is None ==> header_value(header_views(headers@), name@) is None,
{
    let mut i: usize = 0;
    assert(header_views(headers@).skip(0) =~= header_views(headers@));
    while i < headers.len()
        invariant
            i <= headers.len(),
            header_value(header_views(headers@), name@) == header_value(
                header_views(headers@).skip(i as int),
                name@,
            ),
        decreases headers.len() - i,
    {
        let ghost hv = header_views(headers@);
        assert(hv.skip(i as int)[0] == (headers@[i as int].0@, headers@[i as int].1@));
        assert(hv.skip(i as int).skip(1) =~= hv.skip(i + 1));
        let key = chars_of(headers[i].0.as_str());
        let low = lower_ascii(&key);
        let mut same = low.len() == name.len();
        if same {
            same = matches_at(&low, name, 0);
            assert(same ==> low@ =~= name@);
        }
        assert(same <==> low@ == name@) by {
            if low@ == name@ {
                assert(occurs_at(low@, name@, 0)) by {
                    assert(low@.subrange(0, name@.len() as int) =~= low@);
                }
            }
        }
        if same {
            return Some(headers[i].1.clone());
        }
        i = i + 1;
    }
    assert(header_views(headers@).skip(i as int).len() == 0);
    None
}


proof fn lemma_decimal_has_no_dash(n: nat)
    ensures
        !decimal(n).contains('-'),
        decimal(n).len() > 0,
{
    lemma_decimal_digits(n);
    if decimal(n).contains('-') {
        let j = choose|j: int| 0 <= j < decimal(n).len() && decimal(n)[j] == '-';
        assert(is_digit(decimal(n)[j]));
    }
}

proof fn lemma_unit_prefix(rest: Seq<char>)
    ensures
        without_prefix(bytes_unit() + rest, bytes_unit()) == Some(rest),
{
    let s = bytes_unit() + rest;
    assert(s.subrange(0, 6) =~= bytes_unit());
    assert(has_prefix(s, bytes_unit()));
    assert(s.skip(6) =~= rest);
}

/// Resuming a download: a request for bytes `a` to `b` of a file of `total`
/// bytes, with `a <= b < total`, is answered with exactly those bytes (206).
pub proof fn law_range_request_honoured(a: u64, b: u64, total: u64)
    requires
        a <= b < total,
    ensures
        range_plan(Some(bytes_unit() + decimal(a as nat) + seq!['-'] + decimal(b as nat)), total)
            == (ByteRange { start: a, end: b, status: 206, content_len: (b - a + 1) as u64 }),
{
    let rest = decimal(a as nat) + seq!['-'] + decimal(b as nat);
    assert(bytes_unit() + decimal(a as nat) + seq!['-'] + decimal(b as nat) =~= bytes_unit() + rest);
    lemma_unit_prefix(rest);
    lemma_decimal_has_no_dash(a as nat);
    lemma_decimal_has_no_dash(b as nat);
    lemma_split_two(decimal(a as nat), decimal(b as nat), '-');
    law_decimal_roundtrip(a as nat, u64::MAX as nat);
    law_decimal_roundtrip(b as nat, u64::MAX as nat);
}

/// Resuming to the end: a request for bytes from `a` on, with `a < total`,
/// is answered with bytes `a` to `total - 1` (206).
pub proof fn law_open_range_request_honoured(a: u64, total: u64)
    requires
        a < total,
    ensures
        range_plan(Some(bytes_unit() + decimal(a as nat) + seq!['-']), total)
            == (ByteRange { start: a, end: (total - 1) as u64, status: 206, content_len: (total - a) as u64 }),
{
    let rest = decimal(a as nat) + seq!['-'] + Seq::<char>::empty();
    assert(bytes_unit() + decimal(a as nat) + seq!['-'] =~= bytes_unit() + rest);
    lemma_unit_prefix(rest);
    lemma_decimal_has_no_dash(a as nat);
    lemma_split_two(decimal(a as nat), Seq::<char>::empty(), '-');
    law_decimal_roundtrip(a as nat, u64::MAX as nat);
}

}
