//! Paths handed over between instances, and the port file of a running one.
use vstd::prelude::*;
use vstd::utf8::encode_utf8;
use crate::text::{chars_of, string_of, extend_chars, lines, lines_of, views, trim, trimmed, trim_start, trim_end, same_chars,
    split_on, strip_cr, lemma_split_on_absent, lemma_split_on_append};
use crate::outside::random_in_range;
use crate::num::{decimal, decimal_exec, parse_unsigned, parse_unsigned_exec, is_digit, lemma_decimal_digits, law_decimal_roundtrip};

verus! {

/// What a `/cli` request asks for.
#[derive(Debug)]
pub enum CliRequest {
    /// The body is exactly the line `__focus__`: bring the window forward.
    Focus,
    /// No non-empty line: nothing to share.
    Nothing,
    /// Share these paths, one per non-empty line.
    Paths(Vec<String>),
}

/// The non-empty lines of a body.
pub open spec fn nonempty_lines(body: Seq<char>) -> Seq<Seq<char>> {
    lines_of(body).filter(|l: Seq<char>| l.len() > 0)
}

/// Reads a `/cli` request body.
pub fn parse_cli_body(body: &str) -> (r: CliRequest)
    ensures
        ({
            let ls = nonempty_lines(body@);
            match r {
                CliRequest::Focus => ls.len() == 1 && ls[0] == "__focus__"@,
                CliRequest::Nothing => ls.len() == 0,
                CliRequest::Paths(p) => p@.map_values(|s: String| s@) == ls && ls.len() > 0
                    && !(ls.len() == 1 && ls[0] == "__focus__"@),
            }
        }),
{
    let b = chars_of(body);
    let all = lines(&b);
    let ghost lv = lines_of(body@);
    let mut paths: Vec<String> = Vec::new();
    let mut i: usize = 0;
    while i < all.len()
        invariant
            i <= all.len(),
            views(all@) == lv,
            lv == lines_of(body@),
            paths@.map_values(|s: String| s@) == lv.take(i as int).filter(|l: Seq<char>| l.len() > 0),
        decreases all.len() - i,
    {
        assert(views(all@)[i as int] == all@[i as int]@);
        assert(lv.take(i + 1).drop_last() =~= lv.take(i as int));
        reveal_with_fuel(Seq::<_>::filter, 1);
        let ghost before = paths@;
        if all[i].len() > 0 {
            paths.push(string_of(&all[i]));
            assert(paths@.map_values(|s: String| s@) =~= before.map_values(|s: String| s@).push(lv[i as int]));
        }
        i = i + 1;
    }
    assert(lv.take(i as int) =~= lv);
    if paths.len() == 1 && same_chars(&chars_of(paths[0].as_str()), &chars_of("__focus__")) {
        assert(paths@.map_values(|s: String| s@)[0] == paths@[0]@);
        return CliRequest::Focus;
    }
    if paths.len() == 0 {
        return CliRequest::Nothing;
    }
    proof {
        if paths@.len() == 1 {
            assert(paths@.map_values(|s: String| s@)[0] == paths@[0]@);
        }
    }
    CliRequest::Paths(paths)
}

/// The strings joined with line feeds.
pub open spec fn joined_lines(parts: Seq<Seq<char>>) -> Seq<char>
    decreases parts.len(),
{
    if parts.len() == 0 {
        Seq::empty()
    } else if parts.len() == 1 {
        parts[0]
    } else {
        joined_lines(parts.drop_last()) + seq!['\n'] + parts.last()
    }
}

proof fn lemma_split_joined(paths: Seq<Seq<char>>)
    requires
        paths.len() > 0,
        forall|i: int| 0 <= i < paths.len() ==> !(#[trigger] paths[i]).contains('\n'),
    ensures
        split_on(joined_lines(paths), '\n') == paths,
    decreases paths.len(),
{
    if paths.len() == 1 {
        lemma_split_on_absent(paths[0], '\n');
        assert(seq![paths[0]] =~= paths);
    } else {
        let init = paths.drop_last();
        assert forall|i: int| 0 <= i < init.len() implies !(#[trigger] init[i]).contains('\n') by {
            assert(init[i] == paths[i]);
        }
        lemma_split_joined(init);
        let x = joined_lines(init);
        let last = paths.last();
        assert(!last.contains('\n')) by {
            assert(last == paths[paths.len() - 1]);
        }
        assert((x + seq!['\n']).drop_last() =~= x);
        assert(split_on(x + seq!['\n'], '\n') == init.push(Seq::<char>::empty()));
        lemma_split_on_append(x + seq!['\n'], last, '\n');
        assert(Seq::<char>::empty() + last =~= last);
        assert(init.push(Seq::<char>::empty()).update(init.len() as int, last) =~= paths);
    }
}

proof fn lemma_filter_nonempty_all(ls: Seq<Seq<char>>)
    requires
        forall|i: int| 0 <= i < ls.len() ==> (#[trigger] ls[i]).len() > 0,
    ensures
        ls.filter(|l: Seq<char>| l.len() > 0) == ls,
    decreases ls.len(),
{
    reveal_with_fuel(Seq::<_>::filter, 1);
    if ls.len() > 0 {
        let init = ls.drop_last();
        assert forall|i: int| 0 <= i < init.len() implies (#[trigger] init[i]).len() > 0 by {
            assert(init[i] == ls[i]);
        }
        lemma_filter_nonempty_all(init);
        assert(ls.last() == ls[ls.len() - 1]);
        assert(init.push(ls.last()) =~= ls);
    }
}

/// What a second instance forwards is what the running instance reads: the
/// body of the forwarded request, the paths joined by line feeds, reads back
/// as the same paths, when each is non-empty, holds no line feed, and all but
/// the last do not end in a carriage return.
pub proof fn law_forwarded_paths_read_back(paths: Seq<Seq<char>>)
    requires
        paths.len() > 0,
        forall|i: int| 0 <= i < paths.len() ==> (#[trigger] paths[i]).len() > 0 && !paths[i].contains('\n'),
        forall|i: int| 0 <= i < paths.len() - 1 ==> (#[trigger] paths[i]).last() != '\r',
    ensures
        nonempty_lines(joined_lines(paths)) == paths,
{
    lemma_split_joined(paths);
    let n = paths.len();
    let ended = Seq::new((n - 1) as nat, |i: int| strip_cr(paths[i]));
    assert(ended =~= paths.drop_last());
    assert(paths[n - 1].len() > 0);
    assert(ended.push(paths[n - 1]) =~= paths);
    assert(lines_of(joined_lines(paths)) == paths);
    lemma_filter_nonempty_all(paths);
}

/// The HTTP request that hands paths to a running instance on `port`:
/// `POST /cli` with the paths, one per line, as body; `Content-Length` counts
/// the body's UTF-8 bytes.
pub open spec fn forward_request_text(port: u16, paths: Seq<Seq<char>>) -> Seq<char> {
    let body = joined_lines(paths);
    "POST /cli HTTP/1.1\r\nHost: 127.0.0.1:"@ + decimal(port as nat)
        + "\r\nContent-Type: text/plain\r\nContent-Length: "@ + decimal((encode_utf8(body).len() as usize) as nat)
        + "\r\nConnection: close\r\n\r\n"@ + body
}

/// The paths joined with line feeds.
pub fn join_lines(paths: &Vec<String>) -> (r: String)
    ensures
        r@ == joined_lines(paths@.map_values(|s: String| s@)),
{
    let ghost ps = paths@.map_values(|s: String| s@);
    let mut body: Vec<char> = Vec::new();
    let mut i: usize = 0;
    while i < paths.len()
        invariant
            i <= paths.len(),
            ps == paths@.map_values(|s: String| s@),
            body@ == joined_lines(ps.take(i as int)),
        decreases paths.len() - i,
    {
        assert(ps.take(i + 1).drop_last() =~= ps.take(i as int));
        assert(ps[i as int] == paths@[i as int]@);
        if i > 0 {
            body.push('\n');
        } else {
            assert(body@.len() == 0);
        }
        extend_chars(&mut body, &chars_of(paths[i].as_str()));
        proof {
            if i == 0 {
                assert(body@ =~= ps.take(1)[0]);
            }
        }
        i = i + 1;
    }
    assert(ps.take(i as int) =~= ps);
    string_of(&body)
}

pub fn forward_request(port: u16, paths: &Vec<String>) -> (r: String)
    ensures
        r@ == forward_request_text(port, paths@.map_values(|s: String| s@)),
{
    let ghost ps = paths@.map_values(|s: String| s@);
    let body_text = join_lines(paths);
    let body = chars_of(body_text.as_str());
    let blen = body_text.as_str().len();
    assert(body_text@ == joined_lines(ps));
    let mut out = chars_of("POST /cli HTTP/1.1\r\nHost: 127.0.0.1:");
    extend_chars(&mut out, &decimal_exec(port as u64));
    extend_chars(&mut out, &chars_of("\r\nContent-Type: text/plain\r\nContent-Length: "));
    extend_chars(&mut out, &decimal_exec(blen as u64));
    extend_chars(&mut out, &chars_of("\r\nConnection: close\r\n\r\n"));
    extend_chars(&mut out, &body);
    string_of(&out)
}

/// The port in an instance's port file: its trimmed text as a `u16`.
pub open spec fn port_in_file(content: Seq<char>) -> Option<nat> {
    parse_unsigned(trimmed(content), 65535)
}

pub fn parse_port_file(content: &str) -> (r: Option<u16>)
    ensures
        r matches Some(p) ==> port_in_file(content@) == Some(p as nat),
        r is None ==> port_in_file(content@) is None,
{
    let t = trim(&chars_of(content));
    match parse_unsigned_exec(&t, 65535) {
        Some(v) => Some(v as u16),
        None => None,
    }
}

/// The text written to the port file.
pub fn port_file_text(port: u16) -> (r: String)
    ensures
        r@ == decimal(port as nat),
{
    string_of(&decimal_exec(port as u64))
}

/// Reading an instance's port file back gives the port written to it.
pub proof fn law_port_file_roundtrip(port: u16)
    ensures
        port_in_file(decimal(port as nat)) == Some(port as nat),
{
    let d = decimal(port as nat);
    lemma_decimal_digits(port as nat);
    law_decimal_roundtrip(port as nat, 65535);
    assert(is_digit(d[0]));
    assert(is_digit(d.last())) by {
        assert(d.last() == d[d.len() - 1]);
    }
    assert(trim_start(d) == d);
    assert(trim_end(d) == d);
}

/// The first of the ports 52035 to 52045 that could be bound (`free[i]` tells
/// whether 52035 + i could), or `None` when none could.
pub fn first_free_port(free: &Vec<bool>) -> (r: Option<u16>)
    requires
        free.len() == 11,
    ensures
        r matches Some(p) ==> 52035 <= p <= 52045 && free@[p - 52035] && forall|j: int| 0 <= j < p - 52035 ==> !free@[j],
        r is None ==> forall|j: int| 0 <= j < 11 ==> !free@[j],
{
    let mut i: usize = 0;
    while i < 11
        invariant
            i <= 11,
            free.len() == 11,
            forall|j: int| 0 <= j < i ==> !free@[j],
        decreases 11 - i,
    {
        if free[i] {
            return Some(52035 + i as u16);
        }
        i = i + 1;
    }
    None
}


/// The port to serve on: the first of 52035 to 52045 that could be bound
/// (`free[i]` tells whether 52035 + i could), else a random port from 49152
/// to 65534.
pub fn choose_port(free: &Vec<bool>) -> (r: u16)
    requires
        free.len() == 11,
    ensures
        (exists|j: int| 0 <= j < 11 && free@[j]) ==> 52035 <= r <= 52045 && free@[r - 52035]
            && forall|j: int| 0 <= j < r - 52035 ==> !free@[j],
        !(exists|j: int| 0 <= j < 11 && free@[j]) ==> 49152 <= r < 65535,
{
    match first_free_port(free) {
        Some(p) => p,
        None => random_in_range(49152, 65535),
    }
}

}
