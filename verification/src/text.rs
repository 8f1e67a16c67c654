//! Character-sequence utilities with specifications that follow the
//! behaviour of the corresponding `str` methods.
use vstd::prelude::*;

verus! {

/// Copies the characters of `s` into a vector.
pub fn chars_of(s: &str) -> (r: Vec<char>)
    ensures
        r@ == s@,
{
    let mut r: Vec<char> = Vec::new();
    for c in it: s.chars()
        invariant
            r@ == it.seq().take(it.index() as int),
            it.seq() == s@,
    {
        r.push(c);
    }
    r
}

/// Appends one character to a string (`String::push`).
#[verifier::external_body]
pub(crate) fn push_char(s: &mut String, c: char)
    ensures
        final(s)@ == old(s)@.push(c),
{
    s.push(c);
}

/// Builds a string from a sequence of characters.
pub fn string_of(cs: &[char]) -> (r: String)
    ensures
        r@ == cs@,
{
    let mut r = String::new();
    let mut i: usize = 0;
    while i < cs.len()
        invariant
            i <= cs.len(),
            r@ == cs@.take(i as int),
        decreases cs.len() - i,
    {
        push_char(&mut r, cs[i]);
        assert(cs@.take(i as int).push(cs@[i as int]) =~= cs@.take(i + 1));
        i = i + 1;
    }
    assert(cs@.take(cs.len() as int) =~= cs@);
    r
}

/// Appends all characters of `src` to `dst`.
pub fn extend_chars(dst: &mut Vec<char>, src: &[char])
    ensures
        final(dst)@ == old(dst)@ + src@,
{
    let mut i: usize = 0;
    while i < src.len()
        invariant
            i <= src.len(),
            dst@ == old(dst)@ + src@.take(i as int),
        decreases src.len() - i,
    {
        dst.push(src[i]);
        assert(old(dst)@ + src@.take(i + 1) =~= (old(dst)@ + src@.take(i as int)).push(src@[i as int]));
        i = i + 1;
    }
    assert(src@.take(src.len() as int) =~= src@);
}

/// Copies `s[from..to]`.
pub fn slice_chars(s: &[char], from: usize, to: usize) -> (r: Vec<char>)
    requires
        from <= to <= s.len(),
    ensures
        r@ == s@.subrange(from as int, to as int),
{
    let mut r: Vec<char> = Vec::new();
    let mut i: usize = from;
    while i < to
        invariant
            from <= i <= to <= s.len(),
            r@ == s@.subrange(from as int, i as int),
        decreases to - i,
    {
        r.push(s[i]);
        assert(s@.subrange(from as int, i + 1) =~= s@.subrange(from as int, i as int).push(s@[i as int]));
        i = i + 1;
    }
    r
}

/// ASCII lower-casing of one character.
pub open spec fn ascii_lower(c: char) -> char {
    if 'A' <= c && c <= 'Z' {
        ((c as u32) + 32) as char
    } else {
        c
    }
}

/// ASCII lower-casing of a sequence.
pub open spec fn ascii_lower_seq(s: Seq<char>) -> Seq<char> {
    s.map_values(|c: char| ascii_lower(c))
}

pub fn to_ascii_lower(c: char) -> (r: char)
    ensures
        r == ascii_lower(c),
{
    if 'A' <= c && c <= 'Z' {
        ((c as u8) + 32) as char
    } else {
        c
    }
}

/// Lower-cases every ASCII letter of `s`.
pub fn lower_ascii(s: &[char]) -> (r: Vec<char>)
    ensures
        r@ == ascii_lower_seq(s@),
{
    let mut r: Vec<char> = Vec::new();
    let mut i: usize = 0;
    while i < s.len()
        invariant
            i <= s.len(),
            r@ == ascii_lower_seq(s@.take(i as int)),
        decreases s.len() - i,
    {
        let c = to_ascii_lower(s[i]);
        r.push(c);
        assert(ascii_lower_seq(s@.take(i + 1)) =~= ascii_lower_seq(s@.take(i as int)).push(c));
        i = i + 1;
    }
    assert(s@.take(s.len() as int) =~= s@);
    r
}

/// `s` begins with `p`.
pub open spec fn has_prefix(s: Seq<char>, p: Seq<char>) -> bool {
    p.len() <= s.len() && s.subrange(0, p.len() as int) == p
}

/// `s` ends with `p`.
pub open spec fn has_suffix(s: Seq<char>, p: Seq<char>) -> bool {
    p.len() <= s.len() && s.subrange(s.len() - p.len(), s.len() as int) == p
}

/// `p` occurs in `s` at position `i`.
pub open spec fn occurs_at(s: Seq<char>, p: Seq<char>, i: int) -> bool {
    0 <= i && i + p.len() <= s.len() && s.subrange(i, i + p.len()) == p
}

/// `p` occurs somewhere in `s`.
pub open spec fn contains_seq(s: Seq<char>, p: Seq<char>) -> bool {
    exists|i: int| #[trigger] occurs_at(s, p, i)
}

/// Tests whether `p` occurs in `s` at position `i`.
pub fn matches_at(s: &[char], p: &[char], i: usize) -> (r: bool)
    ensures
        r == occurs_at(s@, p@, i as int),
{
    if i > s.len() || p.len() > s.len() - i {
        return false;
    }
    let mut k: usize = 0;
    while k < p.len()
        invariant
            k <= p.len(),
            i + p.len() <= s.len(),
            forall|j: int| 0 <= j < k ==> s@[i + j] == p@[j],
        decreases p.len() - k,
    {
        if s[i + k] != p[k] {
            assert(s@.subrange(i as int, i + p.len())[k as int] != p@[k as int]);
            return false;
        }
        k = k + 1;
    }
    assert(s@.subrange(i as int, i + p.len()) =~= p@);
    true
}

pub fn starts_with(s: &[char], p: &[char]) -> (r: bool)
    ensures
        r == has_prefix(s@, p@),
{
    matches_at(s, p, 0)
}

pub fn ends_with(s: &[char], p: &[char]) -> (r: bool)
    ensures
        r == has_suffix(s@, p@),
{
    if p.len() > s.len() {
        false
    } else {
        matches_at(s, p, s.len() - p.len())
    }
}

/// The first position at which `p` occurs in `s`, if any.
pub open spec fn first_occurrence(s: Seq<char>, p: Seq<char>) -> Option<int> {
    if contains_seq(s, p) {
        Some(choose|i: int| occurs_at(s, p, i) && forall|j: int| 0 <= j < i ==> !occurs_at(s, p, j))
    } else {
        None
    }
}

/// Finds the first occurrence of `p` in `s`.
pub fn find(s: &[char], p: &[char]) -> (r: Option<usize>)
    ensures
        r == (match first_occurrence(s@, p@) { Some(i) => Some(i as usize), None => None::<usize> }),
        r is Some ==> occurs_at(s@, p@, r->0 as int),
        r is Some ==> forall|j: int| 0 <= j < r->0 ==> !occurs_at(s@, p@, j),
        r is None <==> !contains_seq(s@, p@),
{
    if p.len() > s.len() {
        assert forall|j: int| !occurs_at(s@, p@, j) by {}
        return None;
    }
    let last = s.len() - p.len();
    let mut i: usize = 0;
    loop
        invariant
            last == s.len() - p.len(),
            i <= last,
            forall|j: int| 0 <= j < i ==> !occurs_at(s@, p@, j),
        ensures
            forall|j: int| 0 <= j <= last ==> !occurs_at(s@, p@, j),
        decreases last - i,
    {
        if matches_at(s, p, i) {
            let ghost w = choose|k: int| occurs_at(s@, p@, k) && forall|j: int| 0 <= j < k ==> !occurs_at(s@, p@, j);
            assert(occurs_at(s@, p@, i as int) && forall|j: int| 0 <= j < i ==> !occurs_at(s@, p@, j));
            assert(contains_seq(s@, p@));
            assert(w == i as int) by {
                if w < i { } else if w > i { }
            }
            return Some(i);
        }
        if i == last {
            break;
        }
        i = i + 1;
    }
    assert forall|j: int| !occurs_at(s@, p@, j) by {}
    None
}

pub fn contains(s: &[char], p: &[char]) -> (r: bool)
    ensures
        r == contains_seq(s@, p@),
{
    find(s, p).is_some()
}

/// `s` with the first occurrence of `p` replaced by `rep` (`str::replacen(p, rep, 1)`).
pub open spec fn replace_first(s: Seq<char>, p: Seq<char>, rep: Seq<char>) -> Seq<char> {
    match first_occurrence(s, p) {
        Some(i) => s.take(i) + rep + s.skip(i + p.len()),
        None => s,
    }
}

/// `s` with every non-overlapping occurrence of `p`, taken from the left,
/// replaced by `rep` (`str::replace` for a non-empty `p`).
pub open spec fn replace_all(s: Seq<char>, p: Seq<char>, rep: Seq<char>) -> Seq<char>
    decreases s.len(),
{
    if p.len() == 0 || s.len() < p.len() {
        s
    } else if s.take(p.len() as int) == p {
        rep + replace_all(s.skip(p.len() as int), p, rep)
    } else {
        seq![s[0]] + replace_all(s.skip(1), p, rep)
    }
}

pub fn replace_first_exec(s: &[char], p: &[char], rep: &[char]) -> (r: Vec<char>)
    ensures
        r@ == replace_first(s@, p@, rep@),
{
    match find(s, p) {
        Some(i) => {
            let mut r = slice_chars(s, 0, i);
            extend_chars(&mut r, rep);
            let tail = slice_chars(s, i + p.len(), s.len());
            extend_chars(&mut r, &tail);
            assert(s@.take(i as int) =~= s@.subrange(0, i as int));
            assert(s@.skip(i + p.len()) =~= s@.subrange(i + p.len(), s.len() as int));
            r
        },
        None => slice_chars(s, 0, s.len()),
    }
}

pub fn replace_all_exec(s: &[char], p: &[char], rep: &[char]) -> (r: Vec<char>)
    requires
        p.len() > 0,
    ensures
        r@ == replace_all(s@, p@, rep@),
{
    let mut out: Vec<char> = Vec::new();
    let mut i: usize = 0;
    assert(s@.skip(0) =~= s@);
    while i < s.len()
        invariant
            p.len() > 0,
            i <= s.len(),
            out@ + replace_all(s@.skip(i as int), p@, rep@) == replace_all(s@, p@, rep@),
        decreases s.len() - i,
    {
        let ghost rest = s@.skip(i as int);
        if matches_at(s, p, i) {
            assert(rest.take(p.len() as int) =~= s@.subrange(i as int, i + p.len()));
            assert(rest.skip(p.len() as int) =~= s@.skip(i + p.len()));
            let ghost out0 = out@;
            extend_chars(&mut out, rep);
            assert(replace_all(rest, p@, rep@) == rep@ + replace_all(s@.skip(i + p.len()), p@, rep@));
            assert(out@ + replace_all(s@.skip(i + p.len()), p@, rep@) =~= out0 + (rep@ + replace_all(s@.skip(i + p.len()), p@, rep@)));
            i = i + p.len();
        } else {
            proof {
                if rest.len() >= p@.len() {
                    assert(rest.take(p.len() as int) != p@) by {
                        assert(rest.take(p.len() as int) =~= s@.subrange(i as int, i + p.len()));
                    }
                }
            }
            assert(rest.skip(1) =~= s@.skip(i + 1));
            let c = s[i];
            let ghost out0 = out@;
            out.push(c);
            assert(rest[0] == c);
            assert(replace_all(rest, p@, rep@) == seq![c] + replace_all(s@.skip(i + 1), p@, rep@));
            assert(out@ + replace_all(s@.skip(i + 1), p@, rep@) =~= out0 + (seq![c] + replace_all(s@.skip(i + 1), p@, rep@)));
            i = i + 1;
        }
    }
    assert(s@.skip(i as int).len() == 0);
    out
}


/// The character sequences held by a vector of character vectors.
pub open spec fn views(v: Seq<Vec<char>>) -> Seq<Seq<char>> {
    v.map_values(|x: Vec<char>| x@)
}

/// The pieces of `s` between occurrences of `c` (`str::split` with a `char`).
pub open spec fn split_on(s: Seq<char>, c: char) -> Seq<Seq<char>>
    decreases s.len(),
{
    if s.len() == 0 {
        seq![Seq::<char>::empty()]
    } else {
        let init = split_on(s.drop_last(), c);
        if s.last() == c {
            init.push(Seq::<char>::empty())
        } else {
            init.update(init.len() - 1, init.last().push(s.last()))
        }
    }
}

pub proof fn lemma_split_on_nonempty(s: Seq<char>, c: char)
    ensures
        split_on(s, c).len() >= 1,
    decreases s.len(),
{
    if s.len() > 0 {
        lemma_split_on_nonempty(s.drop_last(), c);
    }
}

/// Splits `s` at every `c`.
pub fn split_char(s: &[char], c: char) -> (r: Vec<Vec<char>>)
    ensures
        views(r@) == split_on(s@, c),
{
    let mut pieces: Vec<Vec<char>> = Vec::new();
    let mut cur: Vec<char> = Vec::new();
    let mut i: usize = 0;
    assert(s@.take(0) =~= Seq::<char>::empty());
    while i < s.len()
        invariant
            i <= s.len(),
            views(pieces@).push(cur@) == split_on(s@.take(i as int), c),
        decreases s.len() - i,
    {
        let ch = s[i];
        let ghost prev = s@.take(i as int);
        assert(s@.take(i + 1).drop_last() =~= prev);
        proof { lemma_split_on_nonempty(prev, c); }
        if ch == c {
            let done = cur;
            pieces.push(done);
            cur = Vec::new();
            assert(views(pieces@).push(cur@) =~= split_on(prev, c).push(Seq::<char>::empty()));
        } else {
            let ghost before = cur@;
            cur.push(ch);
            assert(views(pieces@).push(cur@) =~= split_on(prev, c).update(
                split_on(prev, c).len() - 1, before.push(ch)));
        }
        i = i + 1;
    }
    assert(s@.take(s.len() as int) =~= s@);
    pieces.push(cur);
    pieces
}

/// `char::is_whitespace`: the Unicode `White_Space` property.
pub open spec fn is_white(c: char) -> bool {
    let u = c as u32;
    ||| (0x9 <= u && u <= 0xD)
    ||| u == 0x20
    ||| u == 0x85
    ||| u == 0xA0
    ||| u == 0x1680
    ||| (0x2000 <= u && u <= 0x200A)
    ||| u == 0x2028
    ||| u == 0x2029
    ||| u == 0x202F
    ||| u == 0x205F
    ||| u == 0x3000
}

pub fn is_white_exec(c: char) -> (r: bool)
    ensures
        r == is_white(c),
{
    let u = c as u32;
    (0x9 <= u && u <= 0xD) || u == 0x20 || u == 0x85 || u == 0xA0 || u == 0x1680 || (0x2000 <= u
        && u <= 0x200A) || u == 0x2028 || u == 0x2029 || u == 0x202F || u == 0x205F || u == 0x3000
}

/// `s` without leading white space.
pub open spec fn trim_start(s: Seq<char>) -> Seq<char>
    decreases s.len(),
{
    if s.len() > 0 && is_white(s[0]) {
        trim_start(s.skip(1))
    } else {
        s
    }
}

/// `s` without trailing white space.
pub open spec fn trim_end(s: Seq<char>) -> Seq<char>
    decreases s.len(),
{
    if s.len() > 0 && is_white(s.last()) {
        trim_end(s.drop_last())
    } else {
        s
    }
}

/// `str::trim`.
pub open spec fn trimmed(s: Seq<char>) -> Seq<char> {
    trim_end(trim_start(s))
}

/// Removes leading and trailing white space.
pub fn trim(s: &[char]) -> (r: Vec<char>)
    ensures
        r@ == trimmed(s@),
{
    let mut a: usize = 0;
    assert(s@.skip(0) =~= s@);
    while a < s.len() && is_white_exec(s[a])
        invariant
            a <= s.len(),
            trim_start(s@.skip(a as int)) == trim_start(s@),
        decreases s.len() - a,
    {
        assert(s@.skip(a as int).skip(1) =~= s@.skip(a + 1));
        a = a + 1;
    }
    let mut b: usize = s.len();
    let ghost t = s@.skip(a as int);
    assert(trim_start(s@) == t);
    assert(t.take(t.len() as int) =~= t);
    while b > a && is_white_exec(s[b - 1])
        invariant
            a <= b <= s.len(),
            t == s@.skip(a as int),
            trim_end(s@.subrange(a as int, b as int)) == trim_end(t),
        decreases b,
    {
        assert(s@.subrange(a as int, b as int).drop_last() =~= s@.subrange(a as int, b - 1));
        b = b - 1;
    }
    proof {
        if a == b {
            assert(s@.subrange(a as int, b as int).len() == 0);
        }
    }
    assert(s@.subrange(a as int, s.len() as int) =~= t);
    slice_chars(s, a, b)
}

/// `s` without its trailing occurrences of `c` (`str::trim_end_matches` with a `char`).
pub open spec fn trim_end_char(s: Seq<char>, c: char) -> Seq<char>
    decreases s.len(),
{
    if s.len() > 0 && s.last() == c {
        trim_end_char(s.drop_last(), c)
    } else {
        s
    }
}

pub fn trim_end_matching(s: &[char], c: char) -> (r: Vec<char>)
    ensures
        r@ == trim_end_char(s@, c),
{
    let mut b: usize = s.len();
    assert(s@.subrange(0, b as int) =~= s@);
    while b > 0 && s[b - 1] == c
        invariant
            b <= s.len(),
            trim_end_char(s@.subrange(0, b as int), c) == trim_end_char(s@, c),
        decreases b,
    {
        assert(s@.subrange(0, b as int).drop_last() =~= s@.subrange(0, b - 1));
        b = b - 1;
    }
    slice_chars(s, 0, b)
}

/// `str::strip_prefix`.
pub open spec fn without_prefix(s: Seq<char>, p: Seq<char>) -> Option<Seq<char>> {
    if has_prefix(s, p) {
        Some(s.skip(p.len() as int))
    } else {
        None
    }
}

pub fn strip_prefix(s: &[char], p: &[char]) -> (r: Option<Vec<char>>)
    ensures
        r matches Some(v) ==> without_prefix(s@, p@) == Some(v@),
        r is None ==> without_prefix(s@, p@) is None,
{
    if starts_with(s, p) {
        let v = slice_chars(s, p.len(), s.len());
        assert(v@ =~= s@.skip(p.len() as int));
        Some(v)
    } else {
        None
    }
}

/// The lines of `s` as `str::lines` yields them: pieces between line feeds,
/// without a final empty piece, and without the carriage return that
/// precedes a line feed.
pub open spec fn lines_of(s: Seq<char>) -> Seq<Seq<char>> {
    let parts = split_on(s, '\n');
    let n = parts.len();
    let ended = Seq::new((n - 1) as nat, |i: int| strip_cr(parts[i]));
    if parts[n - 1].len() == 0 {
        ended
    } else {
        ended.push(parts[n - 1])
    }
}

/// A line that was ended by a line feed loses one trailing carriage return.
pub open spec fn strip_cr(line: Seq<char>) -> Seq<char> {
    if line.len() > 0 && line.last() == '\r' {
        line.drop_last()
    } else {
        line
    }
}

fn strip_cr_exec(line: &[char]) -> (r: Vec<char>)
    ensures
        r@ == strip_cr(line@),
{
    if line.len() > 0 && line[line.len() - 1] == '\r' {
        slice_chars(line, 0, line.len() - 1)
    } else {
        slice_chars(line, 0, line.len())
    }
}

/// Splits `s` into lines (`str::lines`).
pub fn lines(s: &[char]) -> (r: Vec<Vec<char>>)
    ensures
        views(r@) == lines_of(s@),
{
    let parts = split_char(s, '\n');
    proof { lemma_split_on_nonempty(s@, '\n'); }
    let n = parts.len();
    let mut out: Vec<Vec<char>> = Vec::new();
    let mut i: usize = 0;
    while i + 1 < n
        invariant
            n == parts.len(),
            n >= 1,
            views(parts@) == split_on(s@, '\n'),
            i < n,
            views(out@) == Seq::new(i as nat, |k: int| strip_cr(split_on(s@, '\n')[k])),
        decreases n - i,
    {
        let line = strip_cr_exec(&parts[i]);
        assert(views(parts@)[i as int] == parts@[i as int]@);
        let ghost before = out@;
        out.push(line);
        assert(views(out@) =~= views(before).push(line@));
        assert(views(out@) =~= Seq::new((i + 1) as nat, |k: int| strip_cr(split_on(s@, '\n')[k])));
        i = i + 1;
    }
    assert(views(parts@)[n - 1] == parts[n - 1]@);
    let ghost mid = out@;
    let ghost ps = split_on(s@, '\n');
    assert(i == n - 1);
    assert(ps.len() == n);
    assert(views(mid) =~= Seq::new((ps.len() - 1) as nat, |k: int| strip_cr(ps[k])));
    let ghost ended = Seq::new((ps.len() - 1) as nat, |k: int| strip_cr(ps[k]));
    assert(views(parts@)[n - 1] == parts@[n - 1]@);
    assert(parts@[n - 1]@ == ps[n - 1]);
    if parts[n - 1].len() != 0 {
        let last = slice_chars(&parts[n - 1], 0, parts[n - 1].len());
        out.push(last);
        assert(views(out@) =~= views(mid).push(last@));
        assert(last@ == ps[n - 1]);
        assert(lines_of(s@) == ended.push(ps[n - 1]));
    } else {
        assert(lines_of(s@) == ended);
    }
    assert(views(out@) =~= lines_of(s@));
    out
}


/// Tests two character sequences for equality.
pub fn same_chars(a: &[char], b: &[char]) -> (r: bool)
    ensures
        r == (a@ == b@),
{
    if a.len() != b.len() {
        return false;
    }
    let r = matches_at(a, b, 0);
    assert(r ==> a@ =~= b@) by {
        if r {
            assert(a@.subrange(0, b@.len() as int) =~= a@);
        }
    }
    assert(a@ == b@ ==> r) by {
        if a@ == b@ {
            assert(a@.subrange(0, b@.len() as int) =~= a@);
        }
    }
    r
}


/// Without `c`, a sequence is a single piece.
pub proof fn lemma_split_on_absent(s: Seq<char>, c: char)
    requires
        !s.contains(c),
    ensures
        split_on(s, c) == seq![s],
    decreases s.len(),
{
    if s.len() > 0 {
        assert(!s.drop_last().contains(c)) by {
            if s.drop_last().contains(c) {
                let j = choose|j: int| 0 <= j < s.drop_last().len() && s.drop_last()[j] == c;
                assert(s[j] == c);
            }
        }
        lemma_split_on_absent(s.drop_last(), c);
        assert(s.last() != c) by {
            assert(s[s.len() - 1] == s.last());
        }
        assert(seq![s.drop_last()].update(0, s.drop_last().push(s.last())) =~= seq![s]) by {
            assert(s.drop_last().push(s.last()) =~= s);
        }
    } else {
        assert(s =~= Seq::<char>::empty());
    }
}

/// Appending text without `c` extends the last piece.
pub proof fn lemma_split_on_append(p: Seq<char>, y: Seq<char>, c: char)
    requires
        !y.contains(c),
    ensures
        split_on(p + y, c) == split_on(p, c).update(split_on(p, c).len() - 1, split_on(p, c).last() + y),
    decreases y.len(),
{
    lemma_split_on_nonempty(p, c);
    if y.len() == 0 {
        assert(p + y =~= p);
        assert(split_on(p, c).last() + y =~= split_on(p, c).last());
        assert(split_on(p, c).update(split_on(p, c).len() - 1, split_on(p, c).last()) =~= split_on(p, c));
    } else {
        let y0 = y.drop_last();
        assert(!y0.contains(c)) by {
            if y0.contains(c) {
                let j = choose|j: int| 0 <= j < y0.len() && y0[j] == c;
                assert(y[j] == c);
            }
        }
        assert(y.last() != c) by {
            assert(y[y.len() - 1] == y.last());
        }
        lemma_split_on_append(p, y0, c);
        assert((p + y).drop_last() =~= p + y0);
        assert((p + y).last() == y.last());
        lemma_split_on_nonempty(p + y0, c);
        let sp = split_on(p, c);
        assert(split_on(p + y, c) =~= sp.update(sp.len() - 1, sp.last() + y)) by {
            assert(sp.last() + y0 + seq![y.last()] =~= sp.last() + y);
            assert((sp.last() + y0).push(y.last()) =~= sp.last() + y);
        }
    }
}

/// Two pieces without `c`, joined by `c`, split back into those two pieces.
pub proof fn lemma_split_two(x: Seq<char>, y: Seq<char>, c: char)
    requires
        !x.contains(c),
        !y.contains(c),
    ensures
        split_on(x + seq![c] + y, c) == seq![x, y],
{
    lemma_split_on_absent(x, c);
    assert((x + seq![c]).drop_last() =~= x);
    assert((x + seq![c]).last() == c);
    assert(split_on(x + seq![c], c) == seq![x].push(Seq::<char>::empty()));
    lemma_split_on_append(x + seq![c], y, c);
    assert(seq![x].push(Seq::<char>::empty()).update(1, Seq::<char>::empty() + y) =~= seq![x, y]) by {
        assert(Seq::<char>::empty() + y =~= y);
    }
}

}
