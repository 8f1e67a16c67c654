//! Choosing the LAN address that QR codes point to.
use vstd::prelude::*;
use crate::text::{chars_of, starts_with, has_prefix};
use crate::num::{decimal, digit_char};

verus! {

/// A network interface: its address as text and whether it is a loopback.
pub struct Interface {
    pub ip: String,
    pub is_loopback: bool,
}

/// Loopback or benchmark-network (virtual adapter) address.
pub open spec fn is_virtual(ip: Seq<char>) -> bool {
    has_prefix(ip, "127."@) || has_prefix(ip, "198.18."@) || has_prefix(ip, "198.19."@)
}

/// A private LAN address: `192.168.`, `10.` or `172.16.` to `172.31.`.
pub open spec fn is_private(ip: Seq<char>) -> bool {
    has_prefix(ip, "192.168."@) || has_prefix(ip, "10."@)
        || has_prefix(ip, "172.16."@) || has_prefix(ip, "172.17."@) || has_prefix(ip, "172.18."@)
        || has_prefix(ip, "172.19."@) || has_prefix(ip, "172.20."@) || has_prefix(ip, "172.21."@)
        || has_prefix(ip, "172.22."@) || has_prefix(ip, "172.23."@) || has_prefix(ip, "172.24."@)
        || has_prefix(ip, "172.25."@) || has_prefix(ip, "172.26."@) || has_prefix(ip, "172.27."@)
        || has_prefix(ip, "172.28."@) || has_prefix(ip, "172.29."@) || has_prefix(ip, "172.30."@)
        || has_prefix(ip, "172.31."@)
}

/// Preference of an address: `192.168.` first, then `10.`, then the rest.
pub open spec fn ip_score(ip: Seq<char>) -> nat {
    if has_prefix(ip, "192.168."@) { 0 } else if has_prefix(ip, "10."@) { 1 } else { 2 }
}

pub open spec fn is_candidate(i: Interface) -> bool {
    !is_virtual(i.ip@) && !i.is_loopback && is_private(i.ip@)
}

/// The first candidate, in interface order, whose score is `k`.
pub open spec fn first_with_score(ifaces: Seq<Interface>, k: nat) -> Option<Seq<char>>
    decreases ifaces.len(),
{
    if ifaces.len() == 0 {
        None
    } else if is_candidate(ifaces[0]) && ip_score(ifaces[0].ip@) == k {
        Some(ifaces[0].ip@)
    } else {
        first_with_score(ifaces.skip(1), k)
    }
}

/// The preferred candidate: the first one after a stable sort by score.
pub open spec fn best_candidate(ifaces: Seq<Interface>) -> Option<Seq<char>> {
    match first_with_score(ifaces, 0) {
        Some(ip) => Some(ip),
        None => match first_with_score(ifaces, 1) {
            Some(ip) => Some(ip),
            None => first_with_score(ifaces, 2),
        },
    }
}

/// The LAN address: the preferred candidate interface; else the system's
/// own choice `fallback` unless it is virtual; else `127.0.0.1`.
pub open spec fn lan_ip_choice(ifaces: Seq<Interface>, fallback: Option<Seq<char>>) -> Seq<char> {
    match best_candidate(ifaces) {
        Some(ip) => ip,
        None => match fallback {
            Some(s) => if is_virtual(s) { "127.0.0.1"@ } else { s },
            None => "127.0.0.1"@,
        },
    }
}

fn is_virtual_exec(ip: &[char]) -> (r: bool)
    ensures
        r == is_virtual(ip@),
{
    starts_with(ip, &chars_of("127.")) || starts_with(ip, &chars_of("198.18.")) || starts_with(ip, &chars_of("198.19."))
}

fn is_private_exec(ip: &[char]) -> (r: bool)
    ensures
        r == is_private(ip@),
{
    starts_with(ip, &chars_of("192.168.")) || starts_with(ip, &chars_of("10."))
        || starts_with(ip, &chars_of("172.16.")) || starts_with(ip, &chars_of("172.17."))
        || starts_with(ip, &chars_of("172.18.")) || starts_with(ip, &chars_of("172.19."))
        || starts_with(ip, &chars_of("172.20.")) || starts_with(ip, &chars_of("172.21."))
        || starts_with(ip, &chars_of("172.22.")) || starts_with(ip, &chars_of("172.23."))
        || starts_with(ip, &chars_of("172.24.")) || starts_with(ip, &chars_of("172.25."))
        || starts_with(ip, &chars_of("172.26.")) || starts_with(ip, &chars_of("172.27."))
        || starts_with(ip, &chars_of("172.28.")) || starts_with(ip, &chars_of("172.29."))
        || starts_with(ip, &chars_of("172.30.")) || starts_with(ip, &chars_of("172.31."))
}

fn score_exec(ip: &[char]) -> (r: u64)
    ensures
        r == ip_score(ip@),
{
    if starts_with(ip, &chars_of("192.168.")) { 0 } else if starts_with(ip, &chars_of("10.")) { 1 } else { 2 }
}

fn first_with_score_exec(ifaces: &Vec<Interface>, k: u64) -> (r: Option<String>)
    ensures
        r matches Some(s) ==> first_with_score(ifaces@, k as nat) == Some(s@),
        r is None ==> first_with_score(ifaces@, k as nat) is None,
{
    let mut i: usize = 0;
    assert(ifaces@.skip(0) =~= ifaces@);
    while i < ifaces.len()
        invariant
            i <= ifaces.len(),
            first_with_score(ifaces@, k as nat) == first_with_score(ifaces@.skip(i as int), k as nat),
        decreases ifaces.len() - i,
    {
        assert(ifaces@.skip(i as int)[0] == ifaces@[i as int]);
        assert(ifaces@.skip(i as int).skip(1) =~= ifaces@.skip(i + 1));
        let ip = chars_of(ifaces[i].ip.as_str());
        if !is_virtual_exec(&ip) && !ifaces[i].is_loopback && is_private_exec(&ip) && score_exec(&ip) == k {
            return Some(ifaces[i].ip.clone());
        }
        i = i + 1;
    }
    None
}

/// Picks the address that QR codes and links use.
pub fn choose_lan_ip(ifaces: &Vec<Interface>, fallback: Option<String>) -> (r: String)
    ensures
        r@ == lan_ip_choice(ifaces@, match fallback { Some(s) => Some(s@), None => None::<Seq<char>> }),
{
    if let Some(ip) = first_with_score_exec(ifaces, 0) {
        return ip;
    }
    if let Some(ip) = first_with_score_exec(ifaces, 1) {
        return ip;
    }
    if let Some(ip) = first_with_score_exec(ifaces, 2) {
        return ip;
    }
    match fallback {
        Some(s) => {
            if is_virtual_exec(&chars_of(s.as_str())) {
                String::from_str("127.0.0.1")
            } else {
                s
            }
        },
        None => String::from_str("127.0.0.1"),
    }
}


proof fn lemma_first_with_score(ifaces: Seq<Interface>, k: nat)
    ensures
        first_with_score(ifaces, k) matches Some(ip) ==> exists|j: int|
            0 <= j < ifaces.len() && is_candidate(#[trigger] ifaces[j]) && ifaces[j].ip@ == ip && ip_score(ip) == k,
        (exists|j: int| 0 <= j < ifaces.len() && is_candidate(#[trigger] ifaces[j]) && ip_score(ifaces[j].ip@) == k)
            ==> first_with_score(ifaces, k) is Some,
    decreases ifaces.len(),
{
    if ifaces.len() > 0 {
        let rest = ifaces.skip(1);
        lemma_first_with_score(rest, k);
        if let Some(ip) = first_with_score(ifaces, k) {
            if !(is_candidate(ifaces[0]) && ip_score(ifaces[0].ip@) == k) {
                let j = choose|j: int|
                    0 <= j < rest.len() && is_candidate(#[trigger] rest[j]) && rest[j].ip@ == ip && ip_score(ip) == k;
                assert(ifaces[j + 1] == rest[j]);
            }
        }
        if exists|j: int| 0 <= j < ifaces.len() && is_candidate(#[trigger] ifaces[j]) && ip_score(ifaces[j].ip@) == k {
            let j = choose|j: int| 0 <= j < ifaces.len() && is_candidate(#[trigger] ifaces[j]) && ip_score(ifaces[j].ip@) == k;
            if j > 0 {
                assert(rest[j - 1] == ifaces[j]);
            }
        }
    }
}

/// When some interface is a candidate, the chosen address belongs to a
/// candidate, and no candidate is preferred over it.
pub proof fn law_lan_ip_is_best_candidate(ifaces: Seq<Interface>, fallback: Option<Seq<char>>, i: int)
    requires
        0 <= i < ifaces.len(),
        is_candidate(ifaces[i]),
    ensures
        exists|j: int| 0 <= j < ifaces.len() && is_candidate(#[trigger] ifaces[j])
            && ifaces[j].ip@ == lan_ip_choice(ifaces, fallback),
        ip_score(lan_ip_choice(ifaces, fallback)) <= ip_score(ifaces[i].ip@),
{
    lemma_first_with_score(ifaces, 0);
    lemma_first_with_score(ifaces, 1);
    lemma_first_with_score(ifaces, 2);
    let k = ip_score(ifaces[i].ip@);
    assert(k <= 2);
    assert(is_candidate(ifaces[i]) && ip_score(ifaces[i].ip@) == k);
}


proof fn lemma_prefix_of_equal(ip: Seq<char>, p: Seq<char>, q: Seq<char>)
    requires
        has_prefix(ip, p),
        p == q,
    ensures
        has_prefix(ip, q),
{
}

/// Every address of the private block 172.16.0.0/12 is a private LAN
/// address: one that starts with `172.<k>.` for `k` from 16 to 31.
pub proof fn law_private_172_block(ip: Seq<char>, k: nat)
    requires
        16 <= k <= 31,
        has_prefix(ip, "172."@ + decimal(k) + "."@),
    ensures
        is_private(ip),
{
    reveal_strlit("172.");
    reveal_strlit(".");
    assert(decimal(k) == seq![digit_char(k / 10), digit_char(k % 10)]) by {
        reveal_with_fuel(decimal, 2);
        assert(decimal(k / 10) == seq![digit_char(k / 10)]);
    }
    let p = "172."@ + decimal(k) + "."@;
    let t = k / 10;
    let u = k % 10;
    assert(p =~= seq!['1', '7', '2', '.', digit_char(t), digit_char(u), '.']);
    assert(digit_char(t) == (48 + t) as char);
    assert(digit_char(u) == (48 + u) as char);
    assert(((48 + t) as char) as u32 == 48 + t);
    assert(((48 + u) as char) as u32 == 48 + u);
    assert(t == 1 ==> digit_char(t) == '1');
    assert(t == 2 ==> digit_char(t) == '2');
    assert(t == 3 ==> digit_char(t) == '3');
    assert(u == 0 ==> digit_char(u) == '0');
    assert(u == 1 ==> digit_char(u) == '1');
    assert(u == 2 ==> digit_char(u) == '2');
    assert(u == 3 ==> digit_char(u) == '3');
    assert(u == 4 ==> digit_char(u) == '4');
    assert(u == 5 ==> digit_char(u) == '5');
    assert(u == 6 ==> digit_char(u) == '6');
    assert(u == 7 ==> digit_char(u) == '7');
    assert(u == 8 ==> digit_char(u) == '8');
    assert(u == 9 ==> digit_char(u) == '9');
    if k == 16 { reveal_strlit("172.16."); assert(p =~= "172.16."@); lemma_prefix_of_equal(ip, p, "172.16."@); }
    else if k == 17 { reveal_strlit("172.17."); assert(p =~= "172.17."@); lemma_prefix_of_equal(ip, p, "172.17."@); }
    else if k == 18 { reveal_strlit("172.18."); assert(p =~= "172.18."@); lemma_prefix_of_equal(ip, p, "172.18."@); }
    else if k == 19 { reveal_strlit("172.19."); assert(p =~= "172.19."@); lemma_prefix_of_equal(ip, p, "172.19."@); }
    else if k == 20 { reveal_strlit("172.20."); assert(p =~= "172.20."@); lemma_prefix_of_equal(ip, p, "172.20."@); }
    else if k == 21 { reveal_strlit("172.21."); assert(p =~= "172.21."@); lemma_prefix_of_equal(ip, p, "172.21."@); }
    else if k == 22 { reveal_strlit("172.22."); assert(p =~= "172.22."@); lemma_prefix_of_equal(ip, p, "172.22."@); }
    else if k == 23 { reveal_strlit("172.23."); assert(p =~= "172.23."@); lemma_prefix_of_equal(ip, p, "172.23."@); }
    else if k == 24 { reveal_strlit("172.24."); assert(p =~= "172.24."@); lemma_prefix_of_equal(ip, p, "172.24."@); }
    else if k == 25 { reveal_strlit("172.25."); assert(p =~= "172.25."@); lemma_prefix_of_equal(ip, p, "172.25."@); }
    else if k == 26 { reveal_strlit("172.26."); assert(p =~= "172.26."@); lemma_prefix_of_equal(ip, p, "172.26."@); }
    else if k == 27 { reveal_strlit("172.27."); assert(p =~= "172.27."@); lemma_prefix_of_equal(ip, p, "172.27."@); }
    else if k == 28 { reveal_strlit("172.28."); assert(p =~= "172.28."@); lemma_prefix_of_equal(ip, p, "172.28."@); }
    else if k == 29 { reveal_strlit("172.29."); assert(p =~= "172.29."@); lemma_prefix_of_equal(ip, p, "172.29."@); }
    else if k == 30 { reveal_strlit("172.30."); assert(p =~= "172.30."@); lemma_prefix_of_equal(ip, p, "172.30."@); }
    else { reveal_strlit("172.31."); assert(p =~= "172.31."@); lemma_prefix_of_equal(ip, p, "172.31."@); }
}

/// A private LAN address (`10.`, `192.168.`, or `172.16.` to `172.31.`) on an
/// interface that is not a loopback is a candidate, and when it is the only
/// interface it is the address chosen, whatever the system's own choice.
pub proof fn law_private_address_chosen(iface: Interface, k: nat, fallback: Option<Seq<char>>)
    requires
        !iface.is_loopback,
        has_prefix(iface.ip@, "10."@) || has_prefix(iface.ip@, "192.168."@)
            || (16 <= k <= 31 && has_prefix(iface.ip@, "172."@ + decimal(k) + "."@)),
    ensures
        is_candidate(iface),
        lan_ip_choice(seq![iface], fallback) == iface.ip@,
{
    let ip = iface.ip@;
    reveal_strlit("10.");
    reveal_strlit("192.168.");
    reveal_strlit("172.");
    reveal_strlit("127.");
    reveal_strlit("198.18.");
    reveal_strlit("198.19.");
    if !(has_prefix(ip, "10."@) || has_prefix(ip, "192.168."@)) {
        law_private_172_block(ip, k);
        assert(ip.subrange(0, 4)[1] == ip[1]);
        assert(("172."@ + decimal(k) + "."@)[1] == '7');
        assert(ip[1] == '7');
    } else if has_prefix(ip, "10."@) {
        assert(ip.subrange(0, 3)[1] == ip[1]);
        assert(ip[1] == '0');
    } else {
        assert(ip.subrange(0, 8)[1] == ip[1]);
        assert(ip[1] == '9');
        assert(ip.subrange(0, 8)[2] == ip[2]);
        assert(ip[2] == '2');
    }
    assert(!has_prefix(ip, "127."@)) by {
        if has_prefix(ip, "127."@) { assert(ip.subrange(0, 4)[1] == ip[1]); assert(ip.subrange(0, 4)[2] == ip[2]); }
    }
    assert(!has_prefix(ip, "198.18."@)) by {
        if has_prefix(ip, "198.18."@) { assert(ip.subrange(0, 7)[1] == ip[1]); assert(ip.subrange(0, 7)[2] == ip[2]); }
    }
    assert(!has_prefix(ip, "198.19."@)) by {
        if has_prefix(ip, "198.19."@) { assert(ip.subrange(0, 7)[1] == ip[1]); assert(ip.subrange(0, 7)[2] == ip[2]); }
    }
    assert(is_candidate(iface));
    let s = seq![iface];
    assert(s.skip(1) =~= Seq::<Interface>::empty());
    assert(s[0] == iface);
    let sc = ip_score(ip);
    assert(first_with_score(s, sc) == Some(ip));
    if sc == 1 {
        assert(first_with_score(s, 0) is None) by {
            assert(first_with_score(s.skip(1), 0) is None);
        }
    } else if sc == 2 {
        assert(first_with_score(s, 0) is None) by {
            assert(first_with_score(s.skip(1), 0) is None);
        }
        assert(first_with_score(s, 1) is None) by {
            assert(first_with_score(s.skip(1), 1) is None);
        }
    }
}

}
