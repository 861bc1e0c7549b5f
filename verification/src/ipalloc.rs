//! Choosing a guest address inside a network's CIDR block.

use vstd::prelude::*;
use vstd::string::StrSliceExecFns;
use crate::rootfs::views;
use crate::storage::{decimal, decimal_text};
use crate::text::{has_prefix, has_suffix, owned, push_char, push_str, str_eq};

verus! {

/// The pieces of `s` after the partial piece `cur`, split at `sep`, as `str::split` yields them.
pub open spec fn pieces_from(s: Seq<char>, sep: char, cur: Seq<char>) -> Seq<Seq<char>>
    decreases s.len(),
{
    if s.len() == 0 {
        seq![cur]
    } else if s[0] == sep {
        seq![cur] + pieces_from(s.drop_first(), sep, Seq::empty())
    } else {
        pieces_from(s.drop_first(), sep, cur.push(s[0]))
    }
}

/// The pieces of `s` split at `sep`.
pub open spec fn pieces(s: Seq<char>, sep: char) -> Seq<Seq<char>> {
    pieces_from(s, sep, Seq::empty())
}

/// Splits `s` at every `sep`.
pub fn split_at_char(s: &str, sep: char) -> (v: Vec<String>)
    ensures
        views(v@) == pieces(s@, sep),
        v@.len() >= 1,
{
    let n = s.unicode_len();
    let mut out: Vec<String> = Vec::new();
    let mut cur = String::new();
    let mut i: usize = 0;
    assert(s@.subrange(0, n as int) =~= s@);
    assert(views(out@) + pieces(s@, sep) =~= pieces(s@, sep));
    while i < n
        invariant
            0 <= i <= n,
            n == s@.len(),
            pieces(s@, sep) == views(out@) + pieces_from(s@.subrange(i as int, n as int), sep, cur@),
        decreases n - i,
    {
        let c = s.get_char(i);
        let ghost rest = s@.subrange(i as int, n as int);
        assert(rest.drop_first() =~= s@.subrange(i + 1, n as int));
        if c == sep {
            proof {
                assert(views(out@.push(cur)) =~= views(out@).push(cur@));
                assert(views(out@) + (seq![cur@] + pieces_from(rest.drop_first(), sep, Seq::empty()))
                    =~= views(out@).push(cur@) + pieces_from(rest.drop_first(), sep, Seq::empty()));
            }
            out.push(cur);
            cur = String::new();
        } else {
            push_char(&mut cur, c);
        }
        i = i + 1;
    }
    assert(s@.subrange(n as int, n as int) =~= Seq::<char>::empty());
    proof {
        assert(views(out@.push(cur)) =~= views(out@).push(cur@));
        assert(views(out@) + seq![cur@] =~= views(out@).push(cur@));
    }
    out.push(cur);
    out
}

/// The value of a decimal digit character.
pub open spec fn digit_value(c: char) -> int {
    (c as u32) - ('0' as u32)
}

/// Whether `c` is a decimal digit.
pub open spec fn is_digit(c: char) -> bool {
    '0' <= c <= '9'
}

/// Parsing the decimal digits `d` into a `u8`, after `acc` has been read:
/// the first non-digit is an invalid digit, and a value past 255 an overflow.
pub open spec fn digits_u8(d: Seq<char>, acc: int) -> Result<u8, Seq<char>>
    decreases d.len(),
{
    if d.len() == 0 {
        Ok(acc as u8)
    } else if !is_digit(d[0]) {
        Err("invalid digit found in string"@)
    } else if acc * 10 + digit_value(d[0]) > 255 {
        Err("number too large to fit in target type"@)
    } else {
        digits_u8(d.drop_first(), acc * 10 + digit_value(d[0]))
    }
}

/// What `str::parse::<u8>` gives for `s`: an optional leading `+`, then
/// decimal digits; the error is the text the parse error displays.
pub open spec fn parse_u8(s: Seq<char>) -> Result<u8, Seq<char>> {
    if s.len() == 0 {
        Err("cannot parse integer from empty string"@)
    } else if s[0] == '+' {
        if s.len() == 1 {
            Err("invalid digit found in string"@)
        } else {
            digits_u8(s.drop_first(), 0)
        }
    } else if s[0] == '-' && s.len() == 1 {
        Err("invalid digit found in string"@)
    } else {
        digits_u8(s, 0)
    }
}

/// Parses a decimal `u8` as `str::parse::<u8>` does.
pub fn parse_u8_text(s: &str) -> (r: Result<u8, String>)
    ensures
        match parse_u8(s@) {
            Ok(v) => r == Ok::<u8, String>(v),
            Err(m) => r matches Err(e) && e@ == m,
        },
{
    let n = s.unicode_len();
    if n == 0 {
        return Err(owned("cannot parse integer from empty string"));
    }
    let first = s.get_char(0);
    let start: usize = if first == '+' { 1 } else { 0 };
    if n == 1 && (first == '+' || first == '-') {
        return Err(owned("invalid digit found in string"));
    }
    let ghost d = s@.subrange(start as int, n as int);
    assert(start == 1 ==> d =~= s@.drop_first());
    assert(start == 0 ==> d =~= s@);
    assert(parse_u8(s@) == digits_u8(d, 0));
    assert(s@.subrange(start as int, n as int) == d);
    let mut acc: u32 = 0;
    let mut i: usize = start;
    while i < n
        invariant
            start <= i <= n,
            n == s@.len(),
            acc <= 255,
            parse_u8(s@) == digits_u8(d, 0),
            digits_u8(d, 0) == digits_u8(s@.subrange(i as int, n as int), acc as int),
        decreases n - i,
    {
        let c = s.get_char(i);
        let ghost rest = s@.subrange(i as int, n as int);
        assert(rest.drop_first() =~= s@.subrange(i + 1, n as int));
        assert(rest[0] == c);
        if !('0' <= c && c <= '9') {
            return Err(owned("invalid digit found in string"));
        }
        let v = (c as u32) - ('0' as u32);
        if acc * 10 + v > 255 {
            return Err(owned("number too large to fit in target type"));
        }
        acc = acc * 10 + v;
        i = i + 1;
    }
    assert(s@.subrange(n as int, n as int) =~= Seq::<char>::empty());
    Ok(acc as u8)
}

/// The address with the given octets, written in decimal.
pub open spec fn candidate_text(o0: u8, o1: u8, o2: u8, k: u8) -> Seq<char> {
    decimal_text(o0 as u64) + "."@ + decimal_text(o1 as u64) + "."@ + decimal_text(o2 as u64) + "."@
        + decimal_text(k as u64)
}

/// The address part of an address that may carry a `/prefix`.
pub open spec fn host_part(ip: Seq<char>) -> Seq<char> {
    pieces(ip, '/')[0]
}

/// The first last octet from `k` up to 254 whose address is not taken.
pub open spec fn first_free(o0: u8, o1: u8, o2: u8, taken: Seq<Seq<char>>, k: int) -> Option<u8>
    decreases 255 - k,
{
    if k > 254 || k < 0 {
        None
    } else if !taken.contains(candidate_text(o0, o1, o2, k as u8)) {
        Some(k as u8)
    } else {
        first_free(o0, o1, o2, taken, k + 1)
    }
}

/// The four octets of a dotted address, or the error of the first that does not parse.
pub open spec fn octets(o: Seq<Seq<char>>) -> Result<(u8, u8, u8, u8), Seq<char>>
    recommends
        o.len() == 4,
{
    match parse_u8(o[0]) {
        Err(e) => Err(e),
        Ok(a) => match parse_u8(o[1]) {
            Err(e) => Err(e),
            Ok(b) => match parse_u8(o[2]) {
                Err(e) => Err(e),
                Ok(c) => match parse_u8(o[3]) {
                    Err(e) => Err(e),
                    Ok(d) => Ok((a, b, c, d)),
                },
            },
        },
    }
}

/// The address given to a new interface of a network with block `cidr`
/// when `assigned` are taken: the first of `.2` to `.254` in the block's
/// first three octets that is free, with the block's prefix length.
pub open spec fn allocation(cidr: Seq<char>, assigned: Seq<Seq<char>>) -> Result<Seq<char>, Seq<char>> {
    let parts = pieces(cidr, '/');
    if parts.len() != 2 {
        Err("Invalid CIDR format: "@ + cidr)
    } else if pieces(parts[0], '.').len() != 4 {
        Err("Invalid IP address in CIDR: "@ + parts[0])
    } else {
        match octets(pieces(parts[0], '.')) {
            Err(e) => Err(e),
            Ok((a, b, c, _d)) => match first_free(a, b, c, assigned.map_values(|ip: Seq<char>| host_part(ip)), 2) {
                Some(k) => Ok(candidate_text(a, b, c, k) + "/"@ + parts[1]),
                None => Err("No available IPs in network "@ + cidr),
            },
        }
    }
}

/// Splitting text with no separator in `s[..k]` and a separator at `k`
/// gives the partial piece and `s[..k]` as one piece, then the pieces of
/// what follows the separator.
proof fn lemma_pieces_at(s: Seq<char>, sep: char, cur: Seq<char>, k: int)
    requires
        0 <= k < s.len(),
        s[k] == sep,
        forall|i: int| 0 <= i < k ==> s[i] != sep,
    ensures
        pieces_from(s, sep, cur) == seq![cur + s.subrange(0, k)] + pieces_from(s.subrange(k + 1, s.len() as int), sep, Seq::empty()),
    decreases k,
{
    if k == 0 {
        assert(s.drop_first() =~= s.subrange(1, s.len() as int));
        assert(cur + s.subrange(0, 0) =~= cur);
    } else {
        let t = s.drop_first();
        lemma_pieces_at(t, sep, cur.push(s[0]), k - 1);
        assert(cur.push(s[0]) + t.subrange(0, k - 1) =~= cur + s.subrange(0, k));
        assert(t.subrange(k, t.len() as int) =~= s.subrange(k + 1, s.len() as int));
    }
}

/// Text with no separator is one piece.
proof fn lemma_pieces_none(s: Seq<char>, sep: char, cur: Seq<char>)
    requires
        forall|i: int| 0 <= i < s.len() ==> s[i] != sep,
    ensures
        pieces_from(s, sep, cur) == seq![cur + s],
    decreases s.len(),
{
    if s.len() == 0 {
        assert(cur + s =~= cur);
    } else {
        lemma_pieces_none(s.drop_first(), sep, cur.push(s[0]));
        assert(cur.push(s[0]) + s.drop_first() =~= cur + s);
    }
}

/// The address given out keeps the block's prefix length: for a CIDR
/// block with a single `/` at `k`, an allocated address ends with `/` and
/// the text of the block after its `/`.
pub proof fn allocation_keeps_prefix_length(cidr: Seq<char>, assigned: Seq<Seq<char>>, k: int)
    requires
        0 <= k < cidr.len(),
        cidr[k] == '/',
        forall|i: int| 0 <= i < cidr.len() && i != k ==> cidr[i] != '/',
    ensures
        allocation(cidr, assigned) matches Ok(ip) ==> has_suffix(ip, "/"@ + cidr.subrange(k + 1, cidr.len() as int)),
{
    lemma_pieces_at(cidr, '/', Seq::empty(), k);
    let rest = cidr.subrange(k + 1, cidr.len() as int);
    lemma_pieces_none(rest, '/', Seq::empty());
    assert(Seq::<char>::empty() + rest =~= rest);
    let parts = pieces(cidr, '/');
    assert(parts =~= seq![Seq::<char>::empty() + cidr.subrange(0, k), rest]);
    if allocation(cidr, assigned) is Ok {
        let ip = allocation(cidr, assigned)->Ok_0;
        let tail = "/"@ + rest;
        assert(ip.subrange(ip.len() - tail.len(), ip.len() as int) =~= tail);
    }
}

/// The address given out is not one already assigned (with or without a
/// prefix length), its last octet is between 2 and 254, it is written in
/// the block's first three octets, and every address of the block with a
/// lower last octet from 2 on is already assigned: it is the lowest free one.
pub proof fn allocation_is_free(cidr: Seq<char>, assigned: Seq<Seq<char>>)
    ensures
        allocation(cidr, assigned) is Ok ==> exists|a: u8, b: u8, c: u8, k: u8|
            2 <= k <= 254 && !assigned.map_values(|ip: Seq<char>| host_part(ip)).contains(#[trigger] candidate_text(a, b, c, k))
                && has_prefix(allocation(cidr, assigned)->Ok_0, candidate_text(a, b, c, k) + "/"@)
                && (octets(pieces(pieces(cidr, '/')[0], '.')) matches Ok((a2, b2, c2, _)) && a2 == a && b2 == b && c2 == c)
                && forall|j: int| 2 <= j < k ==> assigned.map_values(|ip: Seq<char>| host_part(ip)).contains(
                    #[trigger] candidate_text(a, b, c, j as u8),
                ),
{
    if allocation(cidr, assigned) is Ok {
        let parts = pieces(cidr, '/');
        let (a, b, c, d) = octets(pieces(parts[0], '.'))->Ok_0;
        let taken = assigned.map_values(|ip: Seq<char>| host_part(ip));
        let k = first_free(a, b, c, taken, 2)->Some_0;
        lemma_first_free(a, b, c, taken, 2);
        let ip = allocation(cidr, assigned)->Ok_0;
        let pre = candidate_text(a, b, c, k) + "/"@;
        assert(ip.subrange(0, pre.len() as int) =~= pre);
    }
}

/// A well-formed block runs out of addresses only when every address of it
/// from `.2` to `.254` is assigned, and is then refused with its own text.
pub proof fn allocation_fails_only_when_block_is_full(cidr: Seq<char>, assigned: Seq<Seq<char>>)
    requires
        pieces(cidr, '/').len() == 2,
        pieces(pieces(cidr, '/')[0], '.').len() == 4,
        octets(pieces(pieces(cidr, '/')[0], '.')) is Ok,
    ensures
        ({
            let (a, b, c, _d) = octets(pieces(pieces(cidr, '/')[0], '.'))->Ok_0;
            allocation(cidr, assigned) is Err <==> forall|j: int| 2 <= j <= 254
                ==> assigned.map_values(|ip: Seq<char>| host_part(ip)).contains(#[trigger] candidate_text(a, b, c, j as u8))
        }),
        allocation(cidr, assigned) is Err ==> allocation(cidr, assigned) == Err::<Seq<char>, Seq<char>>(
            "No available IPs in network "@ + cidr,
        ),
{
    let (a, b, c, _d) = octets(pieces(pieces(cidr, '/')[0], '.'))->Ok_0;
    let taken = assigned.map_values(|ip: Seq<char>| host_part(ip));
    lemma_first_free(a, b, c, taken, 2);
    if first_free(a, b, c, taken, 2) is Some {
        let f = first_free(a, b, c, taken, 2)->Some_0;
        assert(!taken.contains(candidate_text(a, b, c, (f as int) as u8)));
    }
}

/// A block without a `/` is refused as malformed.
pub proof fn cidr_without_prefix_is_refused(cidr: Seq<char>, assigned: Seq<Seq<char>>)
    requires
        forall|i: int| 0 <= i < cidr.len() ==> cidr[i] != '/',
    ensures
        allocation(cidr, assigned) == Err::<Seq<char>, Seq<char>>("Invalid CIDR format: "@ + cidr),
{
    lemma_pieces_none(cidr, '/', Seq::empty());
}

/// A free last octet found from `k` on is at least `k`, at most 254, and
/// free, and every octet from `k` below it is taken; when none is found,
/// every octet from `k` to 254 is taken.
proof fn lemma_first_free(o0: u8, o1: u8, o2: u8, taken: Seq<Seq<char>>, k: int)
    requires
        0 <= k,
    ensures
        first_free(o0, o1, o2, taken, k) matches Some(f) ==> k <= f <= 254 && !taken.contains(candidate_text(o0, o1, o2, f))
            && forall|j: int| k <= j < f ==> taken.contains(#[trigger] candidate_text(o0, o1, o2, j as u8)),
        first_free(o0, o1, o2, taken, k) is None ==> forall|j: int| k <= j <= 254
            ==> taken.contains(#[trigger] candidate_text(o0, o1, o2, j as u8)),
    decreases 255 - k,
{
    if !(k > 254 || k < 0) && taken.contains(candidate_text(o0, o1, o2, k as u8)) {
        lemma_first_free(o0, o1, o2, taken, k + 1);
    }
}

fn parse_octet(s: &String) -> (r: Result<u8, String>)
    ensures
        match parse_u8(s@) {
            Ok(v) => r == Ok::<u8, String>(v),
            Err(m) => r matches Err(e) && e@ == m,
        },
{
    parse_u8_text(s.as_str())
}

fn candidate(o0: u8, o1: u8, o2: u8, k: u8) -> (c: String)
    ensures
        c@ == candidate_text(o0, o1, o2, k),
{
    let mut c = decimal(o0 as u64);
    push_str(&mut c, ".");
    let t = decimal(o1 as u64);
    push_str(&mut c, t.as_str());
    push_str(&mut c, ".");
    let t = decimal(o2 as u64);
    push_str(&mut c, t.as_str());
    push_str(&mut c, ".");
    let t = decimal(k as u64);
    push_str(&mut c, t.as_str());
    c
}

fn contains_text(v: &Vec<String>, t: &str) -> (b: bool)
    ensures
        b == views(v@).contains(t@),
{
    let mut i: usize = 0;
    while i < v.len()
        invariant
            0 <= i <= v@.len(),
            forall|j: int| 0 <= j < i ==> v@[j]@ != t@,
        decreases v@.len() - i,
    {
        if str_eq(v[i].as_str(), t) {
            assert(views(v@)[i as int] == t@);
            return true;
        }
        i = i + 1;
    }
    assert forall|j: int| 0 <= j < views(v@).len() implies views(v@)[j] != t@ by {
        assert(views(v@)[j] == v@[j]@);
    }
    false
}

/// Picks the address of a new interface in block `cidr`, given the
/// addresses already assigned in the network (with or without a prefix length).
pub fn allocate_ip_from_cidr(cidr: &str, assigned_ips: &[String]) -> (r: Result<String, String>)
    ensures
        match allocation(cidr@, views(assigned_ips@)) {
            Ok(ip) => r matches Ok(s) && s@ == ip,
            Err(m) => r matches Err(e) && e@ == m,
        },
{
    let parts = split_at_char(cidr, '/');
    if parts.len() != 2 {
        let mut m = owned("Invalid CIDR format: ");
        push_str(&mut m, cidr);
        return Err(m);
    }
    let octs = split_at_char(parts[0].as_str(), '.');
    if octs.len() != 4 {
        let mut m = owned("Invalid IP address in CIDR: ");
        push_str(&mut m, parts[0].as_str());
        return Err(m);
    }
    assert(views(octs@)[0] == octs@[0]@ && views(octs@)[1] == octs@[1]@);
    assert(views(octs@)[2] == octs@[2]@ && views(octs@)[3] == octs@[3]@);
    let a = match parse_octet(&octs[0]) {
        Ok(v) => v,
        Err(e) => return Err(e),
    };
    let b = match parse_octet(&octs[1]) {
        Ok(v) => v,
        Err(e) => return Err(e),
    };
    let c = match parse_octet(&octs[2]) {
        Ok(v) => v,
        Err(e) => return Err(e),
    };
    let _d = match parse_octet(&octs[3]) {
        Ok(v) => v,
        Err(e) => return Err(e),
    };
    let ghost taken = views(assigned_ips@).map_values(|ip: Seq<char>| host_part(ip));
    let mut hosts: Vec<String> = Vec::new();
    let mut i: usize = 0;
    while i < assigned_ips.len()
        invariant
            0 <= i <= assigned_ips@.len(),
            taken == views(assigned_ips@).map_values(|ip: Seq<char>| host_part(ip)),
            views(hosts@) == taken.subrange(0, i as int),
        decreases assigned_ips@.len() - i,
    {
        let p = split_at_char(assigned_ips[i].as_str(), '/');
        let mut h = String::new();
        push_str(&mut h, p[0].as_str());
        proof {
            assert(views(p@)[0] == p@[0]@);
            assert(views(assigned_ips@)[i as int] == assigned_ips@[i as int]@);
            assert(taken[i as int] == host_part(assigned_ips@[i as int]@));
            assert(h@ =~= p@[0]@);
            assert(taken[i as int] == h@);
            assert(views(hosts@.push(h)) =~= views(hosts@).push(h@));
            assert(views(hosts@.push(h)) =~= taken.subrange(0, i + 1));
        }
        hosts.push(h);
        i = i + 1;
    }
    assert(taken.subrange(0, assigned_ips@.len() as int) =~= taken);
    assert(views(parts@)[1] == parts@[1]@);
    assert(octets(views(octs@)) == Ok::<(u8, u8, u8, u8), Seq<char>>((a, b, c, _d)));
    assert(allocation(cidr@, views(assigned_ips@)) == match first_free(a, b, c, taken, 2) {
        Some(k) => Ok(candidate_text(a, b, c, k) + "/"@ + parts@[1]@),
        None => Err::<Seq<char>, Seq<char>>("No available IPs in network "@ + cidr@),
    });
    let mut k: u8 = 2;
    while k <= 254
        invariant
            2 <= k <= 255,
            parts@.len() == 2,
            allocation(cidr@, views(assigned_ips@)) == match first_free(a, b, c, taken, 2) {
                Some(k) => Ok(candidate_text(a, b, c, k) + "/"@ + parts@[1]@),
                None => Err::<Seq<char>, Seq<char>>("No available IPs in network "@ + cidr@),
            },
            views(hosts@) == taken,
            first_free(a, b, c, taken, 2) == first_free(a, b, c, taken, k as int),
        decreases 255 - k,
    {
        let cand = candidate(a, b, c, k);
        if !contains_text(&hosts, cand.as_str()) {
            let mut ip = cand;
            push_str(&mut ip, "/");
            push_str(&mut ip, parts[1].as_str());
            return Ok(ip);
        }
        k = k + 1;
    }
    let mut m = owned("No available IPs in network ");
    push_str(&mut m, cidr);
    Err(m)
}

} // verus!
