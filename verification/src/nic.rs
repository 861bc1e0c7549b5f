//! Naming a VM's additional network interfaces: the guest interface id
//! (`eth<index>`, `eth0` being the primary one) and the host TAP device.

use vstd::prelude::*;
use vstd::string::StrSliceExecFns;
use crate::guest_net::{trim, trim_ws};
use crate::ipalloc::{digit_value, is_digit};
use crate::provision::{ascii_lower, ascii_lowercase, push_hex_byte, string_views};
use crate::storage::{decimal, decimal_text, hex_lower};
use crate::text::{has_prefix, owned, push_str, starts_with, str_eq};

verus! {

/// `s` with ASCII letters lowercased.
pub open spec fn lowered(s: Seq<char>) -> Seq<char> {
    s.map_values(|c: char| ascii_lower(c))
}

/// Whether two names are equal when ASCII letters are compared without case.
pub open spec fn same_ignoring_ascii_case(a: Seq<char>, b: Seq<char>) -> bool {
    lowered(a) == lowered(b)
}

/// Whether every character of `s` is a decimal digit.
pub open spec fn all_digits(s: Seq<char>) -> bool {
    forall|i: int| 0 <= i < s.len() ==> is_digit(#[trigger] s[i])
}

/// The value of the decimal digits `d`.
pub open spec fn digits_value(d: Seq<char>) -> nat
    decreases d.len(),
{
    if d.len() == 0 {
        0
    } else {
        digits_value(d.drop_last()) * 10 + digit_value(d.last()) as nat
    }
}

/// What `str::parse::<u32>` accepts: an optional `+`, then one or more
/// decimal digits whose value fits in 32 bits.
pub open spec fn parsed_u32(s: Seq<char>) -> Option<u32> {
    let d = if s.len() > 0 && s[0] == '+' { s.drop_first() } else { s };
    if d.len() > 0 && all_digits(d) && digits_value(d) <= u32::MAX {
        Some(digits_value(d) as u32)
    } else {
        None
    }
}

/// The index of an interface named `eth<index>`, if its name reads so.
pub open spec fn eth_number(name: Seq<char>) -> Option<u32> {
    if has_prefix(name, "eth"@) {
        parsed_u32(name.subrange(3, name.len() as int))
    } else {
        None
    }
}

/// The largest interface index among `names`, or 0 when none has one.
pub open spec fn max_eth_number(names: Seq<Seq<char>>) -> nat
    decreases names.len(),
{
    if names.len() == 0 {
        0
    } else {
        let m = max_eth_number(names.drop_last());
        match eth_number(names.last()) {
            Some(v) => if v > m { v as nat } else { m },
            None => m,
        }
    }
}

/// Why a requested interface id `t` (already trimmed and lowercased) is
/// refused, if it is, in the order the checks are made.
pub open spec fn requested_iface_error(t: Seq<char>, existing: Seq<Seq<char>>) -> Option<Seq<char>> {
    if !has_prefix(t, "eth"@) {
        Some("interface id must start with eth"@)
    } else if t == "eth0"@ {
        Some("eth0 is reserved for the primary interface"@)
    } else if t.len() <= 3 {
        Some("interface id must include an index, e.g. eth1"@)
    } else if !all_digits(t.subrange(3, t.len() as int)) {
        Some("interface id must be in the form eth<index>"@)
    } else if exists|i: int| 0 <= i < existing.len() && same_ignoring_ascii_case(#[trigger] existing[i], t) {
        Some("interface id already exists for this VM"@)
    } else {
        None
    }
}

/// The interface id a new NIC gets: a requested id, trimmed and lowercased,
/// if it passes the checks; otherwise, with none requested, `eth` and one
/// more than the largest index in use.
pub open spec fn iface_id_outcome(requested: Option<Seq<char>>, existing: Seq<Seq<char>>) -> Result<Seq<char>, Seq<char>> {
    match requested {
        Some(p) => {
            let t = lowered(trim_ws(p));
            match requested_iface_error(t, existing) {
                Some(e) => Err(e),
                None => Ok(t),
            }
        },
        None => Ok("eth"@ + decimal_text((max_eth_number(existing) + 1) as u64)),
    }
}

/// The largest index is at least every index in use, and is either 0 or one of them.
proof fn lemma_max_eth_number(names: Seq<Seq<char>>)
    ensures
        forall|i: int| 0 <= i < names.len() ==> (#[trigger] eth_number(names[i]) matches Some(v) ==> v <= max_eth_number(names)),
        max_eth_number(names) == 0 || exists|i: int| 0 <= i < names.len() && #[trigger] eth_number(names[i]) == Some(max_eth_number(names) as u32),
    decreases names.len(),
{
    if names.len() > 0 {
        let d = names.drop_last();
        lemma_max_eth_number(d);
        assert forall|i: int| 0 <= i < names.len() implies (#[trigger] eth_number(names[i]) matches Some(v) ==> v <= max_eth_number(names)) by {
            if i < names.len() - 1 {
                assert(names[i] == d[i]);
            }
        }
        if max_eth_number(names) != 0 {
            if max_eth_number(names) == max_eth_number(d) {
                let j = choose|j: int| 0 <= j < d.len() && #[trigger] eth_number(d[j]) == Some(max_eth_number(d) as u32);
                assert(names[j] == d[j]);
            } else {
                assert(eth_number(names[names.len() - 1]) == Some(max_eth_number(names) as u32));
            }
        }
    }
}

/// An interface id chosen when none is requested is `eth` and an index
/// larger than every index in use, and no larger than needed: one more than
/// the largest (so `eth1` for a VM whose only interface is `eth0`).
pub proof fn chosen_interface_index_is_fresh(existing: Seq<Seq<char>>)
    ensures
        iface_id_outcome(None, existing) == Ok::<Seq<char>, Seq<char>>("eth"@ + decimal_text((max_eth_number(existing) + 1) as u64)),
        forall|i: int| 0 <= i < existing.len() ==> (#[trigger] eth_number(existing[i]) matches Some(v) ==> v < max_eth_number(existing) + 1),
        max_eth_number(existing) == 0 || exists|i: int| 0 <= i < existing.len() && #[trigger] eth_number(existing[i]) == Some(max_eth_number(existing) as u32),
{
    lemma_max_eth_number(existing);
}

/// A requested `eth0` is always refused, and a requested id that matches an
/// existing one without regard to ASCII case is refused; an accepted
/// requested id starts with `eth`, is followed only by digits, and is not
/// `eth0`.
pub proof fn requested_interface_rules(t: Seq<char>, existing: Seq<Seq<char>>)
    ensures
        requested_iface_error("eth0"@, existing) is Some,
        requested_iface_error(t, existing) is None ==> has_prefix(t, "eth"@) && t != "eth0"@ && t.len() > 3
            && all_digits(t.subrange(3, t.len() as int)),
        (exists|i: int| 0 <= i < existing.len() && same_ignoring_ascii_case(#[trigger] existing[i], t))
            ==> requested_iface_error(t, existing) is Some,
{
}

proof fn lemma_digits_grow(d: Seq<char>, i: int)
    requires
        0 <= i <= d.len(),
        all_digits(d),
    ensures
        digits_value(d.take(i)) <= digits_value(d),
    decreases d.len() - i,
{
    if i < d.len() {
        lemma_digits_grow(d, i + 1);
        assert(d.take(i + 1).drop_last() =~= d.take(i));
        assert(d.take(i + 1).last() == d[i]);
        assert(is_digit(d[i]));
        assert(digits_value(d.take(i + 1)) == digits_value(d.take(i)) * 10 + digit_value(d[i]) as nat);
    } else {
        assert(d.take(i) =~= d);
    }
}

/// Parses `s[from..]` as `str::parse::<u32>` does.
fn parse_u32_from(s: &str, from: usize) -> (r: Option<u32>)
    requires
        from <= s@.len(),
    ensures
        r == parsed_u32(s@.subrange(from as int, s@.len() as int)),
{
    let n = s.unicode_len();
    let ghost t = s@.subrange(from as int, n as int);
    let mut start = from;
    if start < n && s.get_char(start) == '+' {
        start = start + 1;
    }
    let ghost d = s@.subrange(start as int, n as int);
    assert(t.len() > 0 && t[0] == '+' ==> d =~= t.drop_first());
    assert(!(t.len() > 0 && t[0] == '+') ==> d =~= t);
    if start == n {
        return None;
    }
    assert(parsed_u32(t) == (if all_digits(d) && digits_value(d) <= u32::MAX {
        Some(digits_value(d) as u32)
    } else {
        None::<u32>
    }));
    let mut acc: u64 = 0;
    let mut big = false;
    let mut i: usize = start;
    while i < n
        invariant
            start <= i <= n,
            n == s@.len(),
            start < n,
            d == s@.subrange(start as int, n as int),
            from <= start,
            t == s@.subrange(from as int, n as int),
            parsed_u32(t) == (if all_digits(d) && digits_value(d) <= u32::MAX {
                Some(digits_value(d) as u32)
            } else {
                None::<u32>
            }),
            all_digits(d.take(i - start)),
            !big ==> acc == digits_value(d.take(i - start)) && acc <= u32::MAX,
            big ==> digits_value(d.take(i - start)) > u32::MAX,
        decreases n - i,
    {
        let c = s.get_char(i);
        assert(d[i - start] == c);
        if !('0' <= c && c <= '9') {
            assert(!is_digit(d[i - start]));
            return None;
        }
        proof {
            assert(d.take(i - start + 1).drop_last() =~= d.take(i - start));
            assert(d.take(i - start + 1).last() == c);
            assert(all_digits(d.take(i - start + 1))) by {
                assert forall|k: int| 0 <= k < d.take(i - start + 1).len() implies is_digit(
                    #[trigger] d.take(i - start + 1)[k],
                ) by {
                    if k < i - start {
                        assert(d.take(i - start + 1)[k] == d.take(i - start)[k]);
                    }
                }
            }
        }
        if !big {
            let v = (c as u64) - ('0' as u64);
            let next = acc * 10 + v;
            if next > 4294967295u64 {
                big = true;
            } else {
                acc = next;
            }
        }
        i = i + 1;
    }
    assert(d.take(n - start) =~= d);
    if big {
        proof {
            lemma_digits_grow(d, n - start);
        }
        return None;
    }
    Some(acc as u32)
}

/// The index of an interface named `eth<index>`, if its name reads so.
fn eth_number_of(name: &str) -> (r: Option<u32>)
    ensures
        r == eth_number(name@),
{
    proof {
        reveal_strlit("eth");
    }
    if !starts_with(name, "eth") {
        return None;
    }
    parse_u32_from(name, 3)
}

/// Whether every character of `s` from `from` on is a decimal digit.
fn digits_from(s: &str, from: usize) -> (b: bool)
    requires
        from <= s@.len(),
    ensures
        b == all_digits(s@.subrange(from as int, s@.len() as int)),
{
    let n = s.unicode_len();
    let ghost d = s@.subrange(from as int, n as int);
    let mut i = from;
    while i < n
        invariant
            from <= i <= n,
            n == s@.len(),
            d == s@.subrange(from as int, n as int),
            forall|k: int| 0 <= k < i - from ==> is_digit(#[trigger] d[k]),
        decreases n - i,
    {
        let c = s.get_char(i);
        assert(d[i - from] == c);
        if !('0' <= c && c <= '9') {
            return false;
        }
        i = i + 1;
    }
    true
}

/// Whether some name in `names` equals `t` when ASCII case is ignored.
fn any_same_ignoring_case(names: &[String], t: &str) -> (b: bool)
    ensures
        b == exists|i: int| 0 <= i < names@.len() && same_ignoring_ascii_case(#[trigger] string_views(names@)[i], t@),
{
    let lt = ascii_lowercase(t);
    let mut i: usize = 0;
    while i < names.len()
        invariant
            0 <= i <= names@.len(),
            lt@ == lowered(t@),
            forall|k: int| 0 <= k < i ==> !same_ignoring_ascii_case(#[trigger] string_views(names@)[k], t@),
        decreases names@.len() - i,
    {
        let ln = ascii_lowercase(names[i].as_str());
        if str_eq(ln.as_str(), lt.as_str()) {
            assert(same_ignoring_ascii_case(string_views(names@)[i as int], t@));
            return true;
        }
        i = i + 1;
    }
    false
}

/// The largest interface index among `names`, or 0.
fn max_eth_number_of(names: &[String]) -> (m: u32)
    ensures
        m == max_eth_number(string_views(names@)),
{
    let mut m: u32 = 0;
    let mut i: usize = 0;
    while i < names.len()
        invariant
            0 <= i <= names@.len(),
            m == max_eth_number(string_views(names@).take(i as int)),
        decreases names@.len() - i,
    {
        proof {
            assert(string_views(names@).take(i + 1).drop_last() =~= string_views(names@).take(i as int));
            assert(string_views(names@).take(i + 1).last() == names@[i as int]@);
        }
        match eth_number_of(names[i].as_str()) {
            Some(v) => {
                if v > m {
                    m = v;
                }
            },
            None => {},
        }
        i = i + 1;
    }
    assert(string_views(names@).take(names@.len() as int) =~= string_views(names@));
    m
}

/// The interface id for a new NIC, as `iface_id_outcome` describes, given
/// the ids of the VM's existing NICs.
pub fn nic_iface_id(requested: Option<&str>, existing: &[String]) -> (r: Result<String, String>)
    requires
        requested is None ==> max_eth_number(string_views(existing@)) < u32::MAX,
    ensures
        match (r, iface_id_outcome(
            match requested { Some(p) => Some(p@), None => None },
            string_views(existing@),
        )) {
            (Ok(s), Ok(t)) => s@ == t,
            (Err(e), Err(m)) => e@ == m,
            _ => false,
        },
{
    proof {
        reveal_strlit("eth");
        reveal_strlit("eth0");
    }
    match requested {
        Some(p) => {
            let trimmed = trim(p);
            let t = ascii_lowercase(trimmed.as_str());
            if !starts_with(t.as_str(), "eth") {
                return Err(owned("interface id must start with eth"));
            }
            if str_eq(t.as_str(), "eth0") {
                return Err(owned("eth0 is reserved for the primary interface"));
            }
            if t.unicode_len() <= 3 {
                return Err(owned("interface id must include an index, e.g. eth1"));
            }
            if !digits_from(t.as_str(), 3) {
                return Err(owned("interface id must be in the form eth<index>"));
            }
            if any_same_ignoring_case(existing, t.as_str()) {
                return Err(owned("interface id already exists for this VM"));
            }
            Ok(t)
        },
        None => {
            let m = max_eth_number_of(existing);
            let mut s = owned("eth");
            let num = decimal((m + 1) as u64);
            push_str(&mut s, num.as_str());
            Ok(s)
        },
    }
}

/// `s` with every leading `eth` removed, as `str::trim_start_matches("eth")` leaves it.
pub open spec fn without_eth_prefixes(s: Seq<char>) -> Seq<char>
    decreases s.len(),
{
    if s.len() >= 3 && s.subrange(0, 3) == "eth"@ {
        without_eth_prefixes(s.subrange(3, s.len() as int))
    } else {
        s
    }
}

/// The host TAP device name of a NIC: `tap-`, the first four hex digits of
/// the VM id, `-` and the interface index (at most 15 characters for an
/// index of up to six digits).
pub open spec fn tap_name(vm_id: Seq<u8>, iface_id: Seq<char>) -> Seq<char> {
    "tap-"@ + hex_lower(vm_id.subrange(0, 2)) + "-"@ + without_eth_prefixes(iface_id)
}

/// The TAP device for a NIC, refused when a device of that name (ignoring
/// ASCII case) is already used by one of the VM's NICs.
pub fn nic_host_dev_name(vm_id: [u8; 16], iface_id: &str, existing_devs: &[String]) -> (r: Result<String, String>)
    ensures
        (exists|i: int| 0 <= i < existing_devs@.len() && same_ignoring_ascii_case(
            #[trigger] string_views(existing_devs@)[i],
            tap_name(vm_id@, iface_id@),
        )) ==> (r matches Err(e) && e@ == "host device already in use by another interface"@),
        !(exists|i: int| 0 <= i < existing_devs@.len() && same_ignoring_ascii_case(
            #[trigger] string_views(existing_devs@)[i],
            tap_name(vm_id@, iface_id@),
        )) ==> (r matches Ok(s) && s@ == tap_name(vm_id@, iface_id@)),
{
    proof {
        reveal_strlit("eth");
        reveal_strlit("tap-");
        reveal_strlit("-");
        reveal_with_fuel(hex_lower, 3);
    }
    let mut name = owned("tap-");
    push_hex_byte(&mut name, vm_id[0]);
    push_hex_byte(&mut name, vm_id[1]);
    push_str(&mut name, "-");
    let n = iface_id.unicode_len();
    let mut i: usize = 0;
    assert(iface_id@.subrange(0, n as int) =~= iface_id@);
    while n >= 3 && i <= n - 3 && iface_id.get_char(i) == 'e' && iface_id.get_char(i + 1) == 't' && iface_id.get_char(i + 2) == 'h'
        invariant
            i <= n,
            n == iface_id@.len(),
            without_eth_prefixes(iface_id@) == without_eth_prefixes(iface_id@.subrange(i as int, n as int)),
        decreases n - i,
    {
        proof {
            reveal_strlit("eth");
            let rest = iface_id@.subrange(i as int, n as int);
            assert(rest.subrange(0, 3) =~= "eth"@);
            assert(rest.subrange(3, rest.len() as int) =~= iface_id@.subrange(i + 3, n as int));
        }
        i = i + 3;
    }
    proof {
        reveal_strlit("eth");
        let rest = iface_id@.subrange(i as int, n as int);
        if rest.len() >= 3 && rest.subrange(0, 3) == "eth"@ {
            assert(rest.subrange(0, 3)[0] == 'e');
            assert(rest.subrange(0, 3)[1] == 't');
            assert(rest.subrange(0, 3)[2] == 'h');
            assert(iface_id@[i as int] == 'e');
            assert(iface_id@[i + 1] == 't');
            assert(iface_id@[i + 2] == 'h');
        }
    }
    let tail = iface_id.substring_char(i, n);
    push_str(&mut name, tail);
    assert(vm_id@.subrange(0, 2) =~= seq![vm_id[0], vm_id[1]]);
    assert(name@ =~= tap_name(vm_id@, iface_id@));
    if any_same_ignoring_case(existing_devs, name.as_str()) {
        return Err(owned("host device already in use by another interface"));
    }
    Ok(name)
}

} // verus!
