//! What a new guest is told: the manager URL it reports to, reached over
//! the bridge, and the console credentials it gets when none are asked for.

use vstd::prelude::*;
use vstd::string::StrSliceExecFns;
use crate::backup::{lemma_hex_len, uuid_hyphenated, uuid_text};
use crate::storage::hex_lower;
use crate::ipalloc::{pieces, split_at_char};
use crate::rootfs::{lines_of, split_lines, views};
use crate::text::{char_is_whitespace, has_prefix, is_white, owned, push_char, push_str, starts_with, str_eq};

verus! {

/// `s` without leading whitespace.
pub open spec fn trim_start_ws(s: Seq<char>) -> Seq<char>
    decreases s.len(),
{
    if s.len() > 0 && is_white(s[0]) {
        trim_start_ws(s.drop_first())
    } else {
        s
    }
}

/// `s` without trailing whitespace.
pub open spec fn trim_end_ws(s: Seq<char>) -> Seq<char>
    decreases s.len(),
{
    if s.len() > 0 && is_white(s.last()) {
        trim_end_ws(s.drop_last())
    } else {
        s
    }
}

/// `s` without surrounding whitespace, as `str::trim` leaves it.
pub open spec fn trim_ws(s: Seq<char>) -> Seq<char> {
    trim_end_ws(trim_start_ws(s))
}

/// The whitespace-separated words of `s` after the partial word `cur`, as `str::split_whitespace` yields them.
pub open spec fn words_from(s: Seq<char>, cur: Seq<char>) -> Seq<Seq<char>>
    decreases s.len(),
{
    if s.len() == 0 {
        if cur.len() > 0 {
            seq![cur]
        } else {
            Seq::empty()
        }
    } else if is_white(s[0]) {
        (if cur.len() > 0 {
            seq![cur]
        } else {
            Seq::empty()
        }) + words_from(s.drop_first(), Seq::empty())
    } else {
        words_from(s.drop_first(), cur.push(s[0]))
    }
}

/// The whitespace-separated words of `s`.
pub open spec fn words(s: Seq<char>) -> Seq<Seq<char>> {
    words_from(s, Seq::empty())
}

/// Trims surrounding whitespace.
pub fn trim(s: &str) -> (t: String)
    ensures
        t@ == trim_ws(s@),
{
    let n = s.unicode_len();
    let mut start: usize = 0;
    assert(s@.subrange(0, n as int) =~= s@);
    while start < n && char_is_whitespace(s.get_char(start))
        invariant
            0 <= start <= n,
            n == s@.len(),
            trim_start_ws(s@.subrange(start as int, n as int)) == trim_start_ws(s@),
        decreases n - start,
    {
        assert(s@.subrange(start as int, n as int).drop_first() =~= s@.subrange(start + 1, n as int));
        start = start + 1;
    }
    let ghost lead = s@.subrange(start as int, n as int);
    assert(trim_start_ws(lead) == lead);
    let mut end: usize = n;
    assert(lead.subrange(0, (end - start) as int) =~= lead);
    while end > start && char_is_whitespace(s.get_char(end - 1))
        invariant
            start <= end <= n,
            n == s@.len(),
            lead == s@.subrange(start as int, n as int),
            trim_end_ws(s@.subrange(start as int, end as int)) == trim_end_ws(lead),
        decreases end - start,
    {
        assert(s@.subrange(start as int, end as int).drop_last() =~= s@.subrange(start as int, end - 1));
        end = end - 1;
    }
    assert(trim_end_ws(s@.subrange(start as int, end as int)) == s@.subrange(start as int, end as int));
    let mut t = String::new();
    let mut i: usize = start;
    while i < end
        invariant
            start <= i <= end <= n,
            n == s@.len(),
            t@ == s@.subrange(start as int, i as int),
        decreases end - i,
    {
        push_char(&mut t, s.get_char(i));
        assert(s@.subrange(start as int, i as int).push(s@[i as int]) =~= s@.subrange(start as int, i + 1));
        i = i + 1;
    }
    t
}

/// Splits `s` into whitespace-separated words.
pub fn split_words(s: &str) -> (v: Vec<String>)
    ensures
        views(v@) == words(s@),
{
    let n = s.unicode_len();
    let mut out: Vec<String> = Vec::new();
    let mut cur = String::new();
    let mut i: usize = 0;
    assert(s@.subrange(0, n as int) =~= s@);
    assert(views(out@) + words(s@) =~= words(s@));
    while i < n
        invariant
            0 <= i <= n,
            n == s@.len(),
            words(s@) == views(out@) + words_from(s@.subrange(i as int, n as int), cur@),
        decreases n - i,
    {
        let c = s.get_char(i);
        let ghost rest = s@.subrange(i as int, n as int);
        assert(rest.drop_first() =~= s@.subrange(i + 1, n as int));
        if char_is_whitespace(c) {
            if cur.as_str().unicode_len() > 0 {
                proof {
                    assert(views(out@.push(cur)) =~= views(out@).push(cur@));
                    assert(views(out@) + (seq![cur@] + words_from(rest.drop_first(), Seq::empty()))
                        =~= views(out@).push(cur@) + words_from(rest.drop_first(), Seq::empty()));
                }
                out.push(cur);
            } else {
                assert(Seq::<Seq<char>>::empty() + words_from(rest.drop_first(), Seq::empty())
                    =~= words_from(rest.drop_first(), Seq::empty()));
            }
            cur = String::new();
        } else {
            push_char(&mut cur, c);
        }
        i = i + 1;
    }
    assert(s@.subrange(n as int, n as int) =~= Seq::<char>::empty());
    if cur.as_str().unicode_len() > 0 {
        proof {
            assert(views(out@.push(cur)) =~= views(out@).push(cur@));
            assert(views(out@) + seq![cur@] =~= views(out@).push(cur@));
        }
        out.push(cur);
    } else {
        assert(views(out@) + Seq::<Seq<char>>::empty() =~= views(out@));
    }
    out
}

/// Whether a line of `ip addr` output carries an IPv4 address: once
/// trimmed it starts with `inet `, and it has a second word.
pub open spec fn inet_line(l: Seq<char>) -> bool {
    has_prefix(trim_ws(l), "inet "@) && words(l).len() >= 2
}

/// The address of the first `inet` line, without its prefix length.
pub open spec fn first_inet(ls: Seq<Seq<char>>) -> Option<Seq<char>>
    decreases ls.len(),
{
    if ls.len() == 0 {
        None
    } else if inet_line(ls[0]) {
        Some(pieces(words(ls[0])[1], '/')[0])
    } else {
        first_inet(ls.drop_first())
    }
}

/// The IPv4 address `ip addr show <bridge>` reports first, if any.
pub fn bridge_ip_from_ip_addr(output: &str) -> (r: Option<String>)
    ensures
        match r {
            Some(ip) => first_inet(lines_of(output@)) == Some(ip@),
            None => first_inet(lines_of(output@)) is None,
        },
{
    let lines = split_lines(output);
    let ghost ls = lines_of(output@);
    let mut i: usize = 0;
    assert(ls.subrange(0, ls.len() as int) =~= ls);
    while i < lines.len()
        invariant
            0 <= i <= lines@.len(),
            views(lines@) == ls,
            ls == lines_of(output@),
            first_inet(ls) == first_inet(ls.subrange(i as int, ls.len() as int)),
        decreases lines@.len() - i,
    {
        let ghost rest = ls.subrange(i as int, ls.len() as int);
        assert(rest.drop_first() =~= ls.subrange(i + 1, ls.len() as int));
        assert(rest[0] == lines@[i as int]@);
        let line = lines[i].as_str();
        let t = trim(line);
        if starts_with(t.as_str(), "inet ") {
            let w = split_words(line);
            if w.len() >= 2 {
                let p = split_at_char(w[1].as_str(), '/');
                let mut ip = String::new();
                push_str(&mut ip, p[0].as_str());
                proof {
                    assert(views(w@)[1] == w@[1]@);
                    assert(views(p@)[0] == p@[0]@);
                    assert(ip@ =~= p@[0]@);
                    assert(words(rest[0]) == views(w@));
                    assert(inet_line(rest[0]));
                    assert(first_inet(rest) == Some(pieces(words(rest[0])[1], '/')[0]));
                }
                return Some(ip);
            }
        }
        i = i + 1;
    }
    assert(ls.subrange(i as int, ls.len() as int) =~= Seq::<Seq<char>>::empty());
    None
}

/// The URL guests report to: the bridge address, or the host part of the
/// manager's bind address when the bridge has none, with the bind
/// address's port, or 18080 when it names none.
pub open spec fn manager_url_text(bridge_ip: Option<Seq<char>>, bind: Seq<char>) -> Seq<char> {
    let parts = pieces(bind, ':');
    let host = match bridge_ip {
        Some(ip) => ip,
        None => parts[0],
    };
    let port = if parts.len() > 1 { parts[1] } else { "18080"@ };
    "http://"@ + host + ":"@ + port
}

/// Builds the URL guests report to.
pub fn manager_url(bridge_ip: Option<&str>, manager_bind: &str) -> (u: String)
    ensures
        u@ == manager_url_text(
            match bridge_ip {
                Some(ip) => Some(ip@),
                None => None,
            },
            manager_bind@,
        ),
{
    let parts = split_at_char(manager_bind, ':');
    assert(views(parts@)[0] == parts@[0]@);
    let mut u = owned("http://");
    match bridge_ip {
        Some(ip) => push_str(&mut u, ip),
        None => push_str(&mut u, parts[0].as_str()),
    }
    push_str(&mut u, ":");
    if parts.len() > 1 {
        assert(views(parts@)[1] == parts@[1]@);
        push_str(&mut u, parts[1].as_str());
    } else {
        push_str(&mut u, "18080");
    }
    u
}

/// The first eight hexadecimal digits of a UUID.
pub open spec fn uuid_prefix(id: Seq<u8>) -> Seq<char> {
    uuid_text(id).subrange(0, 8)
}

fn uuid_prefix_of(id: [u8; 16]) -> (p: String)
    ensures
        p@ == uuid_prefix(id@),
{
    let full = uuid_hyphenated(id);
    proof {
        lemma_hex_len(id@.subrange(0, 4));
        assert(uuid_text(id@).len() >= 8);
    }
    let mut p = String::new();
    let mut i: usize = 0;
    while i < 8
        invariant
            0 <= i <= 8,
            full@ == uuid_text(id@),
            full@.len() >= 8,
            p@ == full@.subrange(0, i as int),
        decreases 8 - i,
    {
        push_char(&mut p, full.as_str().get_char(i));
        assert(full@.subrange(0, i as int).push(full@[i as int]) =~= full@.subrange(0, i + 1));
        i = i + 1;
    }
    p
}

/// The console password a VM gets when none is asked for: `vm-` and the
/// first eight hexadecimal digits of its id.
pub open spec fn default_password_text(id: Seq<u8>) -> Seq<char> {
    "vm-"@ + uuid_prefix(id)
}

/// The console login of a new VM: the requested user, or `root`; the
/// requested password, or the default one.
pub fn guest_credentials(id: [u8; 16], username: Option<String>, password: Option<String>) -> (c: (String, String))
    ensures
        c.0@ == match username {
            Some(u) => u@,
            None => "root"@,
        },
        c.1@ == match password {
            Some(p) => p@,
            None => default_password_text(id@),
        },
{
    let user = match username {
        Some(u) => u,
        None => owned("root"),
    };
    let pass = match password {
        Some(p) => p,
        None => {
            let mut p = owned("vm-");
            let prefix = uuid_prefix_of(id);
            push_str(&mut p, prefix.as_str());
            p
        },
    };
    (user, pass)
}

/// The tap device of VM `id`: `tap-` and the first eight hexadecimal digits of its id.
pub fn vm_tap_name(id: [u8; 16]) -> (t: String)
    ensures
        t@ == "tap-"@ + uuid_prefix(id@),
{
    let mut t = owned("tap-");
    let prefix = uuid_prefix_of(id);
    push_str(&mut t, prefix.as_str());
    t
}

/// The systemd scope the VMM of VM `id` runs in.
pub fn vm_unit_name(id: [u8; 16]) -> (u: String)
    ensures
        u@ == "fc-"@ + uuid_text(id@) + ".scope"@,
{
    let mut u = owned("fc-");
    let full = uuid_hyphenated(id);
    push_str(&mut u, full.as_str());
    push_str(&mut u, ".scope");
    u
}

/// The first whitespace-separated word of a line, if it has one.
pub open spec fn first_word(l: Seq<char>) -> Option<Seq<char>> {
    if words(l).len() > 0 { Some(words(l)[0]) } else { None }
}

/// Whether a neighbour-table address counts: not empty and not loopback.
pub open spec fn counts_as_neighbor(ip: Seq<char>) -> bool {
    ip.len() > 0 && ip != "127.0.0.1"@
}

/// The addresses of a neighbour table (`ip neigh show` output), one per
/// line that starts with an address that counts, in order.
pub open spec fn neighbor_ips(ls: Seq<Seq<char>>) -> Seq<Seq<char>>
    decreases ls.len(),
{
    if ls.len() == 0 {
        Seq::empty()
    } else {
        let rest = neighbor_ips(ls.drop_last());
        match first_word(ls.last()) {
            Some(ip) => if counts_as_neighbor(ip) { rest.push(ip) } else { rest },
            None => rest,
        }
    }
}

/// Whether `t` occurs in `s`.
pub open spec fn contains_text(s: Seq<char>, t: Seq<char>) -> bool {
    exists|i: int| 0 <= i <= s.len() && #[trigger] has_prefix(s.subrange(i, s.len() as int), t)
}

/// Whether a neighbour-table line shows a live entry (`REACHABLE` or `STALE`).
pub open spec fn live_line(l: Seq<char>) -> bool {
    contains_text(l, "REACHABLE"@) || contains_text(l, "STALE"@)
}

/// The first address on a live line of the table that counts and was not
/// in the baseline, if any: the address a newly booted guest took.
pub open spec fn new_neighbor(ls: Seq<Seq<char>>, baseline: Seq<Seq<char>>) -> Option<Seq<char>>
    decreases ls.len(),
{
    if ls.len() == 0 {
        None
    } else {
        match first_word(ls[0]) {
            Some(ip) => if live_line(ls[0]) && counts_as_neighbor(ip) && !baseline.contains(ip) {
                Some(ip)
            } else {
                new_neighbor(ls.drop_first(), baseline)
            },
            None => new_neighbor(ls.drop_first(), baseline),
        }
    }
}

/// Whether `t` occurs in `s`.
pub(crate) fn contains_str(s: &str, t: &str) -> (b: bool)
    ensures
        b == contains_text(s@, t@),
{
    let n = s.unicode_len();
    let mut i: usize = 0;
    while i < n
        invariant
            i <= n,
            n == s@.len(),
            forall|j: int| 0 <= j < i ==> !#[trigger] has_prefix(s@.subrange(j, n as int), t@),
        decreases n - i,
    {
        if starts_with(s.substring_char(i, n), t) {
            return true;
        }
        i = i + 1;
    }
    starts_with(s.substring_char(n, n), t)
}

/// The first word of a line, if it has one.
fn first_word_of(l: &str) -> (r: Option<String>)
    ensures
        match (r, first_word(l@)) {
            (Some(w), Some(v)) => w@ == v,
            (None, None) => true,
            _ => false,
        },
{
    let ws = split_words(l);
    if ws.len() == 0 {
        None
    } else {
        assert(views(ws@)[0] == ws@[0]@);
        Some(owned(ws[0].as_str()))
    }
}

/// Whether a neighbour-table address counts, as `counts_as_neighbor` says.
fn counts(ip: &str) -> (b: bool)
    ensures
        b == counts_as_neighbor(ip@),
{
    ip.unicode_len() > 0 && !str_eq(ip, "127.0.0.1")
}

/// The addresses of a neighbour table, as `neighbor_ips` lists them.
pub fn neighbor_table_ips(table: &str) -> (v: Vec<String>)
    ensures
        views(v@) == neighbor_ips(lines_of(table@)),
{
    let lines = split_lines(table);
    let ghost ls = lines_of(table@);
    let mut out: Vec<String> = Vec::new();
    let mut i: usize = 0;
    while i < lines.len()
        invariant
            0 <= i <= lines@.len(),
            views(lines@) == ls,
            views(out@) == neighbor_ips(ls.take(i as int)),
        decreases lines@.len() - i,
    {
        proof {
            assert(ls.take(i + 1).drop_last() =~= ls.take(i as int));
            assert(ls.take(i + 1).last() == lines@[i as int]@);
        }
        let ghost before = out@;
        match first_word_of(lines[i].as_str()) {
            Some(ip) => {
                if counts(ip.as_str()) {
                    out.push(ip);
                    assert(views(out@) =~= views(before).push(out@.last()@));
                }
            },
            None => {},
        }
        i = i + 1;
    }
    assert(ls.take(lines@.len() as int) =~= ls);
    out
}

/// Whether `ip` is one of `baseline`.
fn in_baseline(baseline: &[String], ip: &str) -> (b: bool)
    ensures
        b == views(baseline@).contains(ip@),
{
    let mut i: usize = 0;
    while i < baseline.len()
        invariant
            0 <= i <= baseline@.len(),
            forall|j: int| 0 <= j < i ==> views(baseline@)[j] != ip@,
        decreases baseline@.len() - i,
    {
        if str_eq(baseline[i].as_str(), ip) {
            assert(views(baseline@)[i as int] == ip@);
            return true;
        }
        i = i + 1;
    }
    false
}

/// The address a newly booted guest took, as `new_neighbor` finds it in a
/// neighbour table read after the baseline was taken.
pub fn new_neighbor_ip(table: &str, baseline: &[String]) -> (r: Option<String>)
    ensures
        match (r, new_neighbor(lines_of(table@), views(baseline@))) {
            (Some(ip), Some(v)) => ip@ == v,
            (None, None) => true,
            _ => false,
        },
{
    let lines = split_lines(table);
    let ghost ls = lines_of(table@);
    let mut i: usize = 0;
    assert(ls.subrange(0, ls.len() as int) =~= ls);
    while i < lines.len()
        invariant
            0 <= i <= lines@.len(),
            views(lines@) == ls,
            ls == lines_of(table@),
            new_neighbor(ls, views(baseline@)) == new_neighbor(ls.subrange(i as int, ls.len() as int), views(baseline@)),
        decreases lines@.len() - i,
    {
        let ghost rest = ls.subrange(i as int, ls.len() as int);
        proof {
            assert(rest.drop_first() =~= ls.subrange(i + 1, ls.len() as int));
            assert(rest[0] == lines@[i as int]@);
        }
        let line = lines[i].as_str();
        match first_word_of(line) {
            Some(ip) => {
                if (contains_str(line, "REACHABLE") || contains_str(line, "STALE")) && counts(ip.as_str())
                    && !in_baseline(baseline, ip.as_str()) {
                    return Some(ip);
                }
            },
            None => {},
        }
        i = i + 1;
    }
    assert(ls.subrange(lines@.len() as int, ls.len() as int) =~= Seq::<Seq<char>>::empty());
    None
}

/// The next wait between neighbour-table reads: doubled, at most three seconds.
pub fn next_neighbor_wait_ms(wait_ms: u64) -> (w: u64)
    requires
        wait_ms <= u64::MAX / 2,
    ensures
        w == (if wait_ms * 2 < 3000 { wait_ms * 2 } else { 3000 }),
{
    if wait_ms * 2 < 3000 { wait_ms * 2 } else { 3000 }
}

/// The address found for a newly booted guest is the first word of a live
/// line of the table, is neither empty nor loopback, and was not in the
/// baseline; no earlier line offers such an address; and when none is
/// found, no line does.
pub proof fn new_neighbor_is_new(ls: Seq<Seq<char>>, baseline: Seq<Seq<char>>)
    ensures
        new_neighbor(ls, baseline) matches Some(ip) ==> exists|k: int| 0 <= k < ls.len() && first_word(#[trigger] ls[k])
            == Some(ip) && live_line(ls[k]) && ip.len() > 0 && ip != "127.0.0.1"@ && !baseline.contains(ip)
            && forall|j: int| 0 <= j < k ==> !(#[trigger] first_word(ls[j]) matches Some(w) && live_line(ls[j])
                && counts_as_neighbor(w) && !baseline.contains(w)),
        new_neighbor(ls, baseline) is None ==> forall|j: int| 0 <= j < ls.len() ==> !(#[trigger] first_word(ls[j]) matches Some(w)
            && live_line(ls[j]) && w.len() > 0 && w != "127.0.0.1"@ && !baseline.contains(w)),
    decreases ls.len(),
{
    if ls.len() > 0 {
        new_neighbor_is_new(ls.drop_first(), baseline);
        let t = ls.drop_first();
        match first_word(ls[0]) {
            Some(ip) => if live_line(ls[0]) && counts_as_neighbor(ip) && !baseline.contains(ip) {
                assert(first_word(ls[0]) == Some(ip));
            } else {
                if new_neighbor(t, baseline) is Some {
                    let ip2 = new_neighbor(t, baseline)->Some_0;
                    let k = choose|k: int| 0 <= k < t.len() && first_word(#[trigger] t[k]) == Some(ip2) && live_line(t[k])
                        && ip2.len() > 0 && ip2 != "127.0.0.1"@ && !baseline.contains(ip2) && forall|j: int| 0 <= j < k
                        ==> !(#[trigger] first_word(t[j]) matches Some(w) && live_line(t[j]) && counts_as_neighbor(w)
                        && !baseline.contains(w));
                    assert(ls[k + 1] == t[k]);
                    assert forall|j: int| 0 <= j < k + 1 implies !(#[trigger] first_word(ls[j]) matches Some(w) && live_line(ls[j])
                        && counts_as_neighbor(w) && !baseline.contains(w)) by {
                        if j > 0 {
                            assert(ls[j] == t[j - 1]);
                        }
                    }
                } else {
                    assert forall|j: int| 0 <= j < ls.len() implies !(#[trigger] first_word(ls[j]) matches Some(w)
                        && live_line(ls[j]) && w.len() > 0 && w != "127.0.0.1"@ && !baseline.contains(w)) by {
                        if j > 0 {
                            assert(ls[j] == t[j - 1]);
                        }
                    }
                }
            },
            None => {
                if new_neighbor(t, baseline) is Some {
                    let ip2 = new_neighbor(t, baseline)->Some_0;
                    let k = choose|k: int| 0 <= k < t.len() && first_word(#[trigger] t[k]) == Some(ip2) && live_line(t[k])
                        && ip2.len() > 0 && ip2 != "127.0.0.1"@ && !baseline.contains(ip2) && forall|j: int| 0 <= j < k
                        ==> !(#[trigger] first_word(t[j]) matches Some(w) && live_line(t[j]) && counts_as_neighbor(w)
                        && !baseline.contains(w));
                    assert(ls[k + 1] == t[k]);
                    assert forall|j: int| 0 <= j < k + 1 implies !(#[trigger] first_word(ls[j]) matches Some(w) && live_line(ls[j])
                        && counts_as_neighbor(w) && !baseline.contains(w)) by {
                        if j > 0 {
                            assert(ls[j] == t[j - 1]);
                        }
                    }
                } else {
                    assert forall|j: int| 0 <= j < ls.len() implies !(#[trigger] first_word(ls[j]) matches Some(w)
                        && live_line(ls[j]) && w.len() > 0 && w != "127.0.0.1"@ && !baseline.contains(w)) by {
                        if j > 0 {
                            assert(ls[j] == t[j - 1]);
                        }
                    }
                }
            },
        }
    }
}

} // verus!
