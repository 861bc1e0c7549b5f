//! Editing the account files of a guest's root filesystem when credentials
//! are injected without cloud-init: the shadow file, and the passwd and
//! group entries of a new user.

use vstd::prelude::*;
use vstd::string::StrSliceExecFns;
use crate::text::{has_prefix, has_suffix, owned, push_char, push_str, starts_with, str_eq};

verus! {

/// `line` without one trailing carriage return.
pub open spec fn strip_cr(line: Seq<char>) -> Seq<char> {
    if line.len() > 0 && line.last() == '\r' {
        line.drop_last()
    } else {
        line
    }
}

/// The lines of `s` after the partial line `cur`, as `str::lines` yields
/// them: split at `\n`, a `\r` before the `\n` dropped, and no empty last
/// line for a trailing newline.
pub open spec fn lines_from(s: Seq<char>, cur: Seq<char>) -> Seq<Seq<char>>
    decreases s.len(),
{
    if s.len() == 0 {
        if cur.len() == 0 {
            Seq::empty()
        } else {
            seq![cur]
        }
    } else if s[0] == '\n' {
        seq![strip_cr(cur)] + lines_from(s.drop_first(), Seq::empty())
    } else {
        lines_from(s.drop_first(), cur.push(s[0]))
    }
}

/// The lines of `s`, as `str::lines` yields them.
pub open spec fn lines_of(s: Seq<char>) -> Seq<Seq<char>> {
    lines_from(s, Seq::empty())
}

/// The views of a list of strings.
pub open spec fn views(v: Seq<String>) -> Seq<Seq<char>> {
    v.map_values(|x: String| x@)
}

fn strip_cr_exec(line: String) -> (l: String)
    ensures
        l@ == strip_cr(line@),
{
    let n = line.as_str().unicode_len();
    if n > 0 && line.as_str().get_char(n - 1) == '\r' {
        let mut l = String::new();
        let mut i: usize = 0;
        while i < n - 1
            invariant
                0 < n == line@.len(),
                0 <= i <= n - 1,
                l@ == line@.subrange(0, i as int),
            decreases n - 1 - i,
        {
            push_char(&mut l, line.as_str().get_char(i));
            assert(line@.subrange(0, i as int).push(line@[i as int]) =~= line@.subrange(0, i + 1));
            i = i + 1;
        }
        assert(line@.subrange(0, n - 1) =~= line@.drop_last());
        l
    } else {
        line
    }
}

/// Splits `s` into lines as `str::lines` does.
pub fn split_lines(s: &str) -> (v: Vec<String>)
    ensures
        views(v@) == lines_of(s@),
{
    let n = s.unicode_len();
    let mut out: Vec<String> = Vec::new();
    let mut cur = String::new();
    let mut i: usize = 0;
    assert(s@.subrange(0, n as int) =~= s@);
    assert(views(out@) + lines_of(s@) =~= lines_of(s@));
    while i < n
        invariant
            0 <= i <= n,
            n == s@.len(),
            lines_of(s@) == views(out@) + lines_from(s@.subrange(i as int, n as int), cur@),
        decreases n - i,
    {
        let c = s.get_char(i);
        let ghost rest = s@.subrange(i as int, n as int);
        assert(rest.drop_first() =~= s@.subrange(i + 1, n as int));
        if c == '\n' {
            let line = strip_cr_exec(cur);
            proof {
                assert(views(out@.push(line)) =~= views(out@).push(line@));
                assert(views(out@) + (seq![line@] + lines_from(rest.drop_first(), Seq::empty()))
                    =~= views(out@).push(line@) + lines_from(rest.drop_first(), Seq::empty()));
            }
            out.push(line);
            cur = String::new();
        } else {
            push_char(&mut cur, c);
        }
        i = i + 1;
    }
    assert(s@.subrange(n as int, n as int) =~= Seq::<char>::empty());
    if cur.as_str().unicode_len() > 0 {
        proof {
            assert(views(out@.push(cur)) =~= views(out@).push(cur@));
            assert(views(out@) + seq![cur@] =~= views(out@).push(cur@));
        }
        out.push(cur);
    } else {
        assert(views(out@) + Seq::<Seq<char>>::empty() =~= views(out@));
    }
    out
}

/// The `:`-separated fields of `s` after the partial field `cur`, as `str::split(':')` yields them.
pub open spec fn fields_from(s: Seq<char>, cur: Seq<char>) -> Seq<Seq<char>>
    decreases s.len(),
{
    if s.len() == 0 {
        seq![cur]
    } else if s[0] == ':' {
        seq![cur] + fields_from(s.drop_first(), Seq::empty())
    } else {
        fields_from(s.drop_first(), cur.push(s[0]))
    }
}

/// The `:`-separated fields of `s`.
pub open spec fn fields_of(s: Seq<char>) -> Seq<Seq<char>> {
    fields_from(s, Seq::empty())
}

/// Splits `s` at every `:`.
pub fn split_fields(s: &str) -> (v: Vec<String>)
    ensures
        views(v@) == fields_of(s@),
{
    let n = s.unicode_len();
    let mut out: Vec<String> = Vec::new();
    let mut cur = String::new();
    let mut i: usize = 0;
    assert(s@.subrange(0, n as int) =~= s@);
    assert(views(out@) + fields_of(s@) =~= fields_of(s@));
    while i < n
        invariant
            0 <= i <= n,
            n == s@.len(),
            fields_of(s@) == views(out@) + fields_from(s@.subrange(i as int, n as int), cur@),
        decreases n - i,
    {
        let c = s.get_char(i);
        let ghost rest = s@.subrange(i as int, n as int);
        assert(rest.drop_first() =~= s@.subrange(i + 1, n as int));
        if c == ':' {
            proof {
                assert(views(out@.push(cur)) =~= views(out@).push(cur@));
                assert(views(out@) + (seq![cur@] + fields_from(rest.drop_first(), Seq::empty()))
                    =~= views(out@).push(cur@) + fields_from(rest.drop_first(), Seq::empty()));
            }
            out.push(cur);
            cur = String::new();
        } else {
            push_char(&mut cur, c);
        }
        i = i + 1;
    }
    assert(s@.subrange(n as int, n as int) =~= Seq::<char>::empty());
    proof {
        assert(views(out@.push(cur)) =~= views(out@).push(cur@));
        assert(views(out@) + seq![cur@] =~= views(out@).push(cur@));
    }
    out.push(cur);
    out
}

/// Whether a shadow line is the account's and has the nine fields needed to replace it.
pub open spec fn replaces(line: Seq<char>, user: Seq<char>) -> bool {
    has_prefix(line, user + ":"@) && fields_of(line).len() >= 9
}

/// The account's shadow line with the new hash and the other fields kept.
pub open spec fn replaced_line(user: Seq<char>, hash: Seq<char>, f: Seq<Seq<char>>) -> Seq<char> {
    user + ":"@ + hash + ":"@ + f[2] + ":"@ + f[3] + ":"@ + f[4] + ":"@ + f[5] + ":"@ + f[6] + ":"@ + f[7] + ":"@ + f[8]
        + "\n"@
}

/// What a shadow line becomes.
pub open spec fn shadow_line_out(line: Seq<char>, user: Seq<char>, hash: Seq<char>) -> Seq<char> {
    if replaces(line, user) {
        replaced_line(user, hash, fields_of(line))
    } else {
        line + "\n"@
    }
}

/// The shadow lines, each rewritten and ended with a newline.
pub open spec fn shadow_body(lines: Seq<Seq<char>>, user: Seq<char>, hash: Seq<char>) -> Seq<char>
    decreases lines.len(),
{
    if lines.len() == 0 {
        Seq::empty()
    } else {
        shadow_body(lines.drop_last(), user, hash) + shadow_line_out(lines.last(), user, hash)
    }
}

/// Whether some shadow line was replaced.
pub open spec fn shadow_found(lines: Seq<Seq<char>>, user: Seq<char>) -> bool {
    exists|i: int| 0 <= i < lines.len() && replaces(#[trigger] lines[i], user)
}

/// The entry added for an account the shadow file does not have: no
/// expiry and no aging.
pub open spec fn new_shadow_line(user: Seq<char>, hash: Seq<char>) -> Seq<char> {
    user + ":"@ + hash + ":19000:0:99999:7:::\n"@
}

/// The whole new shadow file.
pub open spec fn rewritten_shadow(contents: Seq<char>, user: Seq<char>, hash: Seq<char>) -> Seq<char> {
    let lines = lines_of(contents);
    shadow_body(lines, user, hash) + if shadow_found(lines, user) {
        Seq::empty()
    } else {
        new_shadow_line(user, hash)
    }
}

fn push_field(s: &mut String, f: &Vec<String>, k: usize)
    requires
        k < f@.len(),
    ensures
        final(s)@ == old(s)@ + ":"@ + f@[k as int]@,
{
    push_str(s, ":");
    push_str(s, f[k].as_str());
}

/// Sets the password hash of `username` in a shadow file. Every line of
/// the account with at least nine fields gets the new hash, its other
/// fields kept; when none does, an entry for the account is appended.
/// Also says whether an existing line was replaced.
pub fn rewrite_shadow(contents: &str, username: &str, password_hash: &str) -> (r: (String, bool))
    ensures
        r.0@ == rewritten_shadow(contents@, username@, password_hash@),
        r.1 == shadow_found(lines_of(contents@), username@),
{
    let lines = split_lines(contents);
    let ghost ls = lines_of(contents@);
    let mut prefix = owned(username);
    push_str(&mut prefix, ":");
    let mut out = String::new();
    let mut found = false;
    let mut i: usize = 0;
    while i < lines.len()
        invariant
            0 <= i <= lines@.len(),
            views(lines@) == ls,
            prefix@ == username@ + ":"@,
            out@ == shadow_body(ls.subrange(0, i as int), username@, password_hash@),
            found == exists|j: int| 0 <= j < i && replaces(#[trigger] ls[j], username@),
        decreases lines@.len() - i,
    {
        let line = lines[i].as_str();
        let ghost lv = ls[i as int];
        assert(line@ == lv);
        let mut replaced = false;
        if starts_with(line, prefix.as_str()) {
            let f = split_fields(line);
            if f.len() >= 9 {
                let ghost before = out@;
                push_str(&mut out, username);
                push_str(&mut out, ":");
                push_str(&mut out, password_hash);
                push_field(&mut out, &f, 2);
                push_field(&mut out, &f, 3);
                push_field(&mut out, &f, 4);
                push_field(&mut out, &f, 5);
                push_field(&mut out, &f, 6);
                push_field(&mut out, &f, 7);
                push_field(&mut out, &f, 8);
                push_str(&mut out, "\n");
                proof {
                    let fv = fields_of(lv);
                    assert(f@[2]@ == fv[2] && f@[3]@ == fv[3] && f@[4]@ == fv[4] && f@[5]@ == fv[5]);
                    assert(f@[6]@ == fv[6] && f@[7]@ == fv[7] && f@[8]@ == fv[8]);
                    assert(out@ =~= before + replaced_line(username@, password_hash@, fv));
                }
                replaced = true;
                found = true;
            }
        }
        if !replaced {
            push_str(&mut out, line);
            push_str(&mut out, "\n");
        }
        proof {
            assert(ls.subrange(0, i + 1).drop_last() =~= ls.subrange(0, i as int));
            assert(ls.subrange(0, i + 1).last() == lv);
            assert(replaced == replaces(lv, username@));
        }
        i = i + 1;
    }
    assert(ls.subrange(0, lines@.len() as int) =~= ls);
    if !found {
        push_str(&mut out, username);
        push_str(&mut out, ":");
        push_str(&mut out, password_hash);
        push_str(&mut out, ":19000:0:99999:7:::\n");
    }
    (out, found)
}

/// Whether some line of a passwd file belongs to `user`.
pub open spec fn passwd_lists(contents: Seq<char>, user: Seq<char>) -> bool {
    exists|i: int| 0 <= i < lines_of(contents).len() && has_prefix(#[trigger] lines_of(contents)[i], user + ":"@)
}

/// Whether a passwd file already has a line for `username`.
pub fn user_in_passwd(contents: &str, username: &str) -> (b: bool)
    ensures
        b == passwd_lists(contents@, username@),
{
    let lines = split_lines(contents);
    let mut prefix = owned(username);
    push_str(&mut prefix, ":");
    let mut i: usize = 0;
    while i < lines.len()
        invariant
            0 <= i <= lines@.len(),
            views(lines@) == lines_of(contents@),
            prefix@ == username@ + ":"@,
            forall|j: int| 0 <= j < i ==> !has_prefix(#[trigger] lines_of(contents@)[j], username@ + ":"@),
        decreases lines@.len() - i,
    {
        if starts_with(lines[i].as_str(), prefix.as_str()) {
            assert(lines_of(contents@)[i as int] == lines@[i as int]@);
            return true;
        }
        assert(lines_of(contents@)[i as int] == lines@[i as int]@);
        i = i + 1;
    }
    false
}

/// The passwd line added for a new account: uid and gid 0 and home `/root`
/// for root, 1000 and `/home/<user>` otherwise, shell `/bin/sh`. The home
/// directory is written after `::/`, so it starts with two slashes (`//root`).
pub open spec fn passwd_entry_text(user: Seq<char>) -> Seq<char> {
    if user == "root"@ {
        user + ":x:"@ + "0"@ + ":"@ + "0"@ + "::/"@ + "/root"@ + ":/bin/sh\n"@
    } else {
        user + ":x:"@ + "1000"@ + ":"@ + "1000"@ + "::/"@ + "/home/"@ + user + ":/bin/sh\n"@
    }
}

/// The passwd line for a new account.
pub fn passwd_entry(username: &str) -> (e: String)
    ensures
        e@ == passwd_entry_text(username@),
{
    let root = str_eq(username, "root");
    let mut e = owned(username);
    push_str(&mut e, ":x:");
    if root {
        push_str(&mut e, "0");
        push_str(&mut e, ":");
        push_str(&mut e, "0");
        push_str(&mut e, "::/");
        push_str(&mut e, "/root");
    } else {
        push_str(&mut e, "1000");
        push_str(&mut e, ":");
        push_str(&mut e, "1000");
        push_str(&mut e, "::/");
        push_str(&mut e, "/home/");
        push_str(&mut e, username);
    }
    push_str(&mut e, ":/bin/sh\n");
    e
}

/// The group line for a new account: none for root, group 1000 otherwise.
pub fn group_entry(username: &str) -> (e: Option<String>)
    ensures
        username@ == "root"@ ==> e is None,
        username@ != "root"@ ==> (e matches Some(g) && g@ == username@ + ":x:1000:\n"@),
{
    if str_eq(username, "root") {
        None
    } else {
        let mut g = owned(username);
        push_str(&mut g, ":x:1000:\n");
        Some(g)
    }
}

/// Whether `part` occurs in `s` starting at `k`.
pub open spec fn occurs_at(s: Seq<char>, part: Seq<char>, k: int) -> bool {
    0 <= k && k + part.len() <= s.len() && s.subrange(k, k + part.len()) == part
}

/// A rewritten body holds the account's entry with the new hash wherever a
/// line of the account was replaced.
proof fn lemma_body_holds_entry(lines: Seq<Seq<char>>, user: Seq<char>, hash: Seq<char>)
    requires
        shadow_found(lines, user),
    ensures
        exists|k: int| occurs_at(shadow_body(lines, user, hash), user + ":"@ + hash + ":"@, k),
    decreases lines.len(),
{
    let body = shadow_body(lines, user, hash);
    let prev = shadow_body(lines.drop_last(), user, hash);
    let entry = user + ":"@ + hash + ":"@;
    if replaces(lines.last(), user) {
        let k = prev.len() as int;
        let f = fields_of(lines.last());
        assert(body.subrange(k, k + entry.len()) =~= entry);
        assert(occurs_at(body, entry, k));
    } else {
        let i = choose|i: int| 0 <= i < lines.len() && replaces(#[trigger] lines[i], user);
        assert(lines.drop_last()[i] == lines[i]);
        assert(shadow_found(lines.drop_last(), user));
        lemma_body_holds_entry(lines.drop_last(), user, hash);
        let k = choose|k: int| occurs_at(prev, entry, k);
        assert(body.subrange(k, k + entry.len()) =~= prev.subrange(k, k + entry.len()));
        assert(occurs_at(body, entry, k));
    }
}

/// Whatever the shadow file held, the rewritten one holds an entry of the
/// account with the new password hash; when no line of the account could
/// be replaced, that entry is appended at the end with no expiry and no
/// aging, after every line of the file.
pub proof fn shadow_sets_the_hash(contents: Seq<char>, user: Seq<char>, hash: Seq<char>)
    ensures
        exists|k: int| occurs_at(rewritten_shadow(contents, user, hash), user + ":"@ + hash + ":"@, k),
        !shadow_found(lines_of(contents), user) ==> has_suffix(
            rewritten_shadow(contents, user, hash),
            user + ":"@ + hash + ":19000:0:99999:7:::\n"@,
        ),
{
    let lines = lines_of(contents);
    let body = shadow_body(lines, user, hash);
    let out = rewritten_shadow(contents, user, hash);
    let entry = user + ":"@ + hash + ":"@;
    if shadow_found(lines, user) {
        lemma_body_holds_entry(lines, user, hash);
        let k = choose|k: int| occurs_at(body, entry, k);
        assert(out =~= body);
        assert(occurs_at(out, entry, k));
    } else {
        let k = body.len() as int;
        let tail = user + ":"@ + hash + ":19000:0:99999:7:::\n"@;
        reveal_strlit(":19000:0:99999:7:::\n");
        reveal_strlit(":");
        assert(out =~= body + tail);
        assert(tail.subrange(0, entry.len() as int) =~= entry);
        assert(out.subrange(k, k + entry.len()) =~= entry);
        assert(occurs_at(out, entry, k));
        assert(out.subrange(out.len() - tail.len(), out.len() as int) =~= tail);
    }
}

/// The passwd entry of a new account names it with password `x` and shell
/// `/bin/sh`; root gets uid and gid 0 and home `//root`, every other
/// account uid and gid 1000 and home `//home/<user>`.
pub proof fn passwd_entry_fields(user: Seq<char>)
    ensures
        has_prefix(passwd_entry_text(user), user + ":x:"@),
        has_suffix(passwd_entry_text(user), ":/bin/sh\n"@),
        user == "root"@ ==> passwd_entry_text(user) == "root:x:0:0:://root:/bin/sh\n"@,
        user != "root"@ ==> passwd_entry_text(user) == user + ":x:1000:1000:://home/"@ + user + ":/bin/sh\n"@,
{
    let e = passwd_entry_text(user);
    let p = user + ":x:"@;
    let t = ":/bin/sh\n"@;
    reveal_strlit("root");
    reveal_strlit("root:x:0:0:://root:/bin/sh\n");
    reveal_strlit(":x:");
    reveal_strlit("0");
    reveal_strlit(":");
    reveal_strlit("::/");
    reveal_strlit("/root");
    reveal_strlit(":/bin/sh\n");
    reveal_strlit(":x:1000:1000:://home/");
    reveal_strlit("1000");
    reveal_strlit("/home/");
    assert(e.subrange(0, p.len() as int) =~= p);
    assert(e.subrange(e.len() - t.len(), e.len() as int) =~= t);
    if user == "root"@ {
        assert(e =~= "root:x:0:0:://root:/bin/sh\n"@);
    } else {
        assert(e =~= user + ":x:1000:1000:://home/"@ + user + ":/bin/sh\n"@);
    }
}

} // verus!
