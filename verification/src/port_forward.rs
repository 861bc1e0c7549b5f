//! Host-to-guest port forwards: when they are applied, and how a request
//! for a port that is already taken is answered.

use vstd::prelude::*;
use vstd::string::StrSliceExecFns;
use crate::guest_net::{contains_str, contains_text};
use crate::storage::{decimal, decimal_text};
use crate::text::{owned, push_str, str_eq};

verus! {

/// The guest address forwards point at: the recorded one, unless there is
/// none or it is empty (then nothing is applied or removed).
pub open spec fn forward_target(guest_ip: Option<Seq<char>>) -> Option<Seq<char>> {
    match guest_ip {
        Some(ip) => if ip.len() > 0 { Some(ip) } else { None },
        None => None,
    }
}

/// The guest address forwards point at, as `forward_target` says.
pub fn forward_guest_ip(guest_ip: Option<&str>) -> (r: Option<String>)
    ensures
        match (r, forward_target(match guest_ip { Some(ip) => Some(ip@), None => None })) {
            (Some(a), Some(b)) => a@ == b,
            (None, None) => true,
            _ => false,
        },
{
    match guest_ip {
        Some(ip) => if ip.unicode_len() > 0 { Some(owned(ip)) } else { None },
        None => None,
    }
}

/// Whether a new forward is applied at once: only for a running VM whose
/// guest address is known.
pub fn applies_now(state: &str, guest_ip: Option<&str>) -> (b: bool)
    ensures
        b == (state@ == "running"@ && forward_target(match guest_ip { Some(ip) => Some(ip@), None => None }) is Some),
{
    str_eq(state, "running") && match guest_ip {
        Some(ip) => ip.unicode_len() > 0,
        None => false,
    }
}

/// The decimal text of an `i32`, as its `Display` writes it.
pub open spec fn signed_decimal_text(n: i32) -> Seq<char> {
    if n < 0 { "-"@ + decimal_text((-(n as int)) as u64) } else { decimal_text(n as u64) }
}

/// How a refused new forward is answered: 409 with the port and protocol
/// when the database reports the host port and protocol taken, else 500
/// with the database's own message.
pub open spec fn create_refusal_text(db_error: Seq<char>, host_port: i32, protocol: Seq<char>) -> (u16, Seq<char>) {
    if contains_text(db_error, "unique_host_port_protocol"@) {
        (409, "Port "@ + signed_decimal_text(host_port) + " ("@ + protocol + ") is already in use"@)
    } else {
        (500, db_error)
    }
}

/// Answers a refused new forward, as `create_refusal_text` says.
pub fn create_refusal(db_error: &str, host_port: i32, protocol: &str) -> (r: (u16, String))
    ensures
        (r.0, r.1@) == create_refusal_text(db_error@, host_port, protocol@),
{
    if contains_str(db_error, "unique_host_port_protocol") {
        let mut m = owned("Port ");
        if host_port < 0 {
            push_str(&mut m, "-");
            let d = decimal((-(host_port as i64)) as u64);
            push_str(&mut m, d.as_str());
        } else {
            let d = decimal(host_port as u64);
            push_str(&mut m, d.as_str());
        }
        push_str(&mut m, " (");
        push_str(&mut m, protocol);
        push_str(&mut m, ") is already in use");
        (409, m)
    } else {
        (500, owned(db_error))
    }
}

} // verus!
