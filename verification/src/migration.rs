//! Live migration of a QEMU VM between hosts: the decisions taken between
//! the database lookups and agent calls that the caller performs.

use vstd::prelude::*;
use vstd::string::StrSliceExecFns;
use crate::backup::{uuid_hyphenated, uuid_text};
use crate::storage::{decimal, decimal_text};
use crate::text::{has_prefix, owned, push_char, push_str, starts_with};

verus! {

/// `s` with every leading copy of `pat` removed, as
/// `str::trim_start_matches(pat)` leaves it.
pub open spec fn without_prefixes(s: Seq<char>, pat: Seq<char>) -> Seq<char>
    decreases s.len(),
{
    if pat.len() > 0 && has_prefix(s, pat) {
        without_prefixes(s.subrange(pat.len() as int, s.len() as int), pat)
    } else {
        s
    }
}

/// The text of `s` before its first `:` (all of it when there is none).
pub open spec fn before_colon(s: Seq<char>) -> Seq<char>
    decreases s.len(),
{
    if s.len() == 0 || s[0] == ':' {
        Seq::empty()
    } else {
        seq![s[0]] + before_colon(s.drop_first())
    }
}

/// The host of an agent address: the scheme `http://` or `https://` taken
/// off, and the port after `:` cut.
pub open spec fn address_host(addr: Seq<char>) -> Seq<char> {
    before_colon(without_prefixes(without_prefixes(addr, "http://"@), "https://"@))
}

/// The QMP migration URI for a target agent address and port.
pub open spec fn target_uri_text(addr: Seq<char>, port: u16) -> Seq<char> {
    "tcp:"@ + address_host(addr) + ":"@ + decimal_text(port as u64)
}

/// Removes every leading copy of `pat`.
fn trim_start_str(s: &str, pat: &str) -> (t: String)
    ensures
        t@ == without_prefixes(s@, pat@),
{
    let n = s.unicode_len();
    let m = pat.unicode_len();
    let mut i: usize = 0;
    assert(s@.subrange(0, n as int) =~= s@);
    if m > 0 {
        while i <= n && starts_with(s.substring_char(i, n), pat)
            invariant
                i <= n,
                n == s@.len(),
                m == pat@.len(),
                m > 0,
                without_prefixes(s@.subrange(i as int, n as int), pat@) == without_prefixes(s@, pat@),
            decreases n - i,
        {
            assert(s@.subrange(i as int, n as int).subrange(m as int, n - i) =~= s@.subrange(i + m, n as int));
            i = i + m;
        }
    }
    let rest = s.substring_char(i, n);
    owned(rest)
}

/// The text before the first `:`.
fn cut_at_colon(s: &str) -> (t: String)
    ensures
        t@ == before_colon(s@),
{
    let n = s.unicode_len();
    let mut t = String::new();
    let mut i: usize = 0;
    assert(s@.subrange(0, n as int) =~= s@);
    assert(t@ + before_colon(s@) =~= before_colon(s@));
    while i < n && s.get_char(i) != ':'
        invariant
            0 <= i <= n,
            n == s@.len(),
            before_colon(s@) == t@ + before_colon(s@.subrange(i as int, n as int)),
        decreases n - i,
    {
        let c = s.get_char(i);
        proof {
            let rest = s@.subrange(i as int, n as int);
            assert(rest.drop_first() =~= s@.subrange(i + 1, n as int));
            assert(t@.push(c) + before_colon(rest.drop_first()) =~= t@ + (seq![c] + before_colon(rest.drop_first())));
        }
        push_char(&mut t, c);
        i = i + 1;
    }
    proof {
        assert(before_colon(s@.subrange(i as int, n as int)) =~= Seq::<char>::empty());
        assert(t@ + Seq::<char>::empty() =~= t@);
    }
    t
}

/// The URI the source VMM migrates to: `tcp:<target host>:<port>`.
pub fn target_uri(addr: &str, port: u16) -> (u: String)
    ensures
        u@ == target_uri_text(addr@, port),
{
    let a = trim_start_str(addr, "http://");
    let b = trim_start_str(a.as_str(), "https://");
    let host = cut_at_colon(b.as_str());
    let mut u = owned("tcp:");
    push_str(&mut u, host.as_str());
    push_str(&mut u, ":");
    let p = decimal(port as u64);
    push_str(&mut u, p.as_str());
    u
}

/// Where a migration stands: the step whose outcome it waits for.
#[derive(Debug, Clone, Copy, PartialEq, Eq)]
pub enum MigrationState {
    /// The VM's row is being loaded.
    LoadingVm,
    /// The target host and the VMM kinds installed on it are being loaded.
    CheckingTarget,
    /// Room for the VM is being reserved on the target.
    Reserving,
    /// The VM's saved boot mode is being loaded.
    LoadingBootMode,
    /// The shared volume holding the VM's root disk is being looked up.
    FindingVolume,
    /// The target agent is starting a VMM that waits for the stream.
    AwaitingIncoming,
    /// The source agent is sending the VM.
    AwaitingOutgoing,
    /// The VM runs on the target and its row names the target host.
    Done,
    /// The migration stopped; the reason went out with the last action.
    Failed,
}

/// The outcome of the step a migration waited for.
#[derive(Debug, Clone, PartialEq, Eq)]
pub enum MigrationEvent {
    VmLoaded { already_on_target: bool },
    TargetChecked { has_qemu: bool },
    ReservationTried { fits: bool },
    BootModeLoaded { present: bool },
    VolumeLookedUp { present: bool },
    IncomingAnswered { success: bool, status: String, body: String },
    OutgoingAnswered { success: bool, status: String, body: String },
}

/// Why a migration stopped.
#[derive(Debug, Clone, PartialEq, Eq)]
pub enum MigrationFailure {
    AlreadyOnTarget,
    NoQemu,
    AtCapacity,
    NoBootMode,
    NoSharedVolume,
    TargetAgent { status: String, body: String },
    SourceAgent { status: String, body: String },
}

/// What to do next.
#[derive(Debug, Clone, PartialEq, Eq)]
pub enum MigrationAction {
    LoadTarget,
    Reserve,
    LoadBootMode,
    FindVolume,
    /// Activate and attach the volume on the target, then ask it to wait for the stream.
    RequestIncoming,
    /// After a short pause for the target to listen, ask the source to migrate.
    RequestOutgoing,
    /// Release the source's reservation and point the VM's row at the target.
    Finish,
    /// Stop; release the target's reservation first when `release_target` is set.
    Fail { release_target: bool, failure: MigrationFailure },
}

/// Whether `event` is the outcome of the step that `state` waits for.
pub open spec fn answers(state: MigrationState, event: MigrationEvent) -> bool {
    match (state, event) {
        (MigrationState::LoadingVm, MigrationEvent::VmLoaded { .. }) => true,
        (MigrationState::CheckingTarget, MigrationEvent::TargetChecked { .. }) => true,
        (MigrationState::Reserving, MigrationEvent::ReservationTried { .. }) => true,
        (MigrationState::LoadingBootMode, MigrationEvent::BootModeLoaded { .. }) => true,
        (MigrationState::FindingVolume, MigrationEvent::VolumeLookedUp { .. }) => true,
        (MigrationState::AwaitingIncoming, MigrationEvent::IncomingAnswered { .. }) => true,
        (MigrationState::AwaitingOutgoing, MigrationEvent::OutgoingAnswered { .. }) => true,
        _ => false,
    }
}

/// A refusal: the migration stops, releasing the target's reservation when set.
pub open spec fn refused(release_target: bool, failure: MigrationFailure) -> (MigrationState, MigrationAction) {
    (MigrationState::Failed, MigrationAction::Fail { release_target, failure })
}

/// The next state and action of a migration, given the outcome of the step
/// it waited for: the VM must not already be on the target, the target must
/// have QEMU and room, the VM must have a saved boot mode and a root disk on
/// a shared volume, and both agents must accept. Once room is reserved, every
/// refusal releases it. (Only events that `answers` admits are taken.)
pub open spec fn migration_next(state: MigrationState, event: MigrationEvent) -> (MigrationState, MigrationAction) {
    match event {
        MigrationEvent::VmLoaded { already_on_target } => if already_on_target {
            refused(false, MigrationFailure::AlreadyOnTarget)
        } else {
            (MigrationState::CheckingTarget, MigrationAction::LoadTarget)
        },
        MigrationEvent::TargetChecked { has_qemu } => if !has_qemu {
            refused(false, MigrationFailure::NoQemu)
        } else {
            (MigrationState::Reserving, MigrationAction::Reserve)
        },
        MigrationEvent::ReservationTried { fits } => if !fits {
            refused(false, MigrationFailure::AtCapacity)
        } else {
            (MigrationState::LoadingBootMode, MigrationAction::LoadBootMode)
        },
        MigrationEvent::BootModeLoaded { present } => if !present {
            refused(true, MigrationFailure::NoBootMode)
        } else {
            (MigrationState::FindingVolume, MigrationAction::FindVolume)
        },
        MigrationEvent::VolumeLookedUp { present } => if !present {
            refused(true, MigrationFailure::NoSharedVolume)
        } else {
            (MigrationState::AwaitingIncoming, MigrationAction::RequestIncoming)
        },
        MigrationEvent::IncomingAnswered { success, status, body } => if !success {
            refused(true, MigrationFailure::TargetAgent { status, body })
        } else {
            (MigrationState::AwaitingOutgoing, MigrationAction::RequestOutgoing)
        },
        MigrationEvent::OutgoingAnswered { success, status, body } => if !success {
            refused(true, MigrationFailure::SourceAgent { status, body })
        } else {
            (MigrationState::Done, MigrationAction::Finish)
        },
    }
}

/// Takes one step of a migration, as `migration_next` describes.
pub fn migration_step(state: MigrationState, event: MigrationEvent) -> (r: (MigrationState, MigrationAction))
    requires
        answers(state, event),
    ensures
        r == migration_next(state, event),
{
    match event {
        MigrationEvent::VmLoaded { already_on_target } => if already_on_target {
            (MigrationState::Failed, MigrationAction::Fail { release_target: false, failure: MigrationFailure::AlreadyOnTarget })
        } else {
            (MigrationState::CheckingTarget, MigrationAction::LoadTarget)
        },
        MigrationEvent::TargetChecked { has_qemu } => if !has_qemu {
            (MigrationState::Failed, MigrationAction::Fail { release_target: false, failure: MigrationFailure::NoQemu })
        } else {
            (MigrationState::Reserving, MigrationAction::Reserve)
        },
        MigrationEvent::ReservationTried { fits } => if !fits {
            (MigrationState::Failed, MigrationAction::Fail { release_target: false, failure: MigrationFailure::AtCapacity })
        } else {
            (MigrationState::LoadingBootMode, MigrationAction::LoadBootMode)
        },
        MigrationEvent::BootModeLoaded { present } => if !present {
            (MigrationState::Failed, MigrationAction::Fail { release_target: true, failure: MigrationFailure::NoBootMode })
        } else {
            (MigrationState::FindingVolume, MigrationAction::FindVolume)
        },
        MigrationEvent::VolumeLookedUp { present } => if !present {
            (MigrationState::Failed, MigrationAction::Fail { release_target: true, failure: MigrationFailure::NoSharedVolume })
        } else {
            (MigrationState::AwaitingIncoming, MigrationAction::RequestIncoming)
        },
        MigrationEvent::IncomingAnswered { success, status, body } => if !success {
            (MigrationState::Failed, MigrationAction::Fail {
                release_target: true,
                failure: MigrationFailure::TargetAgent { status, body },
            })
        } else {
            (MigrationState::AwaitingOutgoing, MigrationAction::RequestOutgoing)
        },
        MigrationEvent::OutgoingAnswered { success, status, body } => if !success {
            (MigrationState::Failed, MigrationAction::Fail {
                release_target: true,
                failure: MigrationFailure::SourceAgent { status, body },
            })
        } else {
            (MigrationState::Done, MigrationAction::Finish)
        },
    }
}

/// The message a failed migration reports.
pub open spec fn failure_text(f: MigrationFailure, target_host_id: Seq<u8>) -> Seq<char> {
    match f {
        MigrationFailure::AlreadyOnTarget => "vm is already on target host "@ + uuid_text(target_host_id),
        MigrationFailure::NoQemu => "target host "@ + uuid_text(target_host_id) + " does not have qemu installed"@,
        MigrationFailure::AtCapacity => "target host "@ + uuid_text(target_host_id) + " is at capacity"@,
        MigrationFailure::NoBootMode => "vm has no persisted boot_mode"@,
        MigrationFailure::NoSharedVolume => "live migration requires shared-storage volume; this VM uses local overlay. Use snapshot+restore to a target host instead."@,
        MigrationFailure::TargetAgent { status, body } => "target agent returned "@ + status@ + " on migrate/incoming: "@ + body@,
        MigrationFailure::SourceAgent { status, body } => "source agent returned "@ + status@ + " on migrate: "@ + body@,
    }
}

/// The message a failed migration to `target_host_id` reports.
pub fn migration_failure_text(f: &MigrationFailure, target_host_id: [u8; 16]) -> (m: String)
    ensures
        m@ == failure_text(*f, target_host_id@),
{
    match f {
        MigrationFailure::AlreadyOnTarget => {
            let mut m = owned("vm is already on target host ");
            let id = uuid_hyphenated(target_host_id);
            push_str(&mut m, id.as_str());
            m
        },
        MigrationFailure::NoQemu => {
            let mut m = owned("target host ");
            let id = uuid_hyphenated(target_host_id);
            push_str(&mut m, id.as_str());
            push_str(&mut m, " does not have qemu installed");
            m
        },
        MigrationFailure::AtCapacity => {
            let mut m = owned("target host ");
            let id = uuid_hyphenated(target_host_id);
            push_str(&mut m, id.as_str());
            push_str(&mut m, " is at capacity");
            m
        },
        MigrationFailure::NoBootMode => owned("vm has no persisted boot_mode"),
        MigrationFailure::NoSharedVolume => owned(
            "live migration requires shared-storage volume; this VM uses local overlay. Use snapshot+restore to a target host instead.",
        ),
        MigrationFailure::TargetAgent { status, body } => {
            let mut m = owned("target agent returned ");
            push_str(&mut m, status.as_str());
            push_str(&mut m, " on migrate/incoming: ");
            push_str(&mut m, body.as_str());
            m
        },
        MigrationFailure::SourceAgent { status, body } => {
            let mut m = owned("source agent returned ");
            push_str(&mut m, status.as_str());
            push_str(&mut m, " on migrate: ");
            push_str(&mut m, body.as_str());
            m
        },
    }
}

/// Where the rescheduling of a VM onto another host (after its host died)
/// stands: the step whose outcome it waits for.
#[derive(Debug, Clone, Copy, PartialEq, Eq)]
pub enum RescheduleState {
    CheckingTarget,
    LoadingBootMode,
    Reserving,
    FindingVolume,
    AwaitingBoot,
    Done,
    Failed,
}

/// The outcome of the step a rescheduling waited for.
#[derive(Debug, Clone, PartialEq, Eq)]
pub enum RescheduleEvent {
    TargetChecked { has_qemu: bool },
    BootModeLoaded { present: bool },
    ReservationTried { fits: bool },
    VolumeLookedUp { present: bool },
    BootAnswered { success: bool, status: String, body: String },
}

/// Why a rescheduling stopped.
#[derive(Debug, Clone, PartialEq, Eq)]
pub enum RescheduleFailure {
    NoQemu,
    NoBootMode,
    AtCapacity,
    NoSharedVolume,
    TargetAgent { status: String, body: String },
}

/// What to do next.
#[derive(Debug, Clone, PartialEq, Eq)]
pub enum RescheduleAction {
    LoadBootMode,
    Reserve,
    FindVolume,
    /// Activate and attach the volume on the target and boot the VM there.
    Boot,
    /// Release the source's reservation and point the VM's row at the target.
    Finish,
    /// Stop; release the target's reservation first when `release_target` is set.
    Fail { release_target: bool, failure: RescheduleFailure },
}

/// Whether `event` is the outcome of the step that `state` waits for.
pub open spec fn reschedule_answers(state: RescheduleState, event: RescheduleEvent) -> bool {
    match (state, event) {
        (RescheduleState::CheckingTarget, RescheduleEvent::TargetChecked { .. }) => true,
        (RescheduleState::LoadingBootMode, RescheduleEvent::BootModeLoaded { .. }) => true,
        (RescheduleState::Reserving, RescheduleEvent::ReservationTried { .. }) => true,
        (RescheduleState::FindingVolume, RescheduleEvent::VolumeLookedUp { .. }) => true,
        (RescheduleState::AwaitingBoot, RescheduleEvent::BootAnswered { .. }) => true,
        _ => false,
    }
}

/// The next state and action of a rescheduling: the target must have QEMU,
/// the VM a saved boot mode, the target room, the VM a root disk on a shared
/// volume, and the target agent must boot it. A refusal after room was
/// reserved releases it. (Only events that `reschedule_answers` admits are taken.)
pub open spec fn reschedule_next(event: RescheduleEvent) -> (RescheduleState, RescheduleAction) {
    match event {
        RescheduleEvent::TargetChecked { has_qemu } => if !has_qemu {
            (RescheduleState::Failed, RescheduleAction::Fail { release_target: false, failure: RescheduleFailure::NoQemu })
        } else {
            (RescheduleState::LoadingBootMode, RescheduleAction::LoadBootMode)
        },
        RescheduleEvent::BootModeLoaded { present } => if !present {
            (RescheduleState::Failed, RescheduleAction::Fail { release_target: false, failure: RescheduleFailure::NoBootMode })
        } else {
            (RescheduleState::Reserving, RescheduleAction::Reserve)
        },
        RescheduleEvent::ReservationTried { fits } => if !fits {
            (RescheduleState::Failed, RescheduleAction::Fail { release_target: false, failure: RescheduleFailure::AtCapacity })
        } else {
            (RescheduleState::FindingVolume, RescheduleAction::FindVolume)
        },
        RescheduleEvent::VolumeLookedUp { present } => if !present {
            (RescheduleState::Failed, RescheduleAction::Fail { release_target: true, failure: RescheduleFailure::NoSharedVolume })
        } else {
            (RescheduleState::AwaitingBoot, RescheduleAction::Boot)
        },
        RescheduleEvent::BootAnswered { success, status, body } => if !success {
            (RescheduleState::Failed, RescheduleAction::Fail {
                release_target: true,
                failure: RescheduleFailure::TargetAgent { status, body },
            })
        } else {
            (RescheduleState::Done, RescheduleAction::Finish)
        },
    }
}

/// Takes one step of a rescheduling, as `reschedule_next` describes.
pub fn reschedule_step(state: RescheduleState, event: RescheduleEvent) -> (r: (RescheduleState, RescheduleAction))
    requires
        reschedule_answers(state, event),
    ensures
        r == reschedule_next(event),
{
    match event {
        RescheduleEvent::TargetChecked { has_qemu } => if !has_qemu {
            (RescheduleState::Failed, RescheduleAction::Fail { release_target: false, failure: RescheduleFailure::NoQemu })
        } else {
            (RescheduleState::LoadingBootMode, RescheduleAction::LoadBootMode)
        },
        RescheduleEvent::BootModeLoaded { present } => if !present {
            (RescheduleState::Failed, RescheduleAction::Fail { release_target: false, failure: RescheduleFailure::NoBootMode })
        } else {
            (RescheduleState::Reserving, RescheduleAction::Reserve)
        },
        RescheduleEvent::ReservationTried { fits } => if !fits {
            (RescheduleState::Failed, RescheduleAction::Fail { release_target: false, failure: RescheduleFailure::AtCapacity })
        } else {
            (RescheduleState::FindingVolume, RescheduleAction::FindVolume)
        },
        RescheduleEvent::VolumeLookedUp { present } => if !present {
            (RescheduleState::Failed, RescheduleAction::Fail { release_target: true, failure: RescheduleFailure::NoSharedVolume })
        } else {
            (RescheduleState::AwaitingBoot, RescheduleAction::Boot)
        },
        RescheduleEvent::BootAnswered { success, status, body } => if !success {
            (RescheduleState::Failed, RescheduleAction::Fail {
                release_target: true,
                failure: RescheduleFailure::TargetAgent { status, body },
            })
        } else {
            (RescheduleState::Done, RescheduleAction::Finish)
        },
    }
}

/// The message a failed rescheduling reports.
pub open spec fn reschedule_failure_text(f: RescheduleFailure, target_host_id: Seq<u8>) -> Seq<char> {
    match f {
        RescheduleFailure::NoQemu => "target host "@ + uuid_text(target_host_id) + " does not have qemu installed"@,
        RescheduleFailure::NoBootMode => "vm has no persisted boot_mode (was it created on 0.5.0?)"@,
        RescheduleFailure::AtCapacity => "target host "@ + uuid_text(target_host_id) + " is at capacity"@,
        RescheduleFailure::NoSharedVolume => "vm has no shared-storage volume \u{2014} reschedule requires backend-allocated disk; use snapshot+restore for local-overlay VMs"@,
        RescheduleFailure::TargetAgent { status, body } => "target agent returned "@ + status@ + ": "@ + body@,
    }
}

/// The message a failed rescheduling onto `target_host_id` reports.
pub fn reschedule_failure_message(f: &RescheduleFailure, target_host_id: [u8; 16]) -> (m: String)
    ensures
        m@ == reschedule_failure_text(*f, target_host_id@),
{
    match f {
        RescheduleFailure::NoQemu => {
            let mut m = owned("target host ");
            let id = uuid_hyphenated(target_host_id);
            push_str(&mut m, id.as_str());
            push_str(&mut m, " does not have qemu installed");
            m
        },
        RescheduleFailure::NoBootMode => owned("vm has no persisted boot_mode (was it created on 0.5.0?)"),
        RescheduleFailure::AtCapacity => {
            let mut m = owned("target host ");
            let id = uuid_hyphenated(target_host_id);
            push_str(&mut m, id.as_str());
            push_str(&mut m, " is at capacity");
            m
        },
        RescheduleFailure::NoSharedVolume => owned(
            "vm has no shared-storage volume \u{2014} reschedule requires backend-allocated disk; use snapshot+restore for local-overlay VMs",
        ),
        RescheduleFailure::TargetAgent { status, body } => {
            let mut m = owned("target agent returned ");
            push_str(&mut m, status.as_str());
            push_str(&mut m, ": ");
            push_str(&mut m, body.as_str());
            m
        },
    }
}

/// Every negative outcome stops a migration, with the failure it names;
/// the target's reservation is released exactly for the refusals that come
/// after it was made (no boot mode, no shared volume, either agent refusing).
pub proof fn migration_refusals(state: MigrationState, status: String, body: String)
    ensures
        migration_next(state, MigrationEvent::VmLoaded { already_on_target: true }) == (
            MigrationState::Failed,
            MigrationAction::Fail { release_target: false, failure: MigrationFailure::AlreadyOnTarget },
        ),
        migration_next(state, MigrationEvent::TargetChecked { has_qemu: false }) == (
            MigrationState::Failed,
            MigrationAction::Fail { release_target: false, failure: MigrationFailure::NoQemu },
        ),
        migration_next(state, MigrationEvent::ReservationTried { fits: false }) == (
            MigrationState::Failed,
            MigrationAction::Fail { release_target: false, failure: MigrationFailure::AtCapacity },
        ),
        migration_next(state, MigrationEvent::BootModeLoaded { present: false }) == (
            MigrationState::Failed,
            MigrationAction::Fail { release_target: true, failure: MigrationFailure::NoBootMode },
        ),
        migration_next(state, MigrationEvent::VolumeLookedUp { present: false }) == (
            MigrationState::Failed,
            MigrationAction::Fail { release_target: true, failure: MigrationFailure::NoSharedVolume },
        ),
        migration_next(state, MigrationEvent::IncomingAnswered { success: false, status, body }) == (
            MigrationState::Failed,
            MigrationAction::Fail { release_target: true, failure: MigrationFailure::TargetAgent { status, body } },
        ),
        migration_next(state, MigrationEvent::OutgoingAnswered { success: false, status, body }) == (
            MigrationState::Failed,
            MigrationAction::Fail { release_target: true, failure: MigrationFailure::SourceAgent { status, body } },
        ),
{
}

/// Every positive outcome moves a migration on to its next step, in the
/// order: load the target, reserve, load the boot mode, find the volume,
/// ask the target to wait, ask the source to send, finish.
pub proof fn migration_advances(state: MigrationState, status: String, body: String)
    ensures
        migration_next(state, MigrationEvent::VmLoaded { already_on_target: false }) == (
            MigrationState::CheckingTarget,
            MigrationAction::LoadTarget,
        ),
        migration_next(state, MigrationEvent::TargetChecked { has_qemu: true }) == (
            MigrationState::Reserving,
            MigrationAction::Reserve,
        ),
        migration_next(state, MigrationEvent::ReservationTried { fits: true }) == (
            MigrationState::LoadingBootMode,
            MigrationAction::LoadBootMode,
        ),
        migration_next(state, MigrationEvent::BootModeLoaded { present: true }) == (
            MigrationState::FindingVolume,
            MigrationAction::FindVolume,
        ),
        migration_next(state, MigrationEvent::VolumeLookedUp { present: true }) == (
            MigrationState::AwaitingIncoming,
            MigrationAction::RequestIncoming,
        ),
        migration_next(state, MigrationEvent::IncomingAnswered { success: true, status, body }) == (
            MigrationState::AwaitingOutgoing,
            MigrationAction::RequestOutgoing,
        ),
        migration_next(state, MigrationEvent::OutgoingAnswered { success: true, status, body }) == (
            MigrationState::Done,
            MigrationAction::Finish,
        ),
{
}

/// A migration finishes only when the source agent accepted the transfer,
/// and it fails exactly when its action is a `Fail`.
pub proof fn migration_finishes_only_on_success(state: MigrationState, event: MigrationEvent)
    ensures
        migration_next(state, event).0 == MigrationState::Done ==> event matches MigrationEvent::OutgoingAnswered {
            success: true,
            ..
        },
        (migration_next(state, event).0 == MigrationState::Failed) == (migration_next(state, event).1 is Fail),
        migration_next(state, event).0 != MigrationState::Done || migration_next(state, event).1 == MigrationAction::Finish,
{
}

/// Every negative outcome stops a rescheduling, with the failure it names;
/// the target's reservation is released exactly for the refusals after it
/// was made (no shared volume, the target refusing to boot).
pub proof fn reschedule_refusals(status: String, body: String)
    ensures
        reschedule_next(RescheduleEvent::TargetChecked { has_qemu: false }) == (
            RescheduleState::Failed,
            RescheduleAction::Fail { release_target: false, failure: RescheduleFailure::NoQemu },
        ),
        reschedule_next(RescheduleEvent::BootModeLoaded { present: false }) == (
            RescheduleState::Failed,
            RescheduleAction::Fail { release_target: false, failure: RescheduleFailure::NoBootMode },
        ),
        reschedule_next(RescheduleEvent::ReservationTried { fits: false }) == (
            RescheduleState::Failed,
            RescheduleAction::Fail { release_target: false, failure: RescheduleFailure::AtCapacity },
        ),
        reschedule_next(RescheduleEvent::VolumeLookedUp { present: false }) == (
            RescheduleState::Failed,
            RescheduleAction::Fail { release_target: true, failure: RescheduleFailure::NoSharedVolume },
        ),
        reschedule_next(RescheduleEvent::BootAnswered { success: false, status, body }) == (
            RescheduleState::Failed,
            RescheduleAction::Fail { release_target: true, failure: RescheduleFailure::TargetAgent { status, body } },
        ),
{
}

/// Every positive outcome moves a rescheduling on: load the boot mode,
/// reserve, find the volume, boot, finish.
pub proof fn reschedule_advances(status: String, body: String)
    ensures
        reschedule_next(RescheduleEvent::TargetChecked { has_qemu: true }) == (
            RescheduleState::LoadingBootMode,
            RescheduleAction::LoadBootMode,
        ),
        reschedule_next(RescheduleEvent::BootModeLoaded { present: true }) == (
            RescheduleState::Reserving,
            RescheduleAction::Reserve,
        ),
        reschedule_next(RescheduleEvent::ReservationTried { fits: true }) == (
            RescheduleState::FindingVolume,
            RescheduleAction::FindVolume,
        ),
        reschedule_next(RescheduleEvent::VolumeLookedUp { present: true }) == (
            RescheduleState::AwaitingBoot,
            RescheduleAction::Boot,
        ),
        reschedule_next(RescheduleEvent::BootAnswered { success: true, status, body }) == (
            RescheduleState::Done,
            RescheduleAction::Finish,
        ),
{
}

/// The URI the source migrates to: `tcp:`, then the target's host (never
/// holding a `:`), then `:` and the port.
pub proof fn target_uri_shape(addr: Seq<char>, port: u16)
    ensures
        target_uri_text(addr, port) == "tcp:"@ + address_host(addr) + ":"@ + decimal_text(port as u64),
        forall|i: int| 0 <= i < address_host(addr).len() ==> address_host(addr)[i] != ':',
        !has_prefix(addr, "http://"@) && !has_prefix(addr, "https://"@) && (forall|i: int| 0 <= i < addr.len() ==> addr[i] != ':')
            ==> address_host(addr) == addr,
{
    let t = without_prefixes(without_prefixes(addr, "http://"@), "https://"@);
    lemma_before_colon(t);
    if !has_prefix(addr, "http://"@) && !has_prefix(addr, "https://"@) && (forall|i: int| 0 <= i < addr.len() ==> addr[i] != ':') {
        assert(without_prefixes(addr, "http://"@) == addr);
        assert(t == addr);
    }
}

/// The text before the first `:` holds no `:`, and is everything when there is none.
proof fn lemma_before_colon(s: Seq<char>)
    ensures
        forall|i: int| 0 <= i < before_colon(s).len() ==> before_colon(s)[i] != ':',
        (forall|i: int| 0 <= i < s.len() ==> s[i] != ':') ==> before_colon(s) == s,
    decreases s.len(),
{
    if s.len() > 0 && s[0] != ':' {
        lemma_before_colon(s.drop_first());
        let r = before_colon(s.drop_first());
        assert forall|i: int| 0 <= i < before_colon(s).len() implies before_colon(s)[i] != ':' by {
            if i > 0 {
                assert(before_colon(s)[i] == r[i - 1]);
            }
        }
        if forall|i: int| 0 <= i < s.len() ==> s[i] != ':' {
            assert forall|i: int| 0 <= i < s.drop_first().len() implies s.drop_first()[i] != ':' by {
                assert(s.drop_first()[i] == s[i + 1]);
            }
            assert(seq![s[0]] + s.drop_first() =~= s);
        }
    }
}

} // verus!
