use nexus_core::migration::{
    reschedule_failure_message, reschedule_step, RescheduleAction, RescheduleEvent, RescheduleFailure,
    RescheduleState,
};
use nexus_core::migration::{
    migration_failure_text, migration_step, target_uri, MigrationAction, MigrationEvent, MigrationFailure,
    MigrationState,
};

#[test]
fn target_uri_cuts_scheme_and_port() {
    assert_eq!(target_uri("http://10.0.0.7:9090", 4444), "tcp:10.0.0.7:4444");
    assert_eq!(target_uri("https://node-b:443", 4444), "tcp:node-b:4444");
    assert_eq!(target_uri("node-c", 1), "tcp:node-c:1");
}

#[test]
fn successful_migration_walks_every_step() {
    let steps = vec![
        (MigrationEvent::VmLoaded { already_on_target: false }, MigrationState::CheckingTarget, MigrationAction::LoadTarget),
        (MigrationEvent::TargetChecked { has_qemu: true }, MigrationState::Reserving, MigrationAction::Reserve),
        (MigrationEvent::ReservationTried { fits: true }, MigrationState::LoadingBootMode, MigrationAction::LoadBootMode),
        (MigrationEvent::BootModeLoaded { present: true }, MigrationState::FindingVolume, MigrationAction::FindVolume),
        (MigrationEvent::VolumeLookedUp { present: true }, MigrationState::AwaitingIncoming, MigrationAction::RequestIncoming),
        (
            MigrationEvent::IncomingAnswered { success: true, status: "200 OK".into(), body: String::new() },
            MigrationState::AwaitingOutgoing,
            MigrationAction::RequestOutgoing,
        ),
        (
            MigrationEvent::OutgoingAnswered { success: true, status: "200 OK".into(), body: String::new() },
            MigrationState::Done,
            MigrationAction::Finish,
        ),
    ];
    let mut state = MigrationState::LoadingVm;
    for (event, next, action) in steps {
        let (s, a) = migration_step(state, event);
        assert_eq!(s, next);
        assert_eq!(a, action);
        state = s;
    }
}

#[test]
fn refusals_after_reserving_release_the_target() {
    let (s, a) = migration_step(MigrationState::Reserving, MigrationEvent::ReservationTried { fits: false });
    assert_eq!(s, MigrationState::Failed);
    assert_eq!(a, MigrationAction::Fail { release_target: false, failure: MigrationFailure::AtCapacity });
    let (_, a) = migration_step(MigrationState::FindingVolume, MigrationEvent::VolumeLookedUp { present: false });
    assert_eq!(a, MigrationAction::Fail { release_target: true, failure: MigrationFailure::NoSharedVolume });
    let (_, a) = migration_step(
        MigrationState::AwaitingOutgoing,
        MigrationEvent::OutgoingAnswered { success: false, status: "500 Internal Server Error".into(), body: "boom".into() },
    );
    let failure = match a {
        MigrationAction::Fail { release_target: true, failure } => failure,
        other => panic!("unexpected {other:?}"),
    };
    assert_eq!(
        migration_failure_text(&failure, [0; 16]),
        "source agent returned 500 Internal Server Error on migrate: boom"
    );
}

#[test]
fn failure_texts_name_the_target_host() {
    let id = [0x11; 16];
    assert_eq!(
        migration_failure_text(&MigrationFailure::NoQemu, id),
        "target host 11111111-1111-1111-1111-111111111111 does not have qemu installed"
    );
    assert_eq!(
        migration_failure_text(&MigrationFailure::AlreadyOnTarget, id),
        "vm is already on target host 11111111-1111-1111-1111-111111111111"
    );
    assert_eq!(migration_failure_text(&MigrationFailure::NoBootMode, id), "vm has no persisted boot_mode");
}


#[test]
fn reschedule_checks_then_boots_on_the_target() {
    let (s, a) = reschedule_step(RescheduleState::CheckingTarget, RescheduleEvent::TargetChecked { has_qemu: true });
    assert_eq!((s, a), (RescheduleState::LoadingBootMode, RescheduleAction::LoadBootMode));
    let (s, a) = reschedule_step(s, RescheduleEvent::BootModeLoaded { present: true });
    assert_eq!((s, a), (RescheduleState::Reserving, RescheduleAction::Reserve));
    let (s, a) = reschedule_step(s, RescheduleEvent::ReservationTried { fits: true });
    assert_eq!((s, a), (RescheduleState::FindingVolume, RescheduleAction::FindVolume));
    let (s, a) = reschedule_step(s, RescheduleEvent::VolumeLookedUp { present: true });
    assert_eq!((s, a), (RescheduleState::AwaitingBoot, RescheduleAction::Boot));
    let (s, a) = reschedule_step(
        s,
        RescheduleEvent::BootAnswered { success: true, status: "200 OK".into(), body: String::new() },
    );
    assert_eq!((s, a), (RescheduleState::Done, RescheduleAction::Finish));
}

#[test]
fn reschedule_without_volume_releases_and_explains() {
    let (s, a) = reschedule_step(RescheduleState::FindingVolume, RescheduleEvent::VolumeLookedUp { present: false });
    assert_eq!(s, RescheduleState::Failed);
    assert_eq!(a, RescheduleAction::Fail { release_target: true, failure: RescheduleFailure::NoSharedVolume });
    assert_eq!(
        reschedule_failure_message(&RescheduleFailure::NoSharedVolume, [0; 16]),
        "vm has no shared-storage volume \u{2014} reschedule requires backend-allocated disk; use snapshot+restore for local-overlay VMs"
    );
    let (_, a) = reschedule_step(RescheduleState::LoadingBootMode, RescheduleEvent::BootModeLoaded { present: false });
    assert_eq!(a, RescheduleAction::Fail { release_target: false, failure: RescheduleFailure::NoBootMode });
    assert_eq!(
        reschedule_failure_message(&RescheduleFailure::TargetAgent { status: "502 Bad Gateway".into(), body: "down".into() }, [0; 16]),
        "target agent returned 502 Bad Gateway: down"
    );
}
