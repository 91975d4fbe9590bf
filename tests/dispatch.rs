use corro_types::{DispatchState, NotificationKind, Outbound};

#[test]
fn active_follows_lifecycle_notifications() {
    let mut s = DispatchState::new();
    assert!(!s.is_active());
    s.notify(NotificationKind::Active);
    assert!(s.is_active());
    for kind in [
        NotificationKind::MemberUp,
        NotificationKind::MemberDown,
        NotificationKind::Rename,
        NotificationKind::Rejoin,
        NotificationKind::Other,
    ] {
        s.notify(kind);
        assert!(s.is_active());
    }
    s.notify(NotificationKind::Idle);
    assert!(!s.is_active());
    s.notify(NotificationKind::MemberUp);
    assert!(!s.is_active());
    s.notify(NotificationKind::Active);
    s.notify(NotificationKind::Defunct);
    assert!(!s.is_active());
}

#[test]
fn drops_are_counted_per_channel() {
    let mut s = DispatchState::new();
    s.record_send(Outbound::Packets, true);
    s.record_send(Outbound::Packets, false);
    s.record_send(Outbound::Timers, false);
    s.record_send(Outbound::Timers, false);
    s.record_send(Outbound::Notifications, true);
    assert_eq!((s.dropped_packets, s.dropped_timers, s.dropped_notifications), (1, 2, 0));
    s.dropped_notifications = u64::MAX;
    s.record_send(Outbound::Notifications, false);
    assert_eq!(s.dropped_notifications, u64::MAX);
}
