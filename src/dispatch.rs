use vstd::prelude::*;

verus! {

/// The kind of a notification from the membership engine, without the
/// members it names.
#[derive(Clone, Copy, Debug, PartialEq, Eq, Structural)]
pub enum NotificationKind {
    MemberUp,
    MemberDown,
    Rename,
    /// This node became an active member of the cluster.
    Active,
    /// This node lost every peer.
    Idle,
    /// This node was declared down and cannot rejoin under its identity.
    Defunct,
    Rejoin,
    /// Any kind this adapter does not act on.
    Other,
}

/// The outbound channels of the dispatch adapter.
#[derive(Clone, Copy, Debug, PartialEq, Eq, Structural)]
pub enum Outbound {
    Packets,
    Timers,
    Notifications,
}

/// Whether the node counts as active after a notification of `kind`.
pub open spec fn active_after(active: bool, kind: NotificationKind) -> bool {
    match kind {
        NotificationKind::Active => true,
        NotificationKind::Idle | NotificationKind::Defunct => false,
        _ => active,
    }
}

/// What the dispatch adapter decides and remembers: the cached activity
/// flag and, for each outbound channel, how many items were dropped because
/// the channel was full.
pub struct DispatchState {
    pub active: bool,
    pub dropped_packets: u64,
    pub dropped_timers: u64,
    pub dropped_notifications: u64,
}

/// `n + 1`, held at the largest `u64`.
pub open spec fn bumped(n: u64) -> u64 {
    if n == u64::MAX {
        n
    } else {
        (n + 1) as u64
    }
}

/// The activity flag changes only on the notifications that concern it:
/// it turns on only on `Active`, and off only on `Idle` or `Defunct`.
pub proof fn lemma_active_changes_only_on_lifecycle(active: bool, kind: NotificationKind)
    ensures
        active_after(active, kind) && !active ==> kind == NotificationKind::Active,
        !active_after(active, kind) && active ==> kind == NotificationKind::Idle || kind == NotificationKind::Defunct,
        kind == NotificationKind::Active ==> active_after(active, kind),
        kind == NotificationKind::Idle || kind == NotificationKind::Defunct ==> !active_after(active, kind),
{
}

impl DispatchState {
    /// Inactive, with nothing dropped.
    pub fn new() -> (r: DispatchState)
        ensures
            !r.active,
            r.dropped_packets == 0,
            r.dropped_timers == 0,
            r.dropped_notifications == 0,
    {
        DispatchState { active: false, dropped_packets: 0, dropped_timers: 0, dropped_notifications: 0 }
    }

    /// Updates the activity flag for a notification of `kind`.
    pub fn notify(&mut self, kind: NotificationKind)
        ensures
            final(self).active == active_after(old(self).active, kind),
            final(self).dropped_packets == old(self).dropped_packets,
            final(self).dropped_timers == old(self).dropped_timers,
            final(self).dropped_notifications == old(self).dropped_notifications,
    {
        match kind {
            NotificationKind::Active => {
                self.active = true;
            },
            NotificationKind::Idle | NotificationKind::Defunct => {
                self.active = false;
            },
            _ => {},
        }
    }

    /// Records the outcome of an attempt to enqueue on `channel`: a full
    /// channel drops the item and counts it; nothing else changes.
    pub fn record_send(&mut self, channel: Outbound, delivered: bool)
        ensures
            final(self).active == old(self).active,
            final(self).dropped_packets == if !delivered && channel == Outbound::Packets {
                bumped(old(self).dropped_packets)
            } else {
                old(self).dropped_packets
            },
            final(self).dropped_timers == if !delivered && channel == Outbound::Timers {
                bumped(old(self).dropped_timers)
            } else {
                old(self).dropped_timers
            },
            final(self).dropped_notifications == if !delivered && channel == Outbound::Notifications {
                bumped(old(self).dropped_notifications)
            } else {
                old(self).dropped_notifications
            },
    {
        if !delivered {
            match channel {
                Outbound::Packets => {
                    self.dropped_packets = self.dropped_packets.saturating_add(1);
                },
                Outbound::Timers => {
                    self.dropped_timers = self.dropped_timers.saturating_add(1);
                },
                Outbound::Notifications => {
                    self.dropped_notifications = self.dropped_notifications.saturating_add(1);
                },
            }
        }
    }

    /// Whether the node counts as active.
    pub fn is_active(&self) -> (r: bool)
        ensures
            r == self.active,
    {
        self.active
    }
}

} // verus!
