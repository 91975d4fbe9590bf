use crate::ids::Timestamp;
use crate::seqs::{seq_set_clone, seq_set_eq, seqs_of};
use rangemap::RangeInclusiveSet;
use vstd::prelude::*;

verus! {

/// What this node knows of one version of one actor.
pub enum KnownDbVersion {
    /// The changeset was received whole and applied.
    Current { db_version: i64, last_seq: i64, ts: Timestamp },
    /// Part of the changeset arrived: `seqs` holds the sequence numbers
    /// received so far, out of `0..=last_seq`.
    Partial { seqs: RangeInclusiveSet<i64, i64>, last_seq: i64, ts: Timestamp },
    /// The version was acknowledged and its details discarded.
    Cleared,
}

/// The mathematical content of a [`KnownDbVersion`].
pub ghost enum VersionView {
    Current { db_version: i64, last_seq: i64, ts: Timestamp },
    Partial { seqs: Set<int>, last_seq: i64, ts: Timestamp },
    Cleared,
}

impl View for KnownDbVersion {
    type V = VersionView;

    open spec fn view(&self) -> VersionView {
        match self {
            KnownDbVersion::Current { db_version, last_seq, ts } => VersionView::Current {
                db_version: *db_version,
                last_seq: *last_seq,
                ts: *ts,
            },
            KnownDbVersion::Partial { seqs, last_seq, ts } => VersionView::Partial {
                seqs: seqs_of(*seqs),
                last_seq: *last_seq,
                ts: *ts,
            },
            KnownDbVersion::Cleared => VersionView::Cleared,
        }
    }
}

/// Why an entry could not be booked over the entry already held for its
/// version. Each of these points at a protocol fault upstream.
#[derive(Clone, Copy, Debug, PartialEq, Eq, Structural)]
pub enum BookError {
    /// Two partial entries of one version disagree on the last sequence number.
    DivergentLastSeq,
    /// Two partial entries of one version disagree on the timestamp.
    DivergentTimestamp,
    /// A partial entry arrived for a version already current or cleared.
    PartialOverComplete,
    /// A current entry arrived for a version already current with other details.
    DivergentCurrent,
    /// A current entry arrived for a version already cleared.
    CurrentOverCleared,
}

/// The entry that booking `new` over `existing` leaves, or the fault.
///
/// States only advance, from partial to current to cleared:
/// - a partial entry books onto nothing, or merges with a partial entry of
///   the same `last_seq` and `ts` into the union of both sequence sets;
/// - a current entry books onto nothing, promotes a partial entry, and
///   books again onto an identical current entry;
/// - a cleared entry books onto anything.
/// Every other pair is refused.
pub open spec fn merged(existing: Option<VersionView>, new: VersionView) -> Result<VersionView, BookError> {
    match new {
        VersionView::Partial { seqs, last_seq, ts } => match existing {
            None => Ok(new),
            Some(VersionView::Partial { seqs: old_seqs, last_seq: old_last_seq, ts: old_ts }) => {
                if old_last_seq != last_seq {
                    Err(BookError::DivergentLastSeq)
                } else if old_ts != ts {
                    Err(BookError::DivergentTimestamp)
                } else {
                    Ok(VersionView::Partial { seqs: seqs.union(old_seqs), last_seq, ts })
                }
            },
            Some(_) => Err(BookError::PartialOverComplete),
        },
        VersionView::Current { .. } => match existing {
            Some(VersionView::Current { .. }) => if existing == Some(new) {
                Ok(new)
            } else {
                Err(BookError::DivergentCurrent)
            },
            Some(VersionView::Cleared) => Err(BookError::CurrentOverCleared),
            _ => Ok(new),
        },
        VersionView::Cleared => Ok(new),
    }
}

/// Two partial entries that agree on `last_seq` and `ts` merge into the
/// union of their sequence sets, and merging a partial entry into itself
/// leaves it as it was.
pub proof fn lemma_partial_merge_union(held: Set<int>, incoming: Set<int>, last_seq: i64, ts: Timestamp)
    ensures
        merged(Some(VersionView::Partial { seqs: held, last_seq, ts }), VersionView::Partial { seqs: incoming, last_seq, ts }) is Ok,
        merged(Some(VersionView::Partial { seqs: held, last_seq, ts }), VersionView::Partial { seqs: incoming, last_seq, ts })->Ok_0
            == (VersionView::Partial { seqs: held.union(incoming), last_seq, ts }),
        merged(Some(VersionView::Partial { seqs: held, last_seq, ts }), VersionView::Partial { seqs: held, last_seq, ts })->Ok_0
            == (VersionView::Partial { seqs: held, last_seq, ts }),
{
    assert(incoming.union(held) =~= held.union(incoming));
    assert(held.union(held) =~= held);
}

/// Partial entries of one version that disagree on `last_seq` or on `ts`
/// are refused, whatever their sequence sets.
pub proof fn lemma_divergent_partial_refused(
    held: Set<int>,
    incoming: Set<int>,
    held_last_seq: i64,
    last_seq: i64,
    held_ts: Timestamp,
    ts: Timestamp,
)
    requires
        held_last_seq != last_seq || held_ts != ts,
    ensures
        merged(
            Some(VersionView::Partial { seqs: held, last_seq: held_last_seq, ts: held_ts }),
            VersionView::Partial { seqs: incoming, last_seq, ts },
        ) is Err,
{
}

impl KnownDbVersion {
    /// A copy with the same content.
    pub fn duplicate(&self) -> (r: KnownDbVersion)
        ensures
            r@ == self@,
    {
        match self {
            KnownDbVersion::Current { db_version, last_seq, ts } => KnownDbVersion::Current {
                db_version: *db_version,
                last_seq: *last_seq,
                ts: *ts,
            },
            KnownDbVersion::Partial { seqs, last_seq, ts } => KnownDbVersion::Partial {
                seqs: seq_set_clone(seqs),
                last_seq: *last_seq,
                ts: *ts,
            },
            KnownDbVersion::Cleared => KnownDbVersion::Cleared,
        }
    }

    /// Whether two entries have the same content.
    pub fn same_as(&self, other: &KnownDbVersion) -> (r: bool)
        ensures
            r == (self@ == other@),
    {
        match (self, other) {
            (
                KnownDbVersion::Current { db_version: d1, last_seq: l1, ts: t1 },
                KnownDbVersion::Current { db_version: d2, last_seq: l2, ts: t2 },
            ) => *d1 == *d2 && *l1 == *l2 && *t1 == *t2,
            (
                KnownDbVersion::Partial { seqs: s1, last_seq: l1, ts: t1 },
                KnownDbVersion::Partial { seqs: s2, last_seq: l2, ts: t2 },
            ) => *l1 == *l2 && *t1 == *t2 && seq_set_eq(s1, s2),
            (KnownDbVersion::Cleared, KnownDbVersion::Cleared) => true,
            _ => false,
        }
    }
}

impl Clone for KnownDbVersion {
    fn clone(&self) -> (r: KnownDbVersion)
        ensures
            r@ == self@,
    {
        self.duplicate()
    }
}

impl PartialEq for KnownDbVersion {
    fn eq(&self, other: &KnownDbVersion) -> (r: bool) {
        self.same_as(other)
    }
}

impl Eq for KnownDbVersion {

}

impl vstd::std_specs::cmp::PartialEqSpecImpl for KnownDbVersion {
    open spec fn obeys_eq_spec() -> bool {
        true
    }

    open spec fn eq_spec(&self, other: &KnownDbVersion) -> bool {
        self@ == other@
    }
}

} // verus!
