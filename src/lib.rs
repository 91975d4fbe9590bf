//! Replication bookkeeping and wire framing for a gossip-replicated database
//! node: a per-actor ledger of version states, a registry of ledgers, the
//! checksummed change-message codec, and the decisions of the gossip dispatch
//! adapter.
mod booked;
mod bookie;
mod dispatch;
mod ids;
mod message;
mod seqs;
mod version;
mod wire;

pub use booked::{booked_all, booked_of, empty_ledger, entry_at, last_of, lemma_increasing_current_inserts, Booked};
pub use bookie::{ledger_or_empty, lemma_for_actor_idempotent, with_actor, Bookie};
pub use dispatch::{active_after, lemma_active_changes_only_on_lifecycle, DispatchState, NotificationKind, Outbound};
pub use ids::{ActorId, Timestamp};
pub use message::{
    lemma_frame_round_trip, BroadcastInput, Change, Message, MessageDecodeError, MessageEncodeError, MessageV1,
    EFFECTIVE_CAP, EFFECTIVE_HTTP_BROADCAST_SIZE, FRAGMENTS_AT, HTTP_BROADCAST_SIZE, MAX_FRAME_LEN,
};
pub use version::{lemma_divergent_partial_refused, lemma_partial_merge_union, merged, BookError, KnownDbVersion, VersionView};
