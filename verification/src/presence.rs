//! Presence and heartbeat policy: pure timing thresholds, in
//! milliseconds, and the classification of a presence update.
use vstd::prelude::*;

verus! {

/// How often the session re-announces its own presence while ready.
pub const HEARTBEAT_INTERVAL: u64 = 3000;

/// A peer silent longer than this is flagged inactive.
pub const INACTIVE_TIMEOUT: u64 = 6000;

/// A peer silent longer than this is dropped from the online table.
pub const OFFLINE_TIMEOUT: u64 = 12000;

/// Spec-level image of an [`UpdatePresenceKind`].
pub enum UpdatePresenceKindView {
    Boring,
    JoinOrReconnect,
    UsernameChange { previous_username: Seq<char> },
}

/// Why a presence update is being reported.
#[derive(Clone, Debug)]
pub enum UpdatePresenceKind {
    Boring,
    JoinOrReconnect,
    UsernameChange { previous_username: String },
}

impl View for UpdatePresenceKind {
    type V = UpdatePresenceKindView;

    open spec fn view(&self) -> UpdatePresenceKindView {
        match self {
            UpdatePresenceKind::Boring => UpdatePresenceKindView::Boring,
            UpdatePresenceKind::JoinOrReconnect => UpdatePresenceKindView::JoinOrReconnect,
            UpdatePresenceKind::UsernameChange { previous_username } => (
                UpdatePresenceKindView::UsernameChange { previous_username: previous_username@ }
            ),
        }
    }
}

/// A peer whose last announcement is older than the offline timeout has
/// lost liveness.
pub open spec fn spec_is_offline(now: u64, last_seen: u64) -> bool {
    now > last_seen + OFFLINE_TIMEOUT
}

/// A peer whose last announcement is older than the inactive timeout,
/// but not yet offline, is flagged without being removed.
pub open spec fn spec_is_inactive(now: u64, last_seen: u64) -> bool {
    now > last_seen + INACTIVE_TIMEOUT && !spec_is_offline(now, last_seen)
}

} // verus!
