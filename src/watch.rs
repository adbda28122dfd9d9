//! The decisions of the long-lived notification loop.
//!
//! The loop connects to the bus, selects a player, subscribes to that
//! player's property changes and to bus-name ownership changes, and reacts to
//! what arrives. The waiting, the bus calls and the surface updates are done
//! by the caller; here each event is turned into the next state and the action
//! to perform.

use vstd::prelude::*;
use vstd::string::*;
use crate::selector::{parse_playback_status, status_named, PlaybackStatus};
use crate::text::{opt_view, same_text};

verus! {

/// Where the loop stands.
pub enum LoopState {
    /// Waiting for the bus connection.
    Connecting,
    /// Choosing the player to follow.
    Selecting,
    /// Following the named player.
    Subscribed(String),
    /// The transport failed; waiting to connect again.
    Draining,
}

/// What happened.
pub enum LoopEvent {
    /// The bus connection is up.
    Connected,
    /// The bus connection or a call on it failed.
    TransportFailed,
    /// Selection chose the named player.
    PlayerSelected(String),
    /// Selection found no player at all.
    NoPlayer,
    /// A subscription could not be installed.
    SubscribeFailed,
    /// Properties of `interface` changed; `status` is the new playback status
    /// text and `art_url` the new art reference, where the change holds them.
    PropertiesChanged { interface: String, status: Option<String>, art_url: Option<String> },
    /// The owner of bus name `name` changed to `new_owner` (empty: gone).
    OwnerChanged { name: String, new_owner: String },
    /// A notification whose body could not be read.
    Malformed,
    /// A notification of another kind.
    Unrelated,
    /// The stream of notifications ended.
    StreamEnded,
}

/// What to do next.
pub enum LoopAction {
    /// Run player selection.
    Select,
    /// Wait a moment, then run player selection again.
    SelectLater,
    /// Refresh every surface in full, then subscribe to the named player's
    /// property changes and to ownership changes of bus names.
    RefreshAndSubscribe(String),
    /// Refresh every surface in full.
    RefreshAll,
    /// Push the art of this reference (none: no art) to the surfaces.
    UpdateArt(Option<String>),
    /// Nothing to do.
    Ignore,
    /// Wait a moment, then connect again.
    ReconnectLater,
}

/// The interface whose property changes carry playback state and metadata.
pub open spec fn player_interface() -> Seq<char> {
    "org.mpris.MediaPlayer2.Player"@
}

/// Turns an event in a state into the next state and the action to perform.
pub fn next_step(state: &LoopState, event: &LoopEvent) -> (r: (LoopState, LoopAction))
    ensures
        ((state is Connecting || state is Draining) && event is Connected) ==> (r.0 is Selecting
            && r.1 is Select),
        event is TransportFailed ==> (r.0 is Draining && r.1 is ReconnectLater),
        (state is Selecting && event is PlayerSelected) ==> (r.0 is Subscribed && r.1
            is RefreshAndSubscribe && r.0->Subscribed_0@ == event->PlayerSelected_0@
            && r.1->RefreshAndSubscribe_0@ == event->PlayerSelected_0@),
        (state is Selecting && event is NoPlayer) ==> (r.0 is Selecting && r.1 is SelectLater),
        (state is Subscribed && (event is SubscribeFailed || event is StreamEnded)) ==> (r.0
            is Selecting && r.1 is Select),
        (state is Subscribed && event is OwnerChanged) ==> (if event->OwnerChanged_name@
            == state->Subscribed_0@ && event->OwnerChanged_new_owner@.len() == 0 {
            r.0 is Selecting && r.1 is Select
        } else {
            r.0 is Subscribed && r.0->Subscribed_0@ == state->Subscribed_0@ && r.1 is Ignore
        }),
        (state is Subscribed && event is PropertiesChanged) ==> (r.0 is Subscribed
            && r.0->Subscribed_0@ == state->Subscribed_0@ && if event->PropertiesChanged_interface@
            != player_interface() {
            r.1 is Ignore
        } else if (match event->PropertiesChanged_status {
            Some(s) => status_named(s@) == PlaybackStatus::Stopped,
            None => false,
        }) {
            r.1 is RefreshAll
        } else {
            r.1 is UpdateArt && opt_view(r.1->UpdateArt_0) == opt_view(
                event->PropertiesChanged_art_url,
            )
        }),
        (state is Subscribed && (event is Malformed || event is Unrelated || event is Connected
            || event is PlayerSelected || event is NoPlayer)) ==> (r.0 is Subscribed
            && r.0->Subscribed_0@ == state->Subscribed_0@ && r.1 is Ignore),
        !(((state is Connecting || state is Draining) && event is Connected)
            || event is TransportFailed || (state is Selecting && (event is PlayerSelected
            || event is NoPlayer)) || state is Subscribed) ==> (r.1 is Ignore && same_state(
            *state,
            r.0,
        )),
{
    if let LoopEvent::TransportFailed = event {
        return (LoopState::Draining, LoopAction::ReconnectLater);
    }
    match state {
        LoopState::Connecting | LoopState::Draining => match event {
            LoopEvent::Connected => (LoopState::Selecting, LoopAction::Select),
            _ => (keep(state), LoopAction::Ignore),
        },
        LoopState::Selecting => match event {
            LoopEvent::PlayerSelected(name) => (
                LoopState::Subscribed(name.clone()),
                LoopAction::RefreshAndSubscribe(name.clone()),
            ),
            LoopEvent::NoPlayer => (LoopState::Selecting, LoopAction::SelectLater),
            _ => (LoopState::Selecting, LoopAction::Ignore),
        },
        LoopState::Subscribed(player) => {
            let stay = LoopState::Subscribed(player.clone());
            match event {
                LoopEvent::SubscribeFailed | LoopEvent::StreamEnded => (
                    LoopState::Selecting,
                    LoopAction::Select,
                ),
                LoopEvent::OwnerChanged { name, new_owner } => {
                    if *name == *player && new_owner.as_str().is_empty() {
                        (LoopState::Selecting, LoopAction::Select)
                    } else {
                        (stay, LoopAction::Ignore)
                    }
                },
                LoopEvent::PropertiesChanged { interface, status, art_url } => {
                    if !same_text(interface.as_str(), "org.mpris.MediaPlayer2.Player") {
                        (stay, LoopAction::Ignore)
                    } else {
                        let stopped = match status {
                            Some(s) => parse_playback_status(s.as_str())
                                == PlaybackStatus::Stopped,
                            None => false,
                        };
                        if stopped {
                            (stay, LoopAction::RefreshAll)
                        } else {
                            let art = match art_url {
                                Some(u) => Some(u.clone()),
                                None => None,
                            };
                            (stay, LoopAction::UpdateArt(art))
                        }
                    }
                },
                _ => (stay, LoopAction::Ignore),
            }
        },
    }
}

/// Two states are the same: same variant, and for `Subscribed` the same
/// player.
pub open spec fn same_state(a: LoopState, b: LoopState) -> bool {
    match (a, b) {
        (LoopState::Connecting, LoopState::Connecting) => true,
        (LoopState::Selecting, LoopState::Selecting) => true,
        (LoopState::Draining, LoopState::Draining) => true,
        (LoopState::Subscribed(x), LoopState::Subscribed(y)) => x@ == y@,
        _ => false,
    }
}

/// A copy of a state.
fn keep(state: &LoopState) -> (r: LoopState)
    ensures
        same_state(*state, r),
{
    match state {
        LoopState::Connecting => LoopState::Connecting,
        LoopState::Selecting => LoopState::Selecting,
        LoopState::Subscribed(p) => LoopState::Subscribed(p.clone()),
        LoopState::Draining => LoopState::Draining,
    }
}

} // verus!
