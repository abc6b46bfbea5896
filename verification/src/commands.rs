//! The two message-passing boundaries of the session engine: commands
//! coming in from the interface, events going out to it.
use vstd::prelude::*;
use crate::error::{NetError, NetErrorView};
use crate::ether_type::EtherType;
use crate::ktp::Id;
use crate::presence::{UpdatePresenceKind, UpdatePresenceKindView};

verus! {

/// A command handed to the session engine.
#[derive(Clone, Debug)]
pub enum NetCommand {
    PauseHeartbeat(bool),
    SendMessage { message_text: String },
    SetEtherType(EtherType),
    SetInterface { interface_name: String },
    Terminate,
    UpdateUsername(String),
}

/// Spec-level image of a [`UICommand`], with text as character sequences.
pub enum UICommandView {
    AlertUser,
    SendNetError(NetErrorView),
    ShowMessage { id: Id, username: Seq<char>, message: Seq<char>, is_outgoing_message: bool },
    PresenceUpdate { id: Id, username: Seq<char>, is_inactive: bool, kind: UpdatePresenceKindView },
    RemovePresence { id: Id, username: Seq<char> },
}

/// An event the session engine reports to the interface.
#[derive(Clone, Debug)]
pub enum UICommand {
    AlertUser,
    SendNetError(NetError),
    ShowMessage { id: Id, username: String, message: String, is_outgoing_message: bool },
    PresenceUpdate { id: Id, username: String, is_inactive: bool, kind: UpdatePresenceKind },
    RemovePresence { id: Id, username: String },
}

impl View for UICommand {
    type V = UICommandView;

    open spec fn view(&self) -> UICommandView {
        match self {
            UICommand::AlertUser => UICommandView::AlertUser,
            UICommand::SendNetError(e) => UICommandView::SendNetError(e@),
            UICommand::ShowMessage { id, username, message, is_outgoing_message } => (
                UICommandView::ShowMessage {
                    id: *id,
                    username: username@,
                    message: message@,
                    is_outgoing_message: *is_outgoing_message,
                }
            ),
            UICommand::PresenceUpdate { id, username, is_inactive, kind } => (
                UICommandView::PresenceUpdate {
                    id: *id,
                    username: username@,
                    is_inactive: *is_inactive,
                    kind: kind@,
                }
            ),
            UICommand::RemovePresence { id, username } => (
                UICommandView::RemovePresence { id: *id, username: username@ }
            ),
        }
    }
}

/// The views of a sequence of engine events, in order.
pub open spec fn spec_events_view(s: Seq<UICommand>) -> Seq<UICommandView> {
    s.map_values(|e: UICommand| e@)
}

} // verus!
