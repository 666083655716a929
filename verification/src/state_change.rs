//! The kinds of network state change, and which of them history keeps.

use crate::ids::{MessageId, TargetId, UserId};
use vstd::prelude::*;

verus! {

/// What a `NewMessage` change says of its message.
#[derive(Clone, Copy, Debug, PartialEq, Eq, Structural)]
pub struct NewMessage {
    pub message: MessageId,
    pub source: UserId,
    pub target: TargetId,
}

/// A change of network state, by kind.
#[derive(Clone, Copy, Debug, PartialEq, Eq, Structural)]
pub enum NetworkStateChange {
    NewUser,
    UserModeChange,
    UserAwayChange,
    NewUserConnection,
    UserConnectionDisconnected,
    NewServer,
    ServerQuit,
    NewAuditLogEntry,
    UserLoginChange,
    ServicesUpdate,
    HistoryServerUpdate,
    EventComplete,
    UserNickChange,
    UserQuit,
    ChannelModeChange,
    ChannelTopicChange,
    ListModeAdded,
    ListModeRemoved,
    MembershipFlagChange,
    ChannelJoin,
    ChannelKick,
    ChannelPart,
    ChannelInvite,
    ChannelRename,
    NewMessage(NewMessage),
}

impl NetworkStateChange {
    /// The kinds that history keeps. Every other kind is dropped when it is
    /// offered to the log.
    pub open spec fn recorded(self) -> bool {
        match self {
            NetworkStateChange::UserNickChange
            | NetworkStateChange::UserQuit
            | NetworkStateChange::ChannelModeChange
            | NetworkStateChange::ChannelTopicChange
            | NetworkStateChange::ListModeAdded
            | NetworkStateChange::ListModeRemoved
            | NetworkStateChange::MembershipFlagChange
            | NetworkStateChange::ChannelJoin
            | NetworkStateChange::ChannelKick
            | NetworkStateChange::ChannelPart
            | NetworkStateChange::ChannelInvite
            | NetworkStateChange::ChannelRename
            | NetworkStateChange::NewMessage(_) => true,
            NetworkStateChange::NewUser
            | NetworkStateChange::UserModeChange
            | NetworkStateChange::UserAwayChange
            | NetworkStateChange::NewUserConnection
            | NetworkStateChange::UserConnectionDisconnected
            | NetworkStateChange::NewServer
            | NetworkStateChange::ServerQuit
            | NetworkStateChange::NewAuditLogEntry
            | NetworkStateChange::UserLoginChange
            | NetworkStateChange::ServicesUpdate
            | NetworkStateChange::HistoryServerUpdate
            | NetworkStateChange::EventComplete => false,
        }
    }

    /// Whether history keeps a change of this kind.
    pub fn is_recorded(&self) -> (kept: bool)
        ensures
            kept == self.recorded(),
    {
        match self {
            NetworkStateChange::UserNickChange
            | NetworkStateChange::UserQuit
            | NetworkStateChange::ChannelModeChange
            | NetworkStateChange::ChannelTopicChange
            | NetworkStateChange::ListModeAdded
            | NetworkStateChange::ListModeRemoved
            | NetworkStateChange::MembershipFlagChange
            | NetworkStateChange::ChannelJoin
            | NetworkStateChange::ChannelKick
            | NetworkStateChange::ChannelPart
            | NetworkStateChange::ChannelInvite
            | NetworkStateChange::ChannelRename
            | NetworkStateChange::NewMessage(_) => true,
            NetworkStateChange::NewUser
            | NetworkStateChange::UserModeChange
            | NetworkStateChange::UserAwayChange
            | NetworkStateChange::NewUserConnection
            | NetworkStateChange::UserConnectionDisconnected
            | NetworkStateChange::NewServer
            | NetworkStateChange::ServerQuit
            | NetworkStateChange::NewAuditLogEntry
            | NetworkStateChange::UserLoginChange
            | NetworkStateChange::ServicesUpdate
            | NetworkStateChange::HistoryServerUpdate
            | NetworkStateChange::EventComplete => false,
        }
    }

    /// The conversation that `for_user` files this change under, if any.
    ///
    /// Only a message belongs to a conversation. One sent to `for_user`
    /// belongs to the conversation with its sender; any other belongs to the
    /// user or channel that it was sent to.
    pub open spec fn conversation(self, for_user: UserId) -> Option<TargetId> {
        match self {
            NetworkStateChange::NewMessage(m) => if m.target == TargetId::User(for_user) {
                Some(TargetId::User(m.source))
            } else {
                Some(m.target)
            },
            _ => None,
        }
    }

    /// Computes [`Self::conversation`].
    pub fn conversation_for(&self, for_user: UserId) -> (found: Option<TargetId>)
        ensures
            found == self.conversation(for_user),
    {
        match self {
            NetworkStateChange::NewMessage(m) => if m.target == TargetId::User(for_user) {
                Some(TargetId::User(m.source))
            } else {
                Some(m.target)
            },
            _ => None,
        }
    }
}

} // verus!
