//! Identifiers of the objects that history speaks of.

use vstd::prelude::*;

verus! {

/// Position of an entry in the history log. Assigned densely, never reused.
pub type LogEntryId = usize;

/// Identifies a user of the network.
#[derive(Clone, Copy, Debug, PartialEq, Eq, Structural, Hash)]
pub struct UserId(pub u64);

/// Identifies a channel of the network.
#[derive(Clone, Copy, Debug, PartialEq, Eq, Structural, Hash)]
pub struct ChannelId(pub u64);

/// Identifies a message.
#[derive(Clone, Copy, Debug, PartialEq, Eq, Structural, Hash)]
pub struct MessageId(pub u64);

/// Identifies the network event that a state change came from.
#[derive(Clone, Copy, Debug, PartialEq, Eq, Structural, Hash)]
pub struct EventId {
    pub server: u64,
    pub epoch: u64,
    pub id: u64,
}

/// A conversation: either a user or a channel.
#[derive(Clone, Copy, Debug, PartialEq, Eq, Structural, Hash)]
pub enum TargetId {
    User(UserId),
    Channel(ChannelId),
}

} // verus!
