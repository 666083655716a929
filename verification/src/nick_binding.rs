//! The binding of a nickname to the user that holds it.

use crate::ids::{EventId, UserId};
use vstd::prelude::*;

verus! {

/// A nickname, the user that it is bound to, and when and by which event
/// the binding was made.
#[derive(Debug, PartialEq, Eq)]
pub struct NickBinding {
    nick: String,
    user: UserId,
    timestamp: i64,
    created: EventId,
}

/// What a binding holds.
pub struct NickBindingView {
    pub nick: Seq<char>,
    pub user: UserId,
    pub timestamp: i64,
    pub created: EventId,
}

impl View for NickBinding {
    type V = NickBindingView;

    closed spec fn view(&self) -> NickBindingView {
        NickBindingView {
            nick: self.nick@,
            user: self.user,
            timestamp: self.timestamp,
            created: self.created,
        }
    }
}

impl NickBinding {
    /// The binding of `nick` to `user`, made at `timestamp` by the event
    /// `created`.
    pub fn new(nick: String, user: UserId, timestamp: i64, created: EventId) -> (binding: Self)
        ensures
            binding@ == (NickBindingView { nick: nick@, user, timestamp, created }),
    {
        NickBinding { nick, user, timestamp, created }
    }

    /// The nickname.
    pub fn nick(&self) -> (nick: &str)
        ensures
            nick@ == self@.nick,
    {
        self.nick.as_str()
    }

    /// The user that holds the nickname.
    pub fn user(&self) -> (user: UserId)
        ensures
            user == self@.user,
    {
        self.user
    }

    /// When the binding was made.
    pub fn timestamp(&self) -> (timestamp: i64)
        ensures
            timestamp == self@.timestamp,
    {
        self.timestamp
    }

    /// The event that made the binding.
    pub fn created(&self) -> (created: EventId)
        ensures
            created == self@.created,
    {
        self.created
    }
}

} // verus!
