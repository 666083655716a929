//! Conversation history for a chat network: an append-only record of state
//! changes, per-user indices over it, and the queries that read them.
//!
//! - [`append_log`]: the logs that everything is stored in, and what is
//!   taken on trust of them.
//! - [`log`]: the history log itself: recording, indexing, walking, expiry,
//!   snapshots.
//! - [`query`]: the entries of a conversation that a request selects, and the
//!   conversations that a user has lately had.
//! - [`chathistory`]: the history command of the client protocol.
//! - [`targets`]: the order in which conversations are presented.
//! - [`channel_names`]: the list of a channel's members, packed into lines.
//! - [`text`]: characters and decimal numbers.
//!
//! Every function that changes a log takes it by `&mut`: a caller that
//! shares one log between threads puts it behind a lock of its own.

pub mod append_log;
pub mod channel_names;
pub mod chathistory;
pub mod entry;
pub mod ids;
pub mod log;
pub mod nick_binding;
pub mod query;
pub mod state_change;
pub mod targets;
pub mod text;
