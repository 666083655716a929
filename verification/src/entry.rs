//! One record of the history log.

use crate::ids::{EventId, LogEntryId};
use crate::state_change::NetworkStateChange;
use vstd::prelude::*;

verus! {

/// A recorded state change. `id` is the entry's own position in the log.
#[derive(Clone, Copy, Debug, PartialEq, Eq, Structural)]
pub struct HistoryLogEntry {
    pub id: LogEntryId,
    pub timestamp: i64,
    pub source_event: EventId,
    pub details: NetworkStateChange,
}

impl HistoryLogEntry {
    /// This entry as it is stored at position `id`.
    pub open spec fn with_id(self, id: LogEntryId) -> HistoryLogEntry {
        HistoryLogEntry { id, ..self }
    }

    /// Records the entry's own position: `index` places after `base`.
    pub fn assign_position(&mut self, base: LogEntryId, index: usize)
        requires
            base + index <= usize::MAX,
        ensures
            *final(self) == old(self).with_id((base + index) as usize),
    {
        self.id = base + index;
    }

    /// Whether the entry was made before `older_than`.
    pub fn is_older_than(&self, older_than: i64) -> (older: bool)
        ensures
            older == (self.timestamp < older_than),
    {
        self.timestamp < older_than
    }
}

} // verus!
