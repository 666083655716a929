//! The append-only logs that history is kept in.
//!
//! Storage is `concurrent_log::ConcurrentLog`, always made with a segment
//! size of one, so that trimming releases entry by entry. A log is modelled
//! by the index of its first live item and the items from there on; the
//! functions at the end of this file are the only code that touches a log,
//! and their contracts are taken from the log's source, not proved.

use crate::entry::HistoryLogEntry;
use crate::ids::LogEntryId;
use concurrent_log::ConcurrentLog;
use vstd::prelude::*;

verus! {

/// What a log holds: `items[k]` is the item at index `start + k`. Items
/// before `start` have been trimmed away.
pub struct LogView<T> {
    pub start: nat,
    pub items: Seq<T>,
}

impl<T> LogView<T> {
    /// A log that has never held anything.
    pub open spec fn empty() -> Self {
        LogView { start: 0, items: Seq::empty() }
    }

    /// The index that the next item will get.
    pub open spec fn end(self) -> nat {
        self.start + self.items.len()
    }

    /// The item at `index`, if it is live.
    pub open spec fn get(self, index: int) -> Option<T> {
        if self.start <= index < self.end() {
            Some(self.items[index - self.start])
        } else {
            None
        }
    }

    /// The log after `item` is appended.
    pub open spec fn push(self, item: T) -> Self {
        LogView { start: self.start, items: self.items.push(item) }
    }

    /// The log after its first `count` live items are trimmed away.
    pub open spec fn without_front(self, count: nat) -> Self
        recommends
            count <= self.items.len(),
    {
        LogView { start: self.start + count, items: self.items.skip(count as int) }
    }
}

/// Length of the longest prefix of `items` whose timestamps are all below
/// `older_than`.
pub open spec fn expired_prefix(items: Seq<HistoryLogEntry>, older_than: i64) -> nat
    decreases items.len(),
{
    if items.len() > 0 && items[0].timestamp < older_than {
        1 + expired_prefix(items.drop_first(), older_than)
    } else {
        0
    }
}

/// Length of the longest prefix of `ids` that are all below `floor`.
pub open spec fn stale_prefix(ids: Seq<LogEntryId>, floor: LogEntryId) -> nat
    decreases ids.len(),
{
    if ids.len() > 0 && ids[0] < floor {
        1 + stale_prefix(ids.drop_first(), floor)
    } else {
        0
    }
}

/// Whether `id` refers to an entry below `floor`.
pub fn id_is_below(id: &LogEntryId, floor: LogEntryId) -> (below: bool)
    ensures
        below == (*id < floor),
{
    *id < floor
}

/// What `expired_prefix` counts: the entries before it are older than
/// `older_than`, and the entry at it, if there is one, is not.
pub proof fn lemma_expired_prefix_bounds(items: Seq<HistoryLogEntry>, older_than: i64)
    ensures
        expired_prefix(items, older_than) <= items.len(),
        forall|k: int|
            0 <= k < expired_prefix(items, older_than) ==> (#[trigger] items[k]).timestamp
                < older_than,
        expired_prefix(items, older_than) < items.len() ==> items[expired_prefix(
            items,
            older_than,
        ) as int].timestamp >= older_than,
    decreases items.len(),
{
    if items.len() > 0 && items[0].timestamp < older_than {
        let rest = items.drop_first();
        lemma_expired_prefix_bounds(rest, older_than);
        assert forall|k: int| 0 <= k < expired_prefix(items, older_than) implies (
        #[trigger] items[k]).timestamp < older_than by {
            if k > 0 {
                assert(items[k] == rest[k - 1]);
            }
        }
        if expired_prefix(items, older_than) < items.len() {
            assert(items[expired_prefix(items, older_than) as int] == rest[expired_prefix(
                rest,
                older_than,
            ) as int]);
        }
    }
}

/// What `stale_prefix` counts: the ids before it are below `floor`, and the
/// id at it, if there is one, is not.
pub proof fn lemma_stale_prefix_bounds(ids: Seq<LogEntryId>, floor: LogEntryId)
    ensures
        stale_prefix(ids, floor) <= ids.len(),
        forall|k: int| 0 <= k < stale_prefix(ids, floor) ==> #[trigger] ids[k] < floor,
        stale_prefix(ids, floor) < ids.len() ==> ids[stale_prefix(ids, floor) as int] >= floor,
    decreases ids.len(),
{
    if ids.len() > 0 && ids[0] < floor {
        let rest = ids.drop_first();
        lemma_stale_prefix_bounds(rest, floor);
        assert forall|k: int| 0 <= k < stale_prefix(ids, floor) implies #[trigger] ids[k]
            < floor by {
            if k > 0 {
                assert(ids[k] == rest[k - 1]);
            }
        }
        if stale_prefix(ids, floor) < ids.len() {
            assert(ids[stale_prefix(ids, floor) as int] == rest[stale_prefix(rest, floor) as int]);
        }
    }
}

/// `concurrent_log::ConcurrentLog`, of which Verus sees nothing but the name.
#[verifier::external_type_specification]
#[verifier::external_body]
#[verifier::reject_recursive_types(T)]
pub struct ExConcurrentLog<T>(ConcurrentLog<T>);

/// Index of the first live entry of a log of entries.
pub uninterp spec fn entry_log_start(log: ConcurrentLog<HistoryLogEntry>) -> nat;

/// The live entries of a log of entries, oldest first.
pub uninterp spec fn entry_log_items(log: ConcurrentLog<HistoryLogEntry>) -> Seq<HistoryLogEntry>;

/// The segment size that a log of entries was made with.
pub uninterp spec fn entry_log_segment_size(log: ConcurrentLog<HistoryLogEntry>) -> nat;

/// Index of the first live item of a log of entry ids.
pub uninterp spec fn id_log_start(log: ConcurrentLog<LogEntryId>) -> nat;

/// The live items of a log of entry ids, oldest first.
pub uninterp spec fn id_log_items(log: ConcurrentLog<LogEntryId>) -> Seq<LogEntryId>;

/// The segment size that a log of entry ids was made with.
pub uninterp spec fn id_log_segment_size(log: ConcurrentLog<LogEntryId>) -> nat;

/// The model of a log of entries.
pub open spec fn entry_log_view(log: ConcurrentLog<HistoryLogEntry>) -> LogView<HistoryLogEntry> {
    LogView { start: entry_log_start(log), items: entry_log_items(log) }
}

/// The model of a log of entry ids.
pub open spec fn id_log_view(log: ConcurrentLog<LogEntryId>) -> LogView<LogEntryId> {
    LogView { start: id_log_start(log), items: id_log_items(log) }
}

/// `ConcurrentLog::with_segment_size`, called with 1. Trusted: the new log
/// is empty, starts at index 0, and has segment size 1.
#[verifier::external_body]
pub(crate) fn entry_log_new() -> (log: ConcurrentLog<HistoryLogEntry>)
    ensures
        entry_log_start(log) == 0,
        entry_log_items(log) == Seq::<HistoryLogEntry>::empty(),
        entry_log_segment_size(log) == 1,
{
    ConcurrentLog::with_segment_size(1)
}

/// `ConcurrentLog::push_with_index`, with a closure that writes into the
/// entry the index it got, counted from `base`. Trusted: the entry is
/// appended with that `id`, the index is the old end of the log and is
/// returned, and nothing else changes. The log's end must be below
/// `usize::MAX`, where its counter would wrap.
#[verifier::external_body]
pub(crate) fn entry_log_push(
    log: &mut ConcurrentLog<HistoryLogEntry>,
    entry: HistoryLogEntry,
    base: LogEntryId,
) -> (index: usize)
    requires
        base + entry_log_view(*old(log)).end() < usize::MAX,
    ensures
        index == entry_log_view(*old(log)).end(),
        entry_log_items(*final(log)) == entry_log_items(*old(log)).push(
            entry.with_id((base + index) as usize),
        ),
        entry_log_start(*final(log)) == entry_log_start(*old(log)),
        entry_log_segment_size(*final(log)) == entry_log_segment_size(*old(log)),
{
    log.push_with_index(entry, |e: &mut HistoryLogEntry, i: usize| e.assign_position(base, i))
}

/// `ConcurrentLog::get`. Trusted: the entry at `index` is returned exactly
/// when `index` lies between the log's start and its end.
#[verifier::external_body]
pub(crate) fn entry_log_get(log: &ConcurrentLog<HistoryLogEntry>, index: LogEntryId) -> (found:
    Option<&HistoryLogEntry>)
    ensures
        match found {
            Some(entry) => entry_log_view(*log).get(index as int) == Some(*entry),
            None => entry_log_view(*log).get(index as int) is None,
        },
{
    log.get(index)
}

/// `ConcurrentLog::start_index`. Trusted: returns the index of the first
/// live entry.
#[verifier::external_body]
pub(crate) fn entry_log_start_index(log: &ConcurrentLog<HistoryLogEntry>) -> (start: LogEntryId)
    ensures
        start == entry_log_start(*log),
{
    log.start_index()
}

/// `ConcurrentLog::last_index`. Trusted: returns the log's end, the index
/// that the next entry will get.
#[verifier::external_body]
pub(crate) fn entry_log_last_index(log: &ConcurrentLog<HistoryLogEntry>) -> (end: LogEntryId)
    ensures
        end == entry_log_view(*log).end(),
{
    log.last_index()
}

/// `ConcurrentLog::trim`, with the test "older than `older_than`". Trusted,
/// for a log of segment size 1 only: the longest prefix of live entries that
/// all pass the test is removed, the start moves up by its length, and
/// nothing else changes.
#[verifier::external_body]
pub(crate) fn entry_log_trim(log: &mut ConcurrentLog<HistoryLogEntry>, older_than: i64)
    requires
        entry_log_segment_size(*old(log)) == 1,
    ensures
        entry_log_start(*final(log)) == entry_log_start(*old(log)) + expired_prefix(
            entry_log_items(*old(log)),
            older_than,
        ),
        entry_log_items(*final(log)) == entry_log_items(*old(log)).skip(
            expired_prefix(entry_log_items(*old(log)), older_than) as int,
        ),
        entry_log_segment_size(*final(log)) == entry_log_segment_size(*old(log)),
{
    log.trim(|e: &HistoryLogEntry| e.is_older_than(older_than))
}

/// `ConcurrentLog::with_segment_size`, called with 1. Trusted: the new log
/// is empty, starts at index 0, and has segment size 1.
#[verifier::external_body]
pub(crate) fn id_log_new() -> (log: ConcurrentLog<LogEntryId>)
    ensures
        id_log_start(log) == 0,
        id_log_items(log) == Seq::<LogEntryId>::empty(),
        id_log_segment_size(log) == 1,
{
    ConcurrentLog::with_segment_size(1)
}

/// `ConcurrentLog::push`. Trusted: the id is appended, its index is the old
/// end of the log and is returned, and nothing else changes. The log's end
/// must be below `usize::MAX`, where its counter would wrap.
#[verifier::external_body]
pub(crate) fn id_log_push(log: &mut ConcurrentLog<LogEntryId>, id: LogEntryId) -> (index: usize)
    requires
        id_log_view(*old(log)).end() < usize::MAX,
    ensures
        index == id_log_view(*old(log)).end(),
        id_log_items(*final(log)) == id_log_items(*old(log)).push(id),
        id_log_start(*final(log)) == id_log_start(*old(log)),
        id_log_segment_size(*final(log)) == id_log_segment_size(*old(log)),
{
    log.push(id)
}

/// `ConcurrentLog::get`. Trusted: the id at `index` is returned exactly when
/// `index` lies between the log's start and its end.
#[verifier::external_body]
pub(crate) fn id_log_get(log: &ConcurrentLog<LogEntryId>, index: usize) -> (found: Option<
    LogEntryId,
>)
    ensures
        found == id_log_view(*log).get(index as int),
{
    log.get(index).copied()
}

/// `ConcurrentLog::start_index`. Trusted: returns the index of the first
/// live item.
#[verifier::external_body]
pub(crate) fn id_log_start_index(log: &ConcurrentLog<LogEntryId>) -> (start: usize)
    ensures
        start == id_log_start(*log),
{
    log.start_index()
}

/// `ConcurrentLog::last_index`. Trusted: returns the log's end, the index
/// that the next item will get.
#[verifier::external_body]
pub(crate) fn id_log_last_index(log: &ConcurrentLog<LogEntryId>) -> (end: usize)
    ensures
        end == id_log_view(*log).end(),
{
    log.last_index()
}

/// `ConcurrentLog::trim`, with the test "below `floor`". Trusted, for a log
/// of segment size 1 only: the longest prefix of live ids that all pass the
/// test is removed, the start moves up by its length, and nothing else
/// changes.
#[verifier::external_body]
pub(crate) fn id_log_trim(log: &mut ConcurrentLog<LogEntryId>, floor: LogEntryId)
    requires
        id_log_segment_size(*old(log)) == 1,
    ensures
        id_log_start(*final(log)) == id_log_start(*old(log)) + stale_prefix(
            id_log_items(*old(log)),
            floor,
        ),
        id_log_items(*final(log)) == id_log_items(*old(log)).skip(
            stale_prefix(id_log_items(*old(log)), floor) as int,
        ),
        id_log_segment_size(*final(log)) == id_log_segment_size(*old(log)),
{
    log.trim(|id: &LogEntryId| id_is_below(id, floor))
}

} // verus!
