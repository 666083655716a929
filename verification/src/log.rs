//! The history log: one log of entries, and for each user a log of the ids
//! of the entries that the user can see.

use crate::append_log::{
    entry_log_get, entry_log_items, entry_log_last_index, entry_log_new, entry_log_push,
    entry_log_segment_size, entry_log_start, entry_log_start_index, entry_log_trim,
    entry_log_view, expired_prefix, id_log_new,
    id_log_get, id_log_last_index, id_log_push, id_log_segment_size, id_log_start_index,
    id_log_trim, id_log_view, lemma_expired_prefix_bounds, lemma_stale_prefix_bounds,
    stale_prefix, LogView,
};
use crate::entry::HistoryLogEntry;
use crate::ids::{EventId, LogEntryId, UserId};
use crate::query::HistoryError;
use crate::state_change::NetworkStateChange;
use concurrent_log::ConcurrentLog;
use std::collections::HashMap;
use vstd::prelude::*;
use vstd::string::StringExecFns;

verus! {

broadcast use vstd::std_specs::hash::group_hash_axioms;

/// The entries that the ids of an index refer to, in the index's order. An
/// id whose entry is not live is passed over.
pub open spec fn resolve(ids: Seq<LogEntryId>, entries: LogView<HistoryLogEntry>) -> Seq<
    HistoryLogEntry,
>
    decreases ids.len(),
{
    if ids.len() == 0 {
        Seq::empty()
    } else {
        let before = resolve(ids.drop_last(), entries);
        match entries.get(ids.last() as int) {
            Some(entry) => before.push(entry),
            None => before,
        }
    }
}

/// What one id of an index contributes: its entry, or nothing.
pub open spec fn resolve_one(id: LogEntryId, entries: LogView<HistoryLogEntry>) -> Seq<
    HistoryLogEntry,
> {
    match entries.get(id as int) {
        Some(entry) => seq![entry],
        None => Seq::empty(),
    }
}

/// Resolving two indices one after the other resolves their concatenation.
pub proof fn lemma_resolve_concat(
    a: Seq<LogEntryId>,
    b: Seq<LogEntryId>,
    entries: LogView<HistoryLogEntry>,
)
    ensures
        resolve(a + b, entries) == resolve(a, entries) + resolve(b, entries),
    decreases b.len(),
{
    if b.len() == 0 {
        assert(a + b =~= a);
        assert(resolve(a, entries) + resolve(b, entries) =~= resolve(a, entries));
    } else {
        assert((a + b).drop_last() =~= a + b.drop_last());
        assert((a + b).last() == b.last());
        lemma_resolve_concat(a, b.drop_last(), entries);
        let front = resolve(a, entries) + resolve(b.drop_last(), entries);
        match entries.get(b.last() as int) {
            Some(entry) => {
                assert(front.push(entry) =~= resolve(a, entries) + resolve(
                    b.drop_last(),
                    entries,
                ).push(entry));
            },
            None => {},
        }
    }
}

/// Resolving an index is resolving its first id, then the rest.
pub proof fn lemma_resolve_front(ids: Seq<LogEntryId>, entries: LogView<HistoryLogEntry>)
    requires
        ids.len() > 0,
    ensures
        resolve(ids, entries) == resolve_one(ids[0], entries) + resolve(ids.drop_first(), entries),
{
    let head = seq![ids[0]];
    assert(ids =~= head + ids.drop_first());
    lemma_resolve_concat(head, ids.drop_first(), entries);
    assert(head.drop_last() =~= Seq::<LogEntryId>::empty());
    assert(resolve(head, entries) =~= resolve_one(ids[0], entries)) by {
        assert(resolve(head.drop_last(), entries) =~= Seq::<HistoryLogEntry>::empty());
        assert(head.last() == ids[0]);
        match entries.get(ids[0] as int) {
            Some(entry) => {
                assert(Seq::<HistoryLogEntry>::empty().push(entry) =~= seq![entry]);
            },
            None => {},
        }
    }
}

/// What a history log holds.
pub struct HistoryView {
    /// The log of entries.
    pub entries: LogView<HistoryLogEntry>,
    /// For each user that has one, the user's index.
    pub user_logs: Map<UserId, LogView<LogEntryId>>,
}

impl HistoryView {
    /// The live ids of `user`'s index; empty where the user has none.
    pub open spec fn index_of(self, user: UserId) -> LogView<LogEntryId> {
        if self.user_logs.contains_key(user) {
            self.user_logs[user]
        } else {
            LogView::empty()
        }
    }

    /// The entries that `user` can see, in the order of the user's index.
    pub open spec fn visible(self, user: UserId) -> Seq<HistoryLogEntry> {
        resolve(self.index_of(user).items, self.entries)
    }

    /// Every live entry carries its own index as its id.
    pub open spec fn ids_match(self) -> bool {
        forall|k: int|
            0 <= k < self.entries.items.len() ==> (#[trigger] self.entries.items[k]).id
                == self.entries.start + k
    }

    /// Every live entry is of a kind that history keeps.
    pub open spec fn all_recorded(self) -> bool {
        forall|k: int|
            0 <= k < self.entries.items.len() ==> (#[trigger] self.entries.items[k]).details.recorded()
    }

    /// Every id in every index is below the end of the log of entries.
    pub open spec fn indices_in_bounds(self) -> bool {
        forall|user: UserId, k: int|
            self.user_logs.contains_key(user) && 0 <= k < self.user_logs[user].items.len()
                ==> (#[trigger] self.user_logs[user].items[k]) < self.entries.end()
    }

    /// The log after a change is recorded at `timestamp`.
    pub open spec fn with_entry(
        self,
        details: NetworkStateChange,
        source_event: EventId,
        timestamp: i64,
    ) -> HistoryView {
        HistoryView {
            entries: self.entries.push(
                HistoryLogEntry {
                    id: self.entries.end() as usize,
                    timestamp,
                    source_event,
                    details,
                },
            ),
            user_logs: self.user_logs,
        }
    }

    /// The log after `entry_id` is appended to `user`'s index.
    pub open spec fn with_index_entry(self, user: UserId, entry_id: LogEntryId) -> HistoryView {
        HistoryView {
            entries: self.entries,
            user_logs: self.user_logs.insert(user, self.index_of(user).push(entry_id)),
        }
    }

    /// The log after everything older than `older_than` is expired: the
    /// longest prefix of entries older than that leaves the log of entries,
    /// and from each index the longest prefix of ids below the new start.
    pub open spec fn expired(self, older_than: i64) -> HistoryView {
        let entries = self.entries.without_front(expired_prefix(self.entries.items, older_than));
        HistoryView {
            entries,
            user_logs: Map::new(
                |user: UserId| self.user_logs.contains_key(user),
                |user: UserId|
                    self.user_logs[user].without_front(
                        stale_prefix(self.user_logs[user].items, entries.start as usize),
                    ),
            ),
        }
    }
}

/// A change that is offered to the log.
pub struct Offer {
    pub details: NetworkStateChange,
    pub source_event: EventId,
    pub timestamp: i64,
}

/// The log after `offers` have been offered to it in order: those of a kind
/// that history keeps are recorded, the others change nothing.
pub open spec fn after_offers(history: HistoryView, offers: Seq<Offer>) -> HistoryView
    decreases offers.len(),
{
    if offers.len() == 0 {
        history
    } else {
        let before = after_offers(history, offers.drop_last());
        let offer = offers.last();
        if offer.details.recorded() {
            before.with_entry(offer.details, offer.source_event, offer.timestamp)
        } else {
            before
        }
    }
}

/// How many of `offers` are of a kind that history keeps.
pub open spec fn kept_count(offers: Seq<Offer>) -> nat
    decreases offers.len(),
{
    if offers.len() == 0 {
        0
    } else {
        kept_count(offers.drop_last()) + if offers.last().details.recorded() {
            1nat
        } else {
            0nat
        }
    }
}

/// The id that the log gives to the `i`-th of `offers`, which is of a kind
/// that history keeps: the end of the log as the offers before it left it.
pub open spec fn id_given(history: HistoryView, offers: Seq<Offer>, i: int) -> nat {
    after_offers(history, offers.take(i)).entries.end()
}

/// Offers move the end of the log by the number of them that are kept, and
/// touch neither its start nor any index.
pub proof fn lemma_after_offers(history: HistoryView, offers: Seq<Offer>)
    ensures
        after_offers(history, offers).entries.end() == history.entries.end() + kept_count(offers),
        after_offers(history, offers).entries.start == history.entries.start,
        after_offers(history, offers).user_logs == history.user_logs,
    decreases offers.len(),
{
    if offers.len() > 0 {
        lemma_after_offers(history, offers.drop_last());
    }
}

/// Ids are given in rising order, each once, and none is left out: of two
/// kept offers the later gets the higher id, and the two ids differ by the
/// number of kept offers from the earlier one up to the later.
pub proof fn lemma_ids_are_dense(history: HistoryView, offers: Seq<Offer>, i: int, j: int)
    requires
        0 <= i < j < offers.len(),
        offers[i].details.recorded(),
        offers[j].details.recorded(),
    ensures
        id_given(history, offers, i) < id_given(history, offers, j),
        id_given(history, offers, j) - id_given(history, offers, i) == kept_count(
            offers.subrange(i, j),
        ),
        kept_count(offers.subrange(i, j)) >= 1,
        i + 1 == j ==> id_given(history, offers, j) == id_given(history, offers, i) + 1,
{
    lemma_after_offers(history, offers.take(i));
    lemma_after_offers(history, offers.take(j));
    lemma_kept_count_concat(offers.take(i), offers.subrange(i, j));
    assert(offers.take(i) + offers.subrange(i, j) =~= offers.take(j));
    lemma_kept_count_concat(seq![offers[i]], offers.subrange(i + 1, j));
    assert(seq![offers[i]] + offers.subrange(i + 1, j) =~= offers.subrange(i, j));
    assert(seq![offers[i]].drop_last() =~= Seq::<Offer>::empty());
    assert(kept_count(seq![offers[i]]) == 1) by {
        assert(seq![offers[i]].last() == offers[i]);
        assert(kept_count(seq![offers[i]].drop_last()) == 0);
    }
    if i + 1 == j {
        assert(offers.subrange(i + 1, j) =~= Seq::<Offer>::empty());
    }
}

/// The kept offers of two rows are those of the one and those of the other.
pub proof fn lemma_kept_count_concat(a: Seq<Offer>, b: Seq<Offer>)
    ensures
        kept_count(a + b) == kept_count(a) + kept_count(b),
    decreases b.len(),
{
    if b.len() == 0 {
        assert(a + b =~= a);
    } else {
        assert((a + b).drop_last() =~= a + b.drop_last());
        lemma_kept_count_concat(a, b.drop_last());
    }
}

/// Expiry removes a prefix of the live entries and nothing else: the end of
/// the log stays, every entry that stays is unchanged, every entry from the
/// new start on stays, and no entry as new as `older_than` is removed.
/// Where timestamps never fall from one live entry to the next, every entry
/// that stays is as new as `older_than`.
pub proof fn lemma_expiry_removes_a_prefix(history: HistoryView, older_than: i64)
    ensures
        history.expired(older_than).entries.end() == history.entries.end(),
        history.entries.start <= history.expired(older_than).entries.start
            <= history.entries.end(),
        forall|i: int|
            history.expired(older_than).entries.start <= i < history.entries.end() ==> #[trigger]
            history.expired(older_than).entries.get(i) == history.entries.get(i),
        forall|i: int|
            i < history.expired(older_than).entries.start ==> #[trigger] history.expired(
                older_than,
            ).entries.get(i) is None,
        forall|i: int|
            history.entries.start <= i < history.expired(older_than).entries.start ==> (
            #[trigger] history.entries.get(i))->0.timestamp < older_than,
        forall|i: int|
            (#[trigger] history.entries.get(i)) is Some && history.entries.get(i)->0.timestamp
                >= older_than ==> history.expired(older_than).entries.get(i)
                == history.entries.get(i),
        (forall|a: int, b: int|
            0 <= a <= b < history.entries.items.len() ==> history.entries.items[a].timestamp
                <= history.entries.items[b].timestamp) ==> forall|i: int|
            (#[trigger] history.expired(older_than).entries.get(i)) is Some ==> history.expired(
                older_than,
            ).entries.get(i)->0.timestamp >= older_than,
{
    let items = history.entries.items;
    let cut = expired_prefix(items, older_than);
    lemma_expired_prefix_bounds(items, older_than);
    let after = history.expired(older_than).entries;
    assert forall|i: int| after.start <= i < history.entries.end() implies #[trigger] after.get(i)
        == history.entries.get(i) by {
        assert(after.items[i - after.start] == items[i - history.entries.start]);
    }
    assert forall|i: int|
        (#[trigger] history.entries.get(i)) is Some && history.entries.get(i)->0.timestamp
            >= older_than implies after.get(i) == history.entries.get(i) by {
        let k = i - history.entries.start;
        if k < cut {
            assert(items[k].timestamp < older_than);
        }
        assert(after.items[i - after.start] == items[k]);
    }
    if forall|a: int, b: int|
        0 <= a <= b < items.len() ==> items[a].timestamp <= items[b].timestamp {
        assert forall|i: int| (#[trigger] after.get(i)) is Some implies after.get(
            i,
        )->0.timestamp >= older_than by {
            let k = i - history.entries.start;
            assert(after.items[i - after.start] == items[k]);
            assert(items[cut as int].timestamp <= items[k].timestamp);
        }
    }
}

/// An id whose entry is gone leaves no gap in what a walk gives: of an index
/// `[a, b, c]` where only the entry of `b` is gone, the walk from the oldest
/// gives the entries of `a` and `c`, and the walk from the newest gives
/// those of `c` and `a`.
pub proof fn lemma_holes_are_passed_over(
    entries: LogView<HistoryLogEntry>,
    a: LogEntryId,
    b: LogEntryId,
    c: LogEntryId,
)
    requires
        entries.get(a as int) is Some,
        entries.get(b as int) is None,
        entries.get(c as int) is Some,
    ensures
        resolve(seq![a, b, c], entries) == seq![entries.get(a as int)->0, entries.get(c as int)->0],
        resolve(seq![a, b, c], entries).reverse() == seq![
            entries.get(c as int)->0,
            entries.get(a as int)->0,
        ],
{
    let index = seq![a, b, c];
    lemma_resolve_front(index, entries);
    assert(index.drop_first() =~= seq![b, c]);
    lemma_resolve_front(seq![b, c], entries);
    assert(seq![b, c].drop_first() =~= seq![c]);
    lemma_resolve_front(seq![c], entries);
    assert(seq![c].drop_first() =~= Seq::<LogEntryId>::empty());
    let ea = entries.get(a as int)->0;
    let ec = entries.get(c as int)->0;
    assert(resolve(index, entries) =~= seq![ea, ec]);
    assert(seq![ea, ec].reverse() =~= seq![ec, ea]);
}

/// The index of one user.
#[derive(Debug)]
struct UserLog {
    user: UserId,
    ids: ConcurrentLog<LogEntryId>,
}

/// The history of a network.
#[derive(Debug)]
pub struct NetworkHistoryLog {
    /// The id of the entry at index 0 of `entries`.
    base: LogEntryId,
    entries: ConcurrentLog<HistoryLogEntry>,
    /// The indices, in the order in which their users first appeared.
    user_logs: Vec<UserLog>,
    /// For each user that has an index, its place in `user_logs`.
    user_slots: HashMap<u64, usize>,
}

impl NetworkHistoryLog {
    /// The log's invariant. Every function that makes a log establishes it,
    /// and every function that changes one keeps it.
    pub closed spec fn wf(&self) -> bool {
        &&& entry_log_segment_size(self.entries) == 1
        &&& self.base + entry_log_view(self.entries).end() <= usize::MAX
        &&& forall|k: int|
            0 <= k < entry_log_items(self.entries).len() ==> (#[trigger] entry_log_items(
                self.entries,
            )[k]).id == self.base + entry_log_start(self.entries) + k
        &&& forall|k: int|
            0 <= k < entry_log_items(self.entries).len() ==> (#[trigger] entry_log_items(
                self.entries,
            )[k]).details.recorded()
        &&& forall|i: int|
            0 <= i < self.user_logs@.len() ==> id_log_segment_size(
                (#[trigger] self.user_logs@[i]).ids,
            ) == 1
        &&& forall|i: int|
            0 <= i < self.user_logs@.len() ==> id_log_view(
                (#[trigger] self.user_logs@[i]).ids,
            ).end() <= usize::MAX
        &&& forall|i: int|
            0 <= i < self.user_logs@.len() ==> self.user_slots@.contains_key(
                (#[trigger] self.user_logs@[i]).user.0,
            ) && self.user_slots@[self.user_logs@[i].user.0] == i
        &&& forall|key: u64| #[trigger]
            self.user_slots@.contains_key(key) ==> self.user_slots@[key] < self.user_logs@.len()
                && self.user_logs@[self.user_slots@[key] as int].user.0 == key
    }

    /// What the log holds.
    pub closed spec fn view(&self) -> HistoryView {
        HistoryView {
            entries: LogView {
                start: (self.base + entry_log_start(self.entries)) as nat,
                items: entry_log_items(self.entries),
            },
            user_logs: Map::new(
                |user: UserId| self.user_slots@.contains_key(user.0),
                |user: UserId| id_log_view(self.user_logs@[self.user_slots@[user.0] as int].ids),
            ),
        }
    }

    /// An empty log.
    pub fn new() -> (log: Self)
        ensures
            log.wf(),
            log@.entries == LogView::<HistoryLogEntry>::empty(),
            log@.user_logs == Map::<UserId, LogView<LogEntryId>>::empty(),
    {
        let log = Self {
            base: 0,
            entries: entry_log_new(),
            user_logs: Vec::new(),
            user_slots: HashMap::new(),
        };
        assert(log@.user_logs =~= Map::<UserId, LogView<LogEntryId>>::empty());
        log
    }

    /// The index that the next entry will get.
    pub fn size(&self) -> (end: LogEntryId)
        requires
            self.wf(),
        ensures
            end == self@.entries.end(),
    {
        self.base + entry_log_last_index(&self.entries)
    }

    /// The index of the oldest entry that has not been expired.
    pub fn start_index(&self) -> (start: LogEntryId)
        requires
            self.wf(),
        ensures
            start == self@.entries.start,
    {
        self.base + entry_log_start_index(&self.entries)
    }

    /// In a well-formed log every live entry carries its own index as its
    /// id and is of a kind that history keeps, and the end of the log fits
    /// in a `usize`.
    pub proof fn lemma_wf_entries(&self)
        requires
            self.wf(),
        ensures
            self@.ids_match(),
            self@.all_recorded(),
            self@.entries.end() <= usize::MAX,
    {
    }

    /// Records a change, if it is of a kind that history keeps, and returns
    /// the id that the entry got. A change of any other kind leaves the log
    /// as it is.
    pub fn add(&mut self, details: NetworkStateChange, source_event: EventId, timestamp: i64) -> (id:
        Option<LogEntryId>)
        requires
            old(self).wf(),
            old(self)@.entries.end() < usize::MAX,
        ensures
            final(self).wf(),
            details.recorded() ==> id == Some(old(self)@.entries.end() as usize) && final(self)@
                == old(self)@.with_entry(details, source_event, timestamp),
            !details.recorded() ==> id is None && final(self)@ == old(self)@,
            old(self)@.indices_in_bounds() ==> final(self)@.indices_in_bounds(),
    {
        if details.is_recorded() {
            let entry = HistoryLogEntry { id: 0, source_event, timestamp, details };
            let index = entry_log_push(&mut self.entries, entry, self.base);
            assert(final(self)@.user_logs =~= old(self)@.user_logs);
            Some(self.base + index)
        } else {
            None
        }
    }

    /// The entry with the given id, unless it has been expired or was never
    /// made.
    pub fn get(&self, entry_id: LogEntryId) -> (found: Option<&HistoryLogEntry>)
        requires
            self.wf(),
        ensures
            match found {
                Some(entry) => self@.entries.get(entry_id as int) == Some(*entry) && entry.id
                    == entry_id,
                None => self@.entries.get(entry_id as int) is None,
            },
    {
        if entry_id < self.base {
            None
        } else {
            entry_log_get(&self.entries, entry_id - self.base)
        }
    }

    /// The position that the next id in `user`'s index will get; 0 where the
    /// user has no index.
    pub fn index_end(&self, user: UserId) -> (end: usize)
        requires
            self.wf(),
        ensures
            end == self@.index_of(user).end(),
    {
        match self.slot_of(user) {
            Some(slot) => id_log_last_index(&self.user_logs[slot].ids),
            None => 0,
        }
    }

    /// Appends `entry_id` to `user_id`'s index, which is made if the user
    /// has none yet.
    pub fn add_entry_for_user(&mut self, user_id: UserId, entry_id: LogEntryId)
        requires
            old(self).wf(),
            old(self)@.index_of(user_id).end() < usize::MAX,
        ensures
            final(self).wf(),
            final(self)@ == old(self)@.with_index_entry(user_id, entry_id),
            old(self)@.indices_in_bounds() && entry_id < old(self)@.entries.end()
                ==> final(self)@.indices_in_bounds(),
    {
        match self.slot_of(user_id) {
            Some(slot) => {
                let _ = id_log_push(&mut self.user_logs[slot].ids, entry_id);
            },
            None => {
                let mut ids = id_log_new();
                let _ = id_log_push(&mut ids, entry_id);
                let slot = self.user_logs.len();
                self.user_logs.push(UserLog { user: user_id, ids });
                let _ = self.user_slots.insert(user_id.0, slot);
            },
        }
        assert(final(self)@.user_logs =~= old(self)@.with_index_entry(user_id, entry_id).user_logs);
    }

    /// Expires what is older than `older_than`: the entries at the front of
    /// the log whose timestamps are below it, up to the first that is not,
    /// and from the front of each index the ids below the log's new start, up
    /// to the first that is not.
    ///
    /// Where timestamps do not rise with the index, older entries behind a
    /// newer one stay.
    pub fn expire_entries(&mut self, older_than: i64)
        requires
            old(self).wf(),
        ensures
            final(self).wf(),
            final(self)@ == old(self)@.expired(older_than),
            old(self)@.indices_in_bounds() ==> final(self)@.indices_in_bounds(),
    {
        proof {
            lemma_expired_prefix_bounds(old(self)@.entries.items, older_than);
        }
        entry_log_trim(&mut self.entries, older_than);
        let new_first_index = self.base + entry_log_start_index(&self.entries);
        let ghost trimmed = self.entries;
        let mut i: usize = 0;
        while i < self.user_logs.len()
            invariant
                i <= self.user_logs.len(),
                self.user_logs.len() == old(self).user_logs.len(),
                self.entries == trimmed,
                self.base == old(self).base,
                self.user_slots == old(self).user_slots,
                old(self).wf(),
                forall|j: int|
                    0 <= j < self.user_logs.len() ==> (#[trigger] self.user_logs@[j]).user == old(
                        self,
                    ).user_logs@[j].user,
                forall|j: int|
                    0 <= j < i ==> id_log_view((#[trigger] self.user_logs@[j]).ids) == id_log_view(
                        old(self).user_logs@[j].ids,
                    ).without_front(
                        stale_prefix(
                            id_log_view(old(self).user_logs@[j].ids).items,
                            new_first_index,
                        ),
                    ),
                forall|j: int|
                    0 <= j < self.user_logs.len() ==> id_log_segment_size(
                        (#[trigger] self.user_logs@[j]).ids,
                    ) == 1,
                forall|j: int|
                    i <= j < self.user_logs.len() ==> #[trigger] self.user_logs@[j]
                        == old(self).user_logs@[j],
            decreases self.user_logs.len() - i,
        {
            id_log_trim(&mut self.user_logs[i].ids, new_first_index);
            i += 1;
        }
        proof {
            assert forall|j: int| 0 <= j < self.user_logs@.len() implies id_log_view(
                (#[trigger] self.user_logs@[j]).ids,
            ).end() <= usize::MAX by {
                lemma_stale_prefix_bounds(
                    id_log_view(old(self).user_logs@[j].ids).items,
                    new_first_index,
                );
            }
            assert(self@.user_logs =~= old(self)@.expired(older_than).user_logs);
            if old(self)@.indices_in_bounds() {
                assert forall|user: UserId, k: int|
                    self@.user_logs.contains_key(user) && 0 <= k
                        < self@.user_logs[user].items.len() implies (
                #[trigger] self@.user_logs[user].items[k]) < self@.entries.end() by {
                    let before = old(self)@.user_logs[user].items;
                    lemma_stale_prefix_bounds(before, new_first_index);
                    assert(self@.user_logs[user].items[k] == before[k + stale_prefix(
                        before,
                        new_first_index,
                    )]);
                }
            }
        }
    }

    /// The place of `user`'s index among the indices, if the user has one.
    fn slot_of(&self, user: UserId) -> (slot: Option<usize>)
        requires
            self.wf(),
        ensures
            match slot {
                Some(slot) => self@.user_logs.contains_key(user) && slot < self.user_logs.len()
                    && self.user_slots@.contains_key(user.0) && self.user_slots@[user.0] == slot
                    && self@.user_logs[user] == id_log_view(self.user_logs@[slot as int].ids),
                None => !self@.user_logs.contains_key(user) && !self.user_slots@.contains_key(
                    user.0,
                ),
            },
    {
        match self.user_slots.get(&user.0) {
            Some(slot) => Some(*slot),
            None => None,
        }
    }

    /// The entries that `user` can see, oldest first. Ids whose entries have
    /// been expired are passed over; the walk ends at the end of the user's
    /// index.
    ///
    /// The walk borrows the log, so the log cannot change while the walk
    /// lasts: the walk gives what the user could see when it began. Asking
    /// again gives a new walk from the start.
    pub fn entries_for_user(&self, user: UserId) -> (entries: UserHistoryLogIterator<'_>)
        requires
            self.wf(),
        ensures
            entries.wf(),
            entries.pending() == self@.visible(user),
    {
        match self.slot_of(user) {
            Some(slot) => {
                let user_log = &self.user_logs[slot].ids;
                let current_index = id_log_start_index(user_log);
                assert(id_log_view(*user_log).items.skip(0) =~= id_log_view(*user_log).items);
                UserHistoryLogIterator { network_log: self, user_log: Some(user_log), current_index }
            },
            None => UserHistoryLogIterator { network_log: self, user_log: None, current_index: 0 },
        }
    }

    /// The entries that `user` can see, newest first. Ids whose entries have
    /// been expired are passed over; the walk ends at the start of the user's
    /// index.
    ///
    /// The walk borrows the log, so the log cannot change while the walk
    /// lasts: the walk gives what the user could see when it began. Asking
    /// again gives a new walk from the end.
    pub fn entries_for_user_reverse(&self, user: UserId) -> (entries:
        ReverseUserHistoryLogIterator<'_>)
        requires
            self.wf(),
        ensures
            entries.wf(),
            entries.pending() == self@.visible(user).reverse(),
    {
        match self.slot_of(user) {
            Some(slot) => {
                let user_log = &self.user_logs[slot].ids;
                let current_index = id_log_last_index(user_log);
                assert(id_log_view(*user_log).items.take(
                    id_log_view(*user_log).items.len() as int,
                ) =~= id_log_view(*user_log).items);
                ReverseUserHistoryLogIterator {
                    network_log: self,
                    user_log: Some(user_log),
                    current_index,
                }
            },
            None => {
                assert(Seq::<HistoryLogEntry>::empty().reverse() =~= Seq::<
                    HistoryLogEntry,
                >::empty());
                ReverseUserHistoryLogIterator { network_log: self, user_log: None, current_index: 0 }
            },
        }
    }
}

/// What a history log holds, as plain values: for keeping a log and bringing
/// it back. An index's own positions are not kept: nothing that a log gives
/// out depends on them.
#[derive(Debug, PartialEq, Eq)]
pub struct HistorySnapshot {
    /// The index of the first live entry.
    pub start_index: LogEntryId,
    /// The live entries, oldest first.
    pub entries: Vec<HistoryLogEntry>,
    /// Each user that has an index, with the live ids of that index.
    pub user_logs: Vec<(UserId, Vec<LogEntryId>)>,
}

impl HistorySnapshot {
    /// The users of the snapshot, in its order.
    pub open spec fn users(self) -> Seq<UserId> {
        Seq::new(self.user_logs@.len(), |i: int| self.user_logs@[i].0)
    }

    /// Whether the snapshot is one of a log that holds `history`.
    pub open spec fn shows(self, history: HistoryView) -> bool {
        &&& self.start_index == history.entries.start
        &&& self.entries@ == history.entries.items
        &&& self.users().no_duplicates()
        &&& forall|i: int|
            0 <= i < self.user_logs@.len() ==> history.user_logs.contains_key(
                (#[trigger] self.user_logs@[i]).0,
            ) && history.user_logs[self.user_logs@[i].0].items == self.user_logs@[i].1@
        &&& forall|user: UserId| #[trigger]
            history.user_logs.contains_key(user) ==> self.users().contains(user)
    }

    /// Whether a log can be made of the snapshot: every entry carries its
    /// own index as its id and is of a kind that history keeps, the end of
    /// the log fits in a `usize`, and no user stands twice.
    pub open spec fn sound(self) -> bool {
        &&& self.start_index + self.entries@.len() <= usize::MAX
        &&& forall|k: int|
            0 <= k < self.entries@.len() ==> (#[trigger] self.entries@[k]).id == self.start_index
                + k && self.entries@[k].details.recorded()
        &&& self.users().no_duplicates()
    }

    /// What the log made of the snapshot holds.
    pub open spec fn restored(self) -> HistoryView {
        HistoryView {
            entries: LogView { start: self.start_index as nat, items: self.entries@ },
            user_logs: Map::new(
                |user: UserId| self.users().contains(user),
                |user: UserId|
                    LogView { start: 0, items: self.user_logs@[self.users().index_of(user)].1@ },
            ),
        }
    }
}

/// A log that is kept and brought back holds the entries that it held, and
/// every user sees what the user saw.
pub proof fn lemma_snapshot_keeps_what_is_seen(history: HistoryView, snapshot: HistorySnapshot)
    requires
        snapshot.shows(history),
    ensures
        snapshot.restored().entries == history.entries,
        forall|user: UserId| #[trigger]
            snapshot.restored().visible(user) == history.visible(user),
{
    let restored = snapshot.restored();
    assert forall|user: UserId| #[trigger] restored.visible(user) == history.visible(user) by {
        if history.user_logs.contains_key(user) {
            assert(snapshot.users().contains(user));
            let i = snapshot.users().index_of(user);
            assert(snapshot.users()[i] == user);
            assert(snapshot.user_logs@[i].0 == user);
        } else if snapshot.users().contains(user) {
            let i = snapshot.users().index_of(user);
            assert(snapshot.users()[i] == user);
            assert(history.user_logs.contains_key(snapshot.user_logs@[i].0));
        }
    }
}

impl NetworkHistoryLog {
    /// The live ids of the index at `slot`.
    fn index_ids(&self, slot: usize) -> (ids: Vec<LogEntryId>)
        requires
            self.wf(),
            slot < self.user_logs.len(),
        ensures
            ids@ == id_log_view(self.user_logs@[slot as int].ids).items,
    {
        let log = &self.user_logs[slot].ids;
        let start = id_log_start_index(log);
        let end = id_log_last_index(log);
        let mut ids: Vec<LogEntryId> = Vec::new();
        let mut at: usize = start;
        assert(id_log_view(*log).items.take(0) =~= Seq::<LogEntryId>::empty());
        while at < end
            invariant
                start <= at <= end,
                start == id_log_view(*log).start,
                end == id_log_view(*log).end(),
                ids@ == id_log_view(*log).items.take(at - start),
            decreases end - at,
        {
            match id_log_get(log, at) {
                Some(id) => {
                    ids.push(id);
                    assert(id_log_view(*log).items.take(at + 1 - start) =~= id_log_view(
                        *log,
                    ).items.take(at - start).push(id));
                },
                None => {},
            }
            at += 1;
        }
        assert(id_log_view(*log).items.take(end - start) =~= id_log_view(*log).items);
        ids
    }

    /// What the log holds, as plain values.
    pub fn snapshot(&self) -> (snapshot: HistorySnapshot)
        requires
            self.wf(),
        ensures
            snapshot.shows(self@),
            snapshot.sound(),
    {
        let start = self.start_index();
        let end = self.size();
        let mut entries: Vec<HistoryLogEntry> = Vec::new();
        let mut at: usize = start;
        assert(self@.entries.items.take(0) =~= Seq::<HistoryLogEntry>::empty());
        while at < end
            invariant
                self.wf(),
                start <= at <= end,
                start == self@.entries.start,
                end == self@.entries.end(),
                entries@ == self@.entries.items.take(at - start),
            decreases end - at,
        {
            match self.get(at) {
                Some(entry) => {
                    entries.push(*entry);
                    assert(self@.entries.items.take(at + 1 - start) =~= self@.entries.items.take(
                        at - start,
                    ).push(*entry));
                },
                None => {},
            }
            at += 1;
        }
        assert(self@.entries.items.take(end - start) =~= self@.entries.items);
        let mut user_logs: Vec<(UserId, Vec<LogEntryId>)> = Vec::new();
        let mut slot: usize = 0;
        while slot < self.user_logs.len()
            invariant
                self.wf(),
                slot <= self.user_logs.len(),
                user_logs.len() == slot,
                forall|i: int|
                    0 <= i < slot ==> (#[trigger] user_logs@[i]).0 == self.user_logs@[i].user
                        && user_logs@[i].1@ == id_log_view(self.user_logs@[i].ids).items,
            decreases self.user_logs.len() - slot,
        {
            let ids = self.index_ids(slot);
            user_logs.push((self.user_logs[slot].user, ids));
            slot += 1;
        }
        let snapshot = HistorySnapshot { start_index: start, entries, user_logs };
        proof {
            assert forall|i: int, j: int|
                0 <= i < snapshot.users().len() && 0 <= j < snapshot.users().len() && i
                    != j implies snapshot.users()[i] != snapshot.users()[j] by {
                assert(snapshot.user_logs@[i].0 == self.user_logs@[i].user);
                assert(snapshot.user_logs@[j].0 == self.user_logs@[j].user);
            }
            assert forall|i: int| 0 <= i < snapshot.user_logs@.len() implies self@.user_logs.contains_key(
                (#[trigger] snapshot.user_logs@[i]).0,
            ) && self@.user_logs[snapshot.user_logs@[i].0].items == snapshot.user_logs@[i].1@ by {
                assert(snapshot.user_logs@[i].0 == self.user_logs@[i].user);
            }
            assert forall|user: UserId| #[trigger]
                self@.user_logs.contains_key(user) implies snapshot.users().contains(user) by {
                let at = self.user_slots@[user.0] as int;
                assert(self.user_logs@[at].user.0 == user.0);
                assert(snapshot.user_logs@[at].0 == self.user_logs@[at].user);
                assert(snapshot.users()[at] == user);
            }
        }
        snapshot
    }

    /// The log that `snapshot` describes. A snapshot of which no log can be
    /// made is refused.
    pub fn restore(snapshot: &HistorySnapshot) -> (restored: Result<Self, HistoryError>)
        ensures
            match restored {
                Ok(log) => snapshot.sound() && log.wf() && log@ == snapshot.restored(),
                Err(error) => !snapshot.sound() && (error matches HistoryError::InternalError(text)
                    && text@ == "malformed history snapshot"@),
            },
    {
        let count = snapshot.entries.len();
        if snapshot.start_index > usize::MAX - count {
            return Err(HistoryError::InternalError(String::from_str("malformed history snapshot")));
        }
        let mut log = Self {
            base: snapshot.start_index,
            entries: entry_log_new(),
            user_logs: Vec::new(),
            user_slots: HashMap::new(),
        };
        let mut k: usize = 0;
        assert(snapshot.entries@.take(0) =~= Seq::<HistoryLogEntry>::empty());
        while k < count
            invariant
                k <= count,
                count == snapshot.entries.len(),
                snapshot.start_index + count <= usize::MAX,
                log.wf(),
                log.base == snapshot.start_index,
                log.user_logs@.len() == 0,
                log.user_slots@ == Map::<u64, usize>::empty(),
                entry_log_start(log.entries) == 0,
                entry_log_items(log.entries) == snapshot.entries@.take(k as int),
                forall|i: int|
                    0 <= i < k ==> (#[trigger] snapshot.entries@[i]).id == snapshot.start_index + i
                        && snapshot.entries@[i].details.recorded(),
            decreases count - k,
        {
            let entry = snapshot.entries[k];
            if entry.id != snapshot.start_index + k || !entry.details.is_recorded() {
                return Err(
                    HistoryError::InternalError(String::from_str("malformed history snapshot")),
                );
            }
            let _ = entry_log_push(&mut log.entries, entry, log.base);
            assert(snapshot.entries@.take(k + 1) =~= snapshot.entries@.take(k as int).push(entry));
            k += 1;
        }
        assert(snapshot.entries@.take(count as int) =~= snapshot.entries@);
        let mut u: usize = 0;
        while u < snapshot.user_logs.len()
            invariant
                u <= snapshot.user_logs.len(),
                log.wf(),
                log.base == snapshot.start_index,
                entry_log_start(log.entries) == 0,
                entry_log_items(log.entries) == snapshot.entries@,
                log.user_logs@.len() == u,
                forall|i: int|
                    0 <= i < u ==> (#[trigger] log.user_logs@[i]).user == snapshot.user_logs@[i].0
                        && id_log_view(log.user_logs@[i].ids) == (LogView {
                        start: 0,
                        items: snapshot.user_logs@[i].1@,
                    }),
                forall|i: int, j: int|
                    0 <= i < j < u ==> snapshot.user_logs@[i].0 != snapshot.user_logs@[j].0,
            decreases snapshot.user_logs.len() - u,
        {
            let user = snapshot.user_logs[u].0;
            if log.slot_of(user).is_some() {
                proof {
                    let at = log.user_slots@[user.0] as int;
                    assert(log.user_logs@[at].user == snapshot.user_logs@[at].0);
                    assert(snapshot.users()[at] == snapshot.users()[u as int]);
                }
                return Err(
                    HistoryError::InternalError(String::from_str("malformed history snapshot")),
                );
            }
            proof {
                assert forall|i: int| 0 <= i < u implies snapshot.user_logs@[i].0 != user by {
                    assert(log.user_logs@[i].user == snapshot.user_logs@[i].0);
                    assert(log.user_slots@.contains_key(log.user_logs@[i].user.0));
                }
            }
            let ids = &snapshot.user_logs[u].1;
            let mut index = id_log_new();
            let mut j: usize = 0;
            assert(ids@.take(0) =~= Seq::<LogEntryId>::empty());
            while j < ids.len()
                invariant
                    j <= ids.len(),
                    id_log_segment_size(index) == 1,
                    id_log_view(index) == (LogView { start: 0, items: ids@.take(j as int) }),
                decreases ids.len() - j,
            {
                let _ = id_log_push(&mut index, ids[j]);
                assert(ids@.take(j + 1) =~= ids@.take(j as int).push(ids@[j as int]));
                j += 1;
            }
            assert(ids@.take(ids@.len() as int) =~= ids@);
            log.user_logs.push(UserLog { user, ids: index });
            let _ = log.user_slots.insert(user.0, u);
            u += 1;
        }
        proof {
            assert forall|i: int, j: int|
                0 <= i < snapshot.users().len() && 0 <= j < snapshot.users().len() && i
                    != j implies snapshot.users()[i] != snapshot.users()[j] by {
                if i < j {
                    assert(snapshot.user_logs@[i].0 != snapshot.user_logs@[j].0);
                } else {
                    assert(snapshot.user_logs@[j].0 != snapshot.user_logs@[i].0);
                }
            }
            assert forall|user: UserId|
                log@.user_logs.contains_key(user) == snapshot.restored().user_logs.contains_key(
                    user,
                ) by {
                if log@.user_logs.contains_key(user) {
                    let at = log.user_slots@[user.0] as int;
                    assert(log.user_logs@[at].user == snapshot.user_logs@[at].0);
                    assert(snapshot.users()[at] == user);
                }
                if snapshot.users().contains(user) {
                    let at = snapshot.users().index_of(user);
                    assert(snapshot.users()[at] == user);
                    assert(log.user_logs@[at].user == snapshot.user_logs@[at].0);
                }
            }
            assert forall|user: UserId| log@.user_logs.contains_key(user) implies log@.user_logs[user]
                == snapshot.restored().user_logs[user] by {
                let at = log.user_slots@[user.0] as int;
                assert(log.user_logs@[at].user == snapshot.user_logs@[at].0);
                assert(snapshot.users()[at] == user);
                let found = snapshot.users().index_of(user);
                assert(snapshot.users()[found] == user);
                if found != at {
                    assert(snapshot.users()[found] != snapshot.users()[at]);
                }
            }
            assert(log@.user_logs =~= snapshot.restored().user_logs);
        }
        Ok(log)
    }
}

/// A walk over the entries that a user can see, oldest first.
pub struct UserHistoryLogIterator<'a> {
    network_log: &'a NetworkHistoryLog,
    user_log: Option<&'a ConcurrentLog<LogEntryId>>,
    current_index: usize,
}

impl<'a> UserHistoryLogIterator<'a> {
    /// The walk's invariant.
    pub closed spec fn wf(&self) -> bool {
        &&& self.network_log.wf()
        &&& match self.user_log {
            Some(log) => id_log_view(*log).start <= self.current_index <= id_log_view(*log).end()
                <= usize::MAX,
            None => true,
        }
    }

    /// The entries still to come, in the order in which they will come.
    pub closed spec fn pending(&self) -> Seq<HistoryLogEntry> {
        match self.user_log {
            Some(log) => resolve(
                id_log_view(*log).items.skip(self.current_index - id_log_view(*log).start),
                self.network_log@.entries,
            ),
            None => Seq::empty(),
        }
    }

    /// The next entry, or `None` when the walk is over.
    pub fn next(&mut self) -> (entry: Option<&'a HistoryLogEntry>)
        requires
            old(self).wf(),
        ensures
            final(self).wf(),
            match entry {
                Some(entry) => old(self).pending().len() > 0 && *entry == old(self).pending()[0]
                    && final(self).pending() == old(self).pending().skip(1),
                None => old(self).pending().len() == 0 && final(self).pending().len() == 0,
            },
    {
        let network_log: &'a NetworkHistoryLog = self.network_log;
        let user_log: &'a ConcurrentLog<LogEntryId> = match self.user_log {
            Some(log) => log,
            None => { return None; },
        };
        let ghost index = id_log_view(*user_log);
        loop
            invariant
                self.wf(),
                self.network_log == network_log,
                self.user_log == Some(user_log),
                index == id_log_view(*user_log),
                self.pending() == old(self).pending(),
            decreases index.end() - self.current_index,
        {
            let next_id = match id_log_get(user_log, self.current_index) {
                Some(id) => id,
                None => { return None; },
            };
            proof {
                lemma_resolve_front(
                    index.items.skip(self.current_index - index.start),
                    network_log@.entries,
                );
                assert(index.items.skip(self.current_index - index.start).drop_first()
                    =~= index.items.skip(self.current_index + 1 - index.start));
            }
            self.current_index += 1;
            let entry = network_log.get(next_id);
            if entry.is_some() {
                proof {
                    let rest = resolve(
                        index.items.skip(self.current_index - index.start),
                        network_log@.entries,
                    );
                    assert((seq![*entry.unwrap()] + rest).skip(1) =~= rest);
                }
                return entry;
            }
            assert(Seq::<HistoryLogEntry>::empty() + self.pending() =~= self.pending());
        }
    }
}

/// A walk over the entries that a user can see, newest first.
pub struct ReverseUserHistoryLogIterator<'a> {
    network_log: &'a NetworkHistoryLog,
    user_log: Option<&'a ConcurrentLog<LogEntryId>>,
    current_index: usize,
}

impl<'a> ReverseUserHistoryLogIterator<'a> {
    /// The walk's invariant.
    pub closed spec fn wf(&self) -> bool {
        &&& self.network_log.wf()
        &&& match self.user_log {
            Some(log) => self.current_index <= id_log_view(*log).end() <= usize::MAX,
            None => true,
        }
    }

    /// How many live ids of the index lie before the walk's position.
    pub closed spec fn ids_left(&self) -> int {
        match self.user_log {
            Some(log) => if self.current_index > id_log_view(*log).start {
                self.current_index - id_log_view(*log).start
            } else {
                0
            },
            None => 0,
        }
    }

    /// The entries still to come, in the order in which they will come.
    pub closed spec fn pending(&self) -> Seq<HistoryLogEntry> {
        match self.user_log {
            Some(log) => resolve(
                id_log_view(*log).items.take(self.ids_left()),
                self.network_log@.entries,
            ).reverse(),
            None => Seq::empty(),
        }
    }

    /// The next entry, or `None` when the walk is over.
    pub fn next(&mut self) -> (entry: Option<&'a HistoryLogEntry>)
        requires
            old(self).wf(),
        ensures
            final(self).wf(),
            match entry {
                Some(entry) => old(self).pending().len() > 0 && *entry == old(self).pending()[0]
                    && final(self).pending() == old(self).pending().skip(1),
                None => old(self).pending().len() == 0 && final(self).pending().len() == 0,
            },
    {
        let network_log: &'a NetworkHistoryLog = self.network_log;
        let user_log: &'a ConcurrentLog<LogEntryId> = match self.user_log {
            Some(log) => log,
            None => { return None; },
        };
        let ghost index = id_log_view(*user_log);
        loop
            invariant
                self.wf(),
                self.network_log == network_log,
                self.user_log == Some(user_log),
                index == id_log_view(*user_log),
                self.pending() == old(self).pending(),
            decreases self.current_index,
        {
            if self.current_index == 0 {
                assert(index.items.take(0) =~= Seq::<LogEntryId>::empty());
                return None;
            }
            let ghost before = self.ids_left();
            self.current_index -= 1;
            let next_id = match id_log_get(user_log, self.current_index) {
                Some(id) => id,
                None => {
                    assert(index.items.take(0) =~= Seq::<LogEntryId>::empty());
                    return None;
                },
            };
            proof {
                assert(index.items.take(before).drop_last() =~= index.items.take(before - 1));
                assert(index.items.take(before).last() == next_id);
            }
            let entry = network_log.get(next_id);
            if entry.is_some() {
                proof {
                    let rest = resolve(index.items.take(before - 1), network_log@.entries);
                    assert(rest.push(*entry.unwrap()).reverse().skip(1) =~= rest.reverse());
                }
                return entry;
            }
        }
    }
}

} // verus!
