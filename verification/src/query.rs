//! Queries over the history log: the entries of one conversation that a
//! request selects, and the conversations that a user has lately had.

use crate::entry::HistoryLogEntry;
use crate::ids::{TargetId, UserId};
use crate::log::{NetworkHistoryLog, ReverseUserHistoryLogIterator, UserHistoryLogIterator};
use vstd::prelude::*;

verus! {

/// One end of a span of time.
#[derive(Clone, Copy, Debug, PartialEq, Eq, Structural)]
pub enum TimeBound {
    /// No limit on this side.
    Open,
    /// Up to and including this timestamp.
    Inclusive(i64),
    /// Up to but not including this timestamp.
    Exclusive(i64),
}

/// A span of time.
#[derive(Clone, Copy, Debug, PartialEq, Eq, Structural)]
pub struct TimeWindow {
    pub lower: TimeBound,
    pub upper: TimeBound,
}

impl TimeWindow {
    /// Whether `timestamp` lies in the span.
    pub open spec fn contains(self, timestamp: i64) -> bool {
        &&& match self.lower {
            TimeBound::Open => true,
            TimeBound::Inclusive(lower) => lower <= timestamp,
            TimeBound::Exclusive(lower) => lower < timestamp,
        }
        &&& match self.upper {
            TimeBound::Open => true,
            TimeBound::Inclusive(upper) => timestamp <= upper,
            TimeBound::Exclusive(upper) => timestamp < upper,
        }
    }

    /// Computes [`Self::contains`].
    pub fn holds(&self, timestamp: i64) -> (inside: bool)
        ensures
            inside == self.contains(timestamp),
    {
        let above = match self.lower {
            TimeBound::Open => true,
            TimeBound::Inclusive(lower) => lower <= timestamp,
            TimeBound::Exclusive(lower) => lower < timestamp,
        };
        let below = match self.upper {
            TimeBound::Open => true,
            TimeBound::Inclusive(upper) => timestamp <= upper,
            TimeBound::Exclusive(upper) => timestamp < upper,
        };
        above && below
    }

    /// Everything up to and including `upper`; everything, where there is
    /// no `upper`.
    pub open spec fn up_to(upper: Option<i64>) -> TimeWindow {
        TimeWindow {
            lower: TimeBound::Open,
            upper: match upper {
                Some(upper) => TimeBound::Inclusive(upper),
                None => TimeBound::Open,
            },
        }
    }

    /// Everything before `upper`.
    pub open spec fn before(upper: i64) -> TimeWindow {
        TimeWindow { lower: TimeBound::Open, upper: TimeBound::Exclusive(upper) }
    }

    /// Everything after `lower`.
    pub open spec fn after(lower: i64) -> TimeWindow {
        TimeWindow { lower: TimeBound::Exclusive(lower), upper: TimeBound::Open }
    }

    /// Everything from `lower` to `upper`, both included.
    pub open spec fn between(lower: i64, upper: i64) -> TimeWindow {
        TimeWindow { lower: TimeBound::Inclusive(lower), upper: TimeBound::Inclusive(upper) }
    }

    /// Everything between two optional bounds, both included.
    pub open spec fn within(lower: Option<i64>, upper: Option<i64>) -> TimeWindow {
        TimeWindow {
            lower: match lower {
                Some(lower) => TimeBound::Inclusive(lower),
                None => TimeBound::Open,
            },
            upper: match upper {
                Some(upper) => TimeBound::Inclusive(upper),
                None => TimeBound::Open,
            },
        }
    }
}

/// A request for the history of one conversation.
#[derive(Clone, Copy, Debug, PartialEq, Eq, Structural)]
pub enum HistoryRequest {
    /// The newest entries, no later than `to_ts` where that is given.
    Latest { to_ts: Option<i64>, limit: usize },
    /// The newest entries before `from_ts`.
    Before { from_ts: i64, limit: usize },
    /// The oldest entries after `start_ts`.
    After { start_ts: i64, limit: usize },
    /// The entries nearest to `around_ts` on both sides.
    Around { around_ts: i64, limit: usize },
    /// The entries from `start_ts` to `end_ts`, both included, starting at
    /// `start_ts`.
    Between { start_ts: i64, end_ts: i64, limit: usize },
}

/// Why a query gave no answer.
#[derive(Debug, PartialEq, Eq)]
pub enum HistoryError {
    /// The target is not a user or channel that the network knows.
    InvalidTarget(TargetId),
    /// The history is not in a state to answer from.
    InternalError(String),
}

/// The test that an entry belongs to `user`'s conversation with `target` and
/// was made within `window`.
pub open spec fn selects(user: UserId, target: TargetId, window: TimeWindow) -> spec_fn(
    HistoryLogEntry,
) -> bool {
    |entry: HistoryLogEntry|
        entry.details.conversation(user) == Some(target) && window.contains(entry.timestamp)
}

/// The first `limit` of the entries that pass `keep`; all of them, where
/// there are no more than that.
pub open spec fn first_matching(
    entries: Seq<HistoryLogEntry>,
    keep: spec_fn(HistoryLogEntry) -> bool,
    limit: nat,
) -> Seq<HistoryLogEntry> {
    let kept = entries.filter(keep);
    if kept.len() <= limit {
        kept
    } else {
        kept.take(limit as int)
    }
}

/// The oldest `limit` of the entries that pass `keep`, oldest first.
pub open spec fn oldest(
    entries: Seq<HistoryLogEntry>,
    keep: spec_fn(HistoryLogEntry) -> bool,
    limit: nat,
) -> Seq<HistoryLogEntry> {
    first_matching(entries, keep, limit)
}

/// The newest `limit` of the entries that pass `keep`, oldest first.
pub open spec fn newest(
    entries: Seq<HistoryLogEntry>,
    keep: spec_fn(HistoryLogEntry) -> bool,
    limit: nat,
) -> Seq<HistoryLogEntry> {
    first_matching(entries.reverse(), keep, limit).reverse()
}

/// The answer to `request` about `user`'s conversation with `target`, where
/// `visible` is what the user can see, oldest first.
///
/// `Around` gives the later half of its limit to the entries after the
/// timestamp and the rest to those at or before it. `Between` with its
/// bounds the other way round starts from the later one.
pub open spec fn answer(
    visible: Seq<HistoryLogEntry>,
    user: UserId,
    target: TargetId,
    request: HistoryRequest,
) -> Seq<HistoryLogEntry> {
    match request {
        HistoryRequest::Latest { to_ts, limit } => newest(
            visible,
            selects(user, target, TimeWindow::up_to(to_ts)),
            limit as nat,
        ),
        HistoryRequest::Before { from_ts, limit } => newest(
            visible,
            selects(user, target, TimeWindow::before(from_ts)),
            limit as nat,
        ),
        HistoryRequest::After { start_ts, limit } => oldest(
            visible,
            selects(user, target, TimeWindow::after(start_ts)),
            limit as nat,
        ),
        HistoryRequest::Around { around_ts, limit } => newest(
            visible,
            selects(user, target, TimeWindow::up_to(Some(around_ts))),
            (limit - limit / 2) as nat,
        ) + oldest(
            visible,
            selects(user, target, TimeWindow::after(around_ts)),
            (limit / 2) as nat,
        ),
        HistoryRequest::Between { start_ts, end_ts, limit } => if start_ts <= end_ts {
            oldest(
                visible,
                selects(user, target, TimeWindow::between(start_ts, end_ts)),
                limit as nat,
            )
        } else {
            newest(
                visible,
                selects(user, target, TimeWindow::between(end_ts, start_ts)),
                limit as nat,
            )
        },
    }
}

/// Whether `target` is among the conversations in `found`.
pub open spec fn names(found: Seq<(TargetId, i64)>, target: TargetId) -> bool {
    exists|i: int| 0 <= i < found.len() && (#[trigger] found[i]).0 == target
}

/// The conversations that `entries` show within `window`, each with the
/// timestamp of the first entry that shows it, in the order in which they
/// first show.
pub open spec fn targets_seen(entries: Seq<HistoryLogEntry>, user: UserId, window: TimeWindow) -> Seq<
    (TargetId, i64),
>
    decreases entries.len(),
{
    if entries.len() == 0 {
        Seq::empty()
    } else {
        let before = targets_seen(entries.drop_last(), user, window);
        let entry = entries.last();
        match entry.details.conversation(user) {
            Some(target) => if window.contains(entry.timestamp) && !names(before, target) {
                before.push((target, entry.timestamp))
            } else {
                before
            },
            None => before,
        }
    }
}

/// The conversations that `user` has had within `window`, newest first, each
/// with the timestamp of its newest entry there; no more than `limit` of
/// them, where a limit is given.
pub open spec fn recent_targets(
    visible: Seq<HistoryLogEntry>,
    user: UserId,
    window: TimeWindow,
    limit: Option<usize>,
) -> Seq<(TargetId, i64)> {
    let all = targets_seen(visible.reverse(), user, window);
    match limit {
        Some(limit) => if all.len() <= limit {
            all
        } else {
            all.take(limit as int)
        },
        None => all,
    }
}

/// What is seen in a row of entries stays at the front of what is seen when
/// the row goes on.
pub proof fn lemma_targets_seen_prefix(
    first: Seq<HistoryLogEntry>,
    rest: Seq<HistoryLogEntry>,
    user: UserId,
    window: TimeWindow,
)
    ensures
        targets_seen(first, user, window).len() <= targets_seen(first + rest, user, window).len(),
        targets_seen(first + rest, user, window).take(
            targets_seen(first, user, window).len() as int,
        ) == targets_seen(first, user, window),
    decreases rest.len(),
{
    let seen = targets_seen(first, user, window);
    if rest.len() == 0 {
        assert(first + rest =~= first);
        assert(seen.take(seen.len() as int) =~= seen);
    } else {
        assert((first + rest).drop_last() =~= first + rest.drop_last());
        lemma_targets_seen_prefix(first, rest.drop_last(), user, window);
        let shorter = targets_seen(first + rest.drop_last(), user, window);
        let longer = targets_seen(first + rest, user, window);
        assert(longer.take(seen.len() as int) =~= shorter.take(seen.len() as int));
    }
}

/// Whether `entry` shows `user`'s conversation with `target` within
/// `window`.
pub open spec fn shows(
    entry: HistoryLogEntry,
    user: UserId,
    window: TimeWindow,
    target: TargetId,
) -> bool {
    window.contains(entry.timestamp) && entry.details.conversation(user) == Some(target)
}

/// Whether `item` is a conversation with the timestamp of the first of
/// `entries` that shows it.
pub open spec fn first_shown(
    entries: Seq<HistoryLogEntry>,
    user: UserId,
    window: TimeWindow,
    item: (TargetId, i64),
) -> bool {
    exists|k: int|
        0 <= k < entries.len() && #[trigger] shows(entries[k], user, window, item.0)
            && entries[k].timestamp == item.1 && forall|e: int|
            0 <= e < k ==> !shows(entries[e], user, window, item.0)
}

/// Whether `item` is a conversation with the timestamp of the last of
/// `entries` that shows it.
pub open spec fn last_shown(
    entries: Seq<HistoryLogEntry>,
    user: UserId,
    window: TimeWindow,
    item: (TargetId, i64),
) -> bool {
    exists|k: int|
        0 <= k < entries.len() && #[trigger] shows(entries[k], user, window, item.0)
            && entries[k].timestamp == item.1 && forall|later: int|
            k < later < entries.len() ==> !shows(entries[later], user, window, item.0)
}

/// What `targets_seen` lists: no conversation twice; each with the
/// timestamp of the first entry that shows it; and every conversation that
/// some entry shows.
pub proof fn lemma_targets_seen(entries: Seq<HistoryLogEntry>, user: UserId, window: TimeWindow)
    ensures
        crate::targets::distinct_targets(targets_seen(entries, user, window)),
        forall|i: int|
            0 <= i < targets_seen(entries, user, window).len() ==> first_shown(
                entries,
                user,
                window,
                #[trigger] targets_seen(entries, user, window)[i],
            ),
        forall|k: int, target: TargetId|
            0 <= k < entries.len() && #[trigger] shows(entries[k], user, window, target)
                ==> names(targets_seen(entries, user, window), target),
    decreases entries.len(),
{
    let seen = targets_seen(entries, user, window);
    if entries.len() > 0 {
        let earlier = entries.drop_last();
        let before = targets_seen(earlier, user, window);
        let last = entries.last();
        lemma_targets_seen(earlier, user, window);
        assert forall|i: int| 0 <= i < seen.len() implies first_shown(
            entries,
            user,
            window,
            #[trigger] seen[i],
        ) by {
            if i < before.len() {
                assert(seen[i] == before[i]);
                assert(first_shown(earlier, user, window, before[i]));
                let k = choose|k: int|
                    0 <= k < earlier.len() && #[trigger] shows(
                        earlier[k],
                        user,
                        window,
                        before[i].0,
                    ) && earlier[k].timestamp == before[i].1 && forall|e: int|
                        0 <= e < k ==> !shows(earlier[e], user, window, before[i].0);
                assert(entries[k] == earlier[k]);
                assert forall|e: int| 0 <= e < k implies !shows(
                    entries[e],
                    user,
                    window,
                    seen[i].0,
                ) by {
                    assert(entries[e] == earlier[e]);
                }
                assert(shows(entries[k], user, window, seen[i].0));
            } else {
                let k = entries.len() - 1;
                assert(shows(entries[k], user, window, seen[i].0));
                assert forall|e: int| 0 <= e < k implies !shows(
                    entries[e],
                    user,
                    window,
                    seen[i].0,
                ) by {
                    if shows(entries[e], user, window, seen[i].0) {
                        assert(shows(earlier[e], user, window, seen[i].0));
                    }
                }
            }
        }
        assert forall|k: int, target: TargetId|
            0 <= k < entries.len() && #[trigger] shows(entries[k], user, window, target) implies names(
            seen,
            target,
        ) by {
            if k < earlier.len() {
                assert(shows(earlier[k], user, window, target));
                let at = choose|at: int| 0 <= at < before.len() && (#[trigger] before[at]).0 == target;
                assert(seen[at].0 == target);
            } else if names(before, target) {
                let at = choose|at: int| 0 <= at < before.len() && (#[trigger] before[at]).0 == target;
                assert(seen[at].0 == target);
            } else {
                assert(seen[seen.len() - 1].0 == target);
            }
        }
        assert forall|i: int, j: int| 0 <= i < j < seen.len() implies seen[i].0 != seen[j].0 by {
            if j < before.len() {
                assert(seen[i] == before[i] && seen[j] == before[j]);
            } else {
                assert(seen[i] == before[i]);
                assert(!names(before, seen[j].0));
            }
        }
    }
}

/// What a list of recent conversations holds. No conversation stands in it
/// twice, and it is no longer than the limit. Each conversation stands with
/// the timestamp of the newest entry that shows it in the window, that is
/// the last such entry among those that the user can see. Without a limit,
/// or with fewer conversations than the limit, every conversation that an
/// entry in the window shows is listed.
pub proof fn lemma_recent_targets(
    visible: Seq<HistoryLogEntry>,
    user: UserId,
    window: TimeWindow,
    limit: Option<usize>,
)
    ensures
        crate::targets::distinct_targets(recent_targets(visible, user, window, limit)),
        limit matches Some(most) ==> recent_targets(visible, user, window, limit).len() <= most,
        forall|i: int|
            0 <= i < recent_targets(visible, user, window, limit).len() ==> last_shown(
                visible,
                user,
                window,
                #[trigger] recent_targets(visible, user, window, limit)[i],
            ),
        (limit matches Some(most) ==> recent_targets(visible, user, window, limit).len() < most)
            ==> forall|k: int, target: TargetId|
            0 <= k < visible.len() && #[trigger] shows(visible[k], user, window, target)
                ==> names(recent_targets(visible, user, window, limit), target),
{
    let turned = visible.reverse();
    let all = targets_seen(turned, user, window);
    let listed = recent_targets(visible, user, window, limit);
    lemma_targets_seen(turned, user, window);
    assert forall|i: int| 0 <= i < listed.len() implies last_shown(
        visible,
        user,
        window,
        #[trigger] listed[i],
    ) by {
        assert(listed[i] == all[i]);
        assert(first_shown(turned, user, window, all[i]));
        let t = choose|t: int|
            0 <= t < turned.len() && #[trigger] shows(turned[t], user, window, all[i].0)
                && turned[t].timestamp == all[i].1 && forall|e: int|
                0 <= e < t ==> !shows(turned[e], user, window, all[i].0);
        let k = visible.len() - 1 - t;
        assert(visible[k] == turned[t]);
        assert forall|later: int| k < later < visible.len() implies !shows(
            visible[later],
            user,
            window,
            listed[i].0,
        ) by {
            assert(visible[later] == turned[visible.len() - 1 - later]);
        }
        assert(shows(visible[k], user, window, listed[i].0));
    }
    assert forall|i: int, j: int| 0 <= i < j < listed.len() implies listed[i].0 != listed[j].0 by {
        assert(listed[i] == all[i] && listed[j] == all[j]);
    }
    if limit matches Some(most) ==> listed.len() < most {
        assert(listed =~= all);
        assert forall|k: int, target: TargetId|
            0 <= k < visible.len() && #[trigger] shows(visible[k], user, window, target) implies names(
            listed,
            target,
        ) by {
            assert(visible[k] == turned[visible.len() - 1 - k]);
            assert(shows(turned[visible.len() - 1 - k], user, window, target));
        }
    }
}

/// Where timestamps never fall from one entry to the next, the timestamp
/// that a conversation is listed with is the latest of all its entries in
/// the window.
pub proof fn lemma_last_shown_is_latest(
    entries: Seq<HistoryLogEntry>,
    user: UserId,
    window: TimeWindow,
    item: (TargetId, i64),
    k: int,
)
    requires
        last_shown(entries, user, window, item),
        forall|a: int, b: int|
            0 <= a <= b < entries.len() ==> entries[a].timestamp <= entries[b].timestamp,
        0 <= k < entries.len(),
        shows(entries[k], user, window, item.0),
    ensures
        entries[k].timestamp <= item.1,
{
    let last = choose|last: int|
        0 <= last < entries.len() && #[trigger] shows(entries[last], user, window, item.0)
            && entries[last].timestamp == item.1 && forall|later: int|
            last < later < entries.len() ==> !shows(entries[later], user, window, item.0);
    if last < k {
        assert(!shows(entries[k], user, window, item.0));
    }
}

/// The oldest-first copy of a newest-first list.
fn reversed(entries: Vec<HistoryLogEntry>) -> (turned: Vec<HistoryLogEntry>)
    ensures
        turned@ == entries@.reverse(),
{
    let mut turned: Vec<HistoryLogEntry> = Vec::new();
    let mut left: usize = entries.len();
    while left > 0
        invariant
            left <= entries.len(),
            turned.len() == entries.len() - left,
            forall|k: int| 0 <= k < turned.len() ==> turned@[k] == entries@[entries.len() - 1 - k],
        decreases left,
    {
        left -= 1;
        turned.push(entries[left]);
    }
    assert(turned@ =~= entries@.reverse());
    turned
}

/// Whether `entry` belongs to `user`'s conversation with `target` and was
/// made within `window`.
pub fn entry_selected(
    entry: &HistoryLogEntry,
    user: UserId,
    target: TargetId,
    window: &TimeWindow,
) -> (selected: bool)
    ensures
        selected == selects(user, target, *window)(*entry),
{
    match entry.details.conversation_for(user) {
        Some(found) => found == target && window.holds(entry.timestamp),
        None => false,
    }
}

/// Filtering a row with one more entry at its end.
proof fn lemma_filter_push(
    seen: Seq<HistoryLogEntry>,
    entry: HistoryLogEntry,
    keep: spec_fn(HistoryLogEntry) -> bool,
)
    ensures
        seen.push(entry).filter(keep) == if keep(entry) {
            seen.filter(keep).push(entry)
        } else {
            seen.filter(keep)
        },
{
    reveal(Seq::filter);
    assert(seen.push(entry).drop_last() =~= seen);
    assert(seen.push(entry).last() == entry);
}

/// Nothing passes where there is nothing.
proof fn lemma_filter_empty(keep: spec_fn(HistoryLogEntry) -> bool)
    ensures
        Seq::<HistoryLogEntry>::empty().filter(keep) == Seq::<HistoryLogEntry>::empty(),
{
    reveal(Seq::filter);
}

/// Where a walk has gathered all that passes `keep` among what it has seen,
/// and either has seen everything or has gathered `limit`, it has gathered
/// the first `limit` of everything that passes.
proof fn lemma_gathered(
    all: Seq<HistoryLogEntry>,
    seen: Seq<HistoryLogEntry>,
    pending: Seq<HistoryLogEntry>,
    keep: spec_fn(HistoryLogEntry) -> bool,
    limit: nat,
)
    requires
        all == seen + pending,
        seen.filter(keep).len() <= limit,
        pending.len() == 0 || seen.filter(keep).len() == limit,
    ensures
        first_matching(all, keep, limit) == seen.filter(keep),
{
    Seq::filter_distributes_over_add(seen, pending, keep);
    let kept = all.filter(keep);
    if pending.len() == 0 {
        assert(pending =~= Seq::<HistoryLogEntry>::empty());
        lemma_filter_empty(keep);
        assert(kept =~= seen.filter(keep));
    } else if kept.len() <= limit {
        assert(kept =~= seen.filter(keep));
    } else {
        assert(kept.take(limit as int) =~= seen.filter(keep));
    }
}

/// Walks `entries` and gathers the first `limit` that belong to the
/// conversation and lie in the window.
fn gather_forward(
    entries: UserHistoryLogIterator<'_>,
    user: UserId,
    target: TargetId,
    window: &TimeWindow,
    limit: usize,
) -> (gathered: Vec<HistoryLogEntry>)
    requires
        entries.wf(),
    ensures
        gathered@ == first_matching(
            entries.pending(),
            selects(user, target, *window),
            limit as nat,
        ),
{
    let mut entries = entries;
    let ghost all = entries.pending();
    let ghost keep = selects(user, target, *window);
    let ghost mut seen: Seq<HistoryLogEntry> = Seq::empty();
    let mut gathered: Vec<HistoryLogEntry> = Vec::new();
    let mut done = false;
    proof {
        lemma_filter_empty(keep);
        assert(seen + entries.pending() =~= all);
    }
    while !done && gathered.len() < limit
        invariant
            entries.wf(),
            keep == selects(user, target, *window),
            all == seen + entries.pending(),
            gathered@ == seen.filter(keep),
            gathered.len() <= limit,
            done ==> entries.pending().len() == 0,
        decreases entries.pending().len() + if done { 0int } else { 1int },
    {
        let ghost before = entries.pending();
        match entries.next() {
            Some(entry) => {
                proof {
                    lemma_filter_push(seen, *entry, keep);
                    assert(seen.push(*entry) + entries.pending() =~= seen + before);
                    seen = seen.push(*entry);
                }
                if entry_selected(entry, user, target, window) {
                    gathered.push(*entry);
                }
            },
            None => {
                done = true;
            },
        }
    }
    proof {
        lemma_gathered(all, seen, entries.pending(), keep, limit as nat);
    }
    gathered
}

/// Walks `entries` and gathers the first `limit` that belong to the
/// conversation and lie in the window.
fn gather_backward(
    entries: ReverseUserHistoryLogIterator<'_>,
    user: UserId,
    target: TargetId,
    window: &TimeWindow,
    limit: usize,
) -> (gathered: Vec<HistoryLogEntry>)
    requires
        entries.wf(),
    ensures
        gathered@ == first_matching(
            entries.pending(),
            selects(user, target, *window),
            limit as nat,
        ),
{
    let mut entries = entries;
    let ghost all = entries.pending();
    let ghost keep = selects(user, target, *window);
    let ghost mut seen: Seq<HistoryLogEntry> = Seq::empty();
    let mut gathered: Vec<HistoryLogEntry> = Vec::new();
    let mut done = false;
    proof {
        lemma_filter_empty(keep);
        assert(seen + entries.pending() =~= all);
    }
    while !done && gathered.len() < limit
        invariant
            entries.wf(),
            keep == selects(user, target, *window),
            all == seen + entries.pending(),
            gathered@ == seen.filter(keep),
            gathered.len() <= limit,
            done ==> entries.pending().len() == 0,
        decreases entries.pending().len() + if done { 0int } else { 1int },
    {
        let ghost before = entries.pending();
        match entries.next() {
            Some(entry) => {
                proof {
                    lemma_filter_push(seen, *entry, keep);
                    assert(seen.push(*entry) + entries.pending() =~= seen + before);
                    seen = seen.push(*entry);
                }
                if entry_selected(entry, user, target, window) {
                    gathered.push(*entry);
                }
            },
            None => {
                done = true;
            },
        }
    }
    proof {
        lemma_gathered(all, seen, entries.pending(), keep, limit as nat);
    }
    gathered
}

/// Answers queries from a history log.
pub struct HistoryService<'a> {
    pub log: &'a NetworkHistoryLog,
}

impl<'a> HistoryService<'a> {
    /// A service that answers from `log`.
    pub fn new(log: &'a NetworkHistoryLog) -> (service: Self)
        ensures
            service.log == log,
    {
        HistoryService { log }
    }

    /// The oldest `limit` entries of the conversation in `window`, oldest
    /// first.
    fn oldest_entries(&self, user: UserId, target: TargetId, window: TimeWindow, limit: usize) -> (found:
        Vec<HistoryLogEntry>)
        requires
            self.log.wf(),
        ensures
            found@ == oldest(self.log@.visible(user), selects(user, target, window), limit as nat),
    {
        gather_forward(self.log.entries_for_user(user), user, target, &window, limit)
    }

    /// The newest `limit` entries of the conversation in `window`, oldest
    /// first.
    fn newest_entries(&self, user: UserId, target: TargetId, window: TimeWindow, limit: usize) -> (found:
        Vec<HistoryLogEntry>)
        requires
            self.log.wf(),
        ensures
            found@ == newest(self.log@.visible(user), selects(user, target, window), limit as nat),
    {
        reversed(gather_backward(self.log.entries_for_user_reverse(user), user, target, &window, limit))
    }

    /// The entries of `user`'s conversation with `target` that `request`
    /// selects, oldest first. `target_known` says whether the network knows
    /// `target`; where it does not, the query fails with `InvalidTarget`.
    pub fn get_entries(
        &self,
        user: UserId,
        target: TargetId,
        target_known: bool,
        request: HistoryRequest,
    ) -> (found: Result<Vec<HistoryLogEntry>, HistoryError>)
        requires
            self.log.wf(),
        ensures
            match found {
                Ok(entries) => target_known && entries@ == answer(
                    self.log@.visible(user),
                    user,
                    target,
                    request,
                ),
                Err(error) => !target_known && error == HistoryError::InvalidTarget(target),
            },
    {
        if !target_known {
            return Err(HistoryError::InvalidTarget(target));
        }
        let entries = match request {
            HistoryRequest::Latest { to_ts, limit } => {
                let upper = match to_ts {
                    Some(to_ts) => TimeBound::Inclusive(to_ts),
                    None => TimeBound::Open,
                };
                self.newest_entries(
                    user,
                    target,
                    TimeWindow { lower: TimeBound::Open, upper },
                    limit,
                )
            },
            HistoryRequest::Before { from_ts, limit } => self.newest_entries(
                user,
                target,
                TimeWindow { lower: TimeBound::Open, upper: TimeBound::Exclusive(from_ts) },
                limit,
            ),
            HistoryRequest::After { start_ts, limit } => self.oldest_entries(
                user,
                target,
                TimeWindow { lower: TimeBound::Exclusive(start_ts), upper: TimeBound::Open },
                limit,
            ),
            HistoryRequest::Around { around_ts, limit } => {
                let mut entries = self.newest_entries(
                    user,
                    target,
                    TimeWindow { lower: TimeBound::Open, upper: TimeBound::Inclusive(around_ts) },
                    limit - limit / 2,
                );
                let mut later = self.oldest_entries(
                    user,
                    target,
                    TimeWindow { lower: TimeBound::Exclusive(around_ts), upper: TimeBound::Open },
                    limit / 2,
                );
                entries.append(&mut later);
                entries
            },
            HistoryRequest::Between { start_ts, end_ts, limit } => if start_ts <= end_ts {
                self.oldest_entries(
                    user,
                    target,
                    TimeWindow {
                        lower: TimeBound::Inclusive(start_ts),
                        upper: TimeBound::Inclusive(end_ts),
                    },
                    limit,
                )
            } else {
                self.newest_entries(
                    user,
                    target,
                    TimeWindow {
                        lower: TimeBound::Inclusive(end_ts),
                        upper: TimeBound::Inclusive(start_ts),
                    },
                    limit,
                )
            },
        };
        Ok(entries)
    }

    /// The conversations that `user` has had between `lower_ts` and
    /// `upper_ts`, both included, newest first, each with the timestamp of
    /// its newest entry in that span. With a limit, the walk stops at that
    /// many conversations.
    pub fn list_targets(
        &self,
        user: UserId,
        lower_ts: Option<i64>,
        upper_ts: Option<i64>,
        limit: Option<usize>,
    ) -> (found: Vec<(TargetId, i64)>)
        requires
            self.log.wf(),
        ensures
            found@ == recent_targets(
                self.log@.visible(user),
                user,
                TimeWindow::within(lower_ts, upper_ts),
                limit,
            ),
    {
        let window = TimeWindow {
            lower: match lower_ts {
                Some(lower) => TimeBound::Inclusive(lower),
                None => TimeBound::Open,
            },
            upper: match upper_ts {
                Some(upper) => TimeBound::Inclusive(upper),
                None => TimeBound::Open,
            },
        };
        let mut entries = self.log.entries_for_user_reverse(user);
        let ghost all = entries.pending();
        let ghost mut seen: Seq<HistoryLogEntry> = Seq::empty();
        let mut found: Vec<(TargetId, i64)> = Vec::new();
        let mut done = false;
        assert(seen + entries.pending() =~= all);
        while !done && below_limit(found.len(), limit)
            invariant
                entries.wf(),
                all == seen + entries.pending(),
                found@ == targets_seen(seen, user, window),
                limit matches Some(limit) ==> found.len() <= limit,
                done ==> entries.pending().len() == 0,
            decreases entries.pending().len() + if done { 0int } else { 1int },
        {
            let ghost before = entries.pending();
            match entries.next() {
                Some(entry) => {
                    proof {
                        assert(seen.push(*entry).drop_last() =~= seen);
                        assert(seen.push(*entry) + entries.pending() =~= seen + before);
                        seen = seen.push(*entry);
                    }
                    match entry.details.conversation_for(user) {
                        Some(target) => {
                            if window.holds(entry.timestamp) && !lists(&found, target) {
                                found.push((target, entry.timestamp));
                            }
                        },
                        None => {},
                    }
                },
                None => {
                    done = true;
                },
            }
        }
        proof {
            lemma_targets_seen_prefix(seen, entries.pending(), user, window);
            if done {
                assert(seen + entries.pending() =~= seen);
            }
            let whole = targets_seen(all, user, window);
            assert(whole.take(whole.len() as int) =~= whole);
        }
        found
    }
}

/// Whether a walk that has found `count` conversations may go on.
fn below_limit(count: usize, limit: Option<usize>) -> (below: bool)
    ensures
        below == match limit {
            Some(limit) => count < limit,
            None => true,
        },
{
    match limit {
        Some(limit) => count < limit,
        None => true,
    }
}

/// Whether `target` is among the conversations in `found`.
fn lists(found: &Vec<(TargetId, i64)>, target: TargetId) -> (listed: bool)
    ensures
        listed == names(found@, target),
{
    let mut i: usize = 0;
    while i < found.len()
        invariant
            i <= found.len(),
            forall|k: int| 0 <= k < i ==> (#[trigger] found@[k]).0 != target,
        decreases found.len() - i,
    {
        if found[i].0 == target {
            return true;
        }
        i += 1;
    }
    false
}

} // verus!
