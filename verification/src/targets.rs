//! Putting a list of conversations in the order in which it is presented.

use crate::ids::TargetId;
use crate::query::names;
use vstd::prelude::*;

verus! {

/// Whether the timestamps of `list` never fall.
pub open spec fn rising(list: Seq<(TargetId, i64)>) -> bool {
    forall|i: int, j: int| 0 <= i <= j < list.len() ==> list[i].1 <= list[j].1
}

/// Whether no conversation stands twice in `list`.
pub open spec fn distinct_targets(list: Seq<(TargetId, i64)>) -> bool {
    forall|i: int, j: int| 0 <= i < j < list.len() ==> list[i].0 != list[j].0
}

/// How many items stand at the front of `list` with a timestamp no later
/// than `timestamp`.
pub open spec fn place_for(list: Seq<(TargetId, i64)>, timestamp: i64) -> nat
    decreases list.len(),
{
    if list.len() > 0 && list[0].1 <= timestamp {
        1 + place_for(list.drop_first(), timestamp)
    } else {
        0
    }
}

/// `found` in rising order of timestamp; items with one timestamp keep the
/// order that they had.
pub open spec fn by_timestamp(found: Seq<(TargetId, i64)>) -> Seq<(TargetId, i64)>
    decreases found.len(),
{
    if found.len() == 0 {
        Seq::empty()
    } else {
        let sorted = by_timestamp(found.drop_last());
        sorted.insert(place_for(sorted, found.last().1) as int, found.last())
    }
}

/// What `place_for` counts: the items before the place are no later than the
/// timestamp, and the item at the place, if there is one, is later.
pub proof fn lemma_place_for(list: Seq<(TargetId, i64)>, timestamp: i64)
    ensures
        place_for(list, timestamp) <= list.len(),
        forall|k: int| 0 <= k < place_for(list, timestamp) ==> (#[trigger] list[k]).1 <= timestamp,
        place_for(list, timestamp) < list.len() ==> list[place_for(list, timestamp) as int].1
            > timestamp,
    decreases list.len(),
{
    if list.len() > 0 && list[0].1 <= timestamp {
        let rest = list.drop_first();
        lemma_place_for(rest, timestamp);
        assert forall|k: int| 0 <= k < place_for(list, timestamp) implies (#[trigger] list[k]).1
            <= timestamp by {
            if k > 0 {
                assert(list[k] == rest[k - 1]);
            }
        }
        if place_for(list, timestamp) < list.len() {
            assert(list[place_for(list, timestamp) as int] == rest[place_for(rest, timestamp) as int]);
        }
    }
}

/// A place before which nothing is later than the timestamp, and at which
/// there is nothing or something later, is the place that `place_for` gives.
pub proof fn lemma_place_for_is(list: Seq<(TargetId, i64)>, timestamp: i64, place: int)
    requires
        0 <= place <= list.len(),
        forall|k: int| 0 <= k < place ==> (#[trigger] list[k]).1 <= timestamp,
        place < list.len() ==> list[place].1 > timestamp,
    ensures
        place_for(list, timestamp) == place,
{
    lemma_place_for(list, timestamp);
    let found = place_for(list, timestamp) as int;
    if found < place {
        assert(list[found].1 <= timestamp);
    } else if place < found {
        assert(list[place].1 <= timestamp);
    }
}

/// The presented list is in rising order of timestamp and holds exactly
/// what was found, each item as often as it was found.
pub proof fn lemma_by_timestamp(found: Seq<(TargetId, i64)>)
    ensures
        rising(by_timestamp(found)),
        by_timestamp(found).len() == found.len(),
        by_timestamp(found).to_multiset() == found.to_multiset(),
    decreases found.len(),
{
    broadcast use vstd::seq_lib::group_to_multiset_ensures;

    if found.len() == 0 {
        assert(found =~= Seq::<(TargetId, i64)>::empty());
    } else {
        let rest = found.drop_last();
        let item = found.last();
        lemma_by_timestamp(rest);
        let sorted = by_timestamp(rest);
        let place = place_for(sorted, item.1) as int;
        lemma_place_for(sorted, item.1);
        let longer = sorted.insert(place, item);
        assert forall|i: int, j: int| 0 <= i <= j < longer.len() implies longer[i].1
            <= longer[j].1 by {
            if i < place && j > place {
                assert(longer[i] == sorted[i]);
                assert(longer[j] == sorted[j - 1]);
            } else if i < place && j < place {
                assert(longer[i] == sorted[i]);
                assert(longer[j] == sorted[j]);
            } else if i > place {
                assert(longer[i] == sorted[i - 1]);
                assert(longer[j] == sorted[j - 1]);
            } else if i == place && j > place {
                assert(longer[j] == sorted[j - 1]);
                assert(sorted[place].1 <= sorted[j - 1].1);
            }
        }
        assert(rest.push(item) =~= found);
    }
}

/// Where no conversation was found twice, none is presented twice.
pub proof fn lemma_by_timestamp_distinct(found: Seq<(TargetId, i64)>)
    requires
        distinct_targets(found),
    ensures
        distinct_targets(by_timestamp(found)),
        forall|target: TargetId| #[trigger]
            names(by_timestamp(found), target) ==> names(found, target),
        forall|target: TargetId| #[trigger]
            names(found, target) ==> names(by_timestamp(found), target),
    decreases found.len(),
{
    if found.len() > 0 {
        let rest = found.drop_last();
        let item = found.last();
        assert forall|i: int, j: int| 0 <= i < j < rest.len() implies rest[i].0 != rest[j].0 by {
            assert(rest[i] == found[i]);
            assert(rest[j] == found[j]);
        }
        lemma_by_timestamp_distinct(rest);
        let sorted = by_timestamp(rest);
        let place = place_for(sorted, item.1) as int;
        lemma_place_for(sorted, item.1);
        let longer = sorted.insert(place, item);
        assert(!names(rest, item.0)) by {
            if names(rest, item.0) {
                let k = choose|k: int| 0 <= k < rest.len() && (#[trigger] rest[k]).0 == item.0;
                assert(found[k].0 == found[found.len() - 1].0);
            }
        }
        assert forall|i: int, j: int| 0 <= i < j < longer.len() implies longer[i].0
            != longer[j].0 by {
            let a = if i < place {
                i
            } else {
                i - 1
            };
            let b = if j < place {
                j
            } else {
                j - 1
            };
            if i == place {
                assert(longer[j] == sorted[b]);
                assert(names(sorted, sorted[b].0));
            } else if j == place {
                assert(longer[i] == sorted[a]);
                assert(names(sorted, sorted[a].0));
            } else {
                assert(longer[i] == sorted[a]);
                assert(longer[j] == sorted[b]);
            }
        }
        assert forall|target: TargetId| #[trigger] names(longer, target) implies names(
            found,
            target,
        ) by {
            if names(longer, target) {
                let k = choose|k: int| 0 <= k < longer.len() && (#[trigger] longer[k]).0 == target;
                if k == place {
                    assert(found[found.len() - 1].0 == target);
                } else {
                    let a = if k < place {
                        k
                    } else {
                        k - 1
                    };
                    assert(longer[k] == sorted[a]);
                    assert(names(sorted, target));
                    let r = choose|r: int| 0 <= r < rest.len() && (#[trigger] rest[r]).0 == target;
                    assert(found[r].0 == target);
                }
            }
        }
        assert forall|target: TargetId| #[trigger] names(found, target) implies names(
            longer,
            target,
        ) by {
            if names(found, target) {
                let k = choose|k: int| 0 <= k < found.len() && (#[trigger] found[k]).0 == target;
                if k == found.len() - 1 {
                    assert(longer[place].0 == target);
                } else {
                    assert(rest[k].0 == target);
                    assert(names(rest, target));
                    assert(names(sorted, target));
                    let r = choose|r: int|
                        0 <= r < sorted.len() && (#[trigger] sorted[r]).0 == target;
                    if r < place {
                        assert(longer[r] == sorted[r]);
                    } else {
                        assert(longer[r + 1] == sorted[r]);
                    }
                }
            }
        }
    }
}

/// Puts `found` in rising order of timestamp.
pub fn sort_by_timestamp(found: &Vec<(TargetId, i64)>) -> (sorted: Vec<(TargetId, i64)>)
    ensures
        sorted@ == by_timestamp(found@),
{
    let mut sorted: Vec<(TargetId, i64)> = Vec::new();
    let mut i: usize = 0;
    assert(found@.take(0) =~= Seq::<(TargetId, i64)>::empty());
    while i < found.len()
        invariant
            i <= found.len(),
            sorted.len() == i,
            sorted@ == by_timestamp(found@.take(i as int)),
        decreases found.len() - i,
    {
        let item = found[i];
        let mut place: usize = 0;
        while place < sorted.len() && sorted[place].1 <= item.1
            invariant
                place <= sorted.len(),
                forall|k: int| 0 <= k < place ==> (#[trigger] sorted@[k]).1 <= item.1,
            decreases sorted.len() - place,
        {
            place += 1;
        }
        proof {
            lemma_place_for_is(sorted@, item.1, place as int);
            assert(found@.take(i + 1).drop_last() =~= found@.take(i as int));
            assert(found@.take(i + 1).last() == item);
        }
        sorted.insert(place, item);
        i += 1;
    }
    assert(found@.take(found@.len() as int) =~= found@);
    sorted
}

} // verus!
