use sable_history::entry::HistoryLogEntry;
use sable_history::ids::{ChannelId, EventId, MessageId, TargetId, UserId};
use sable_history::log::NetworkHistoryLog;
use sable_history::query::{HistoryError, HistoryRequest, HistoryService, TimeBound, TimeWindow};
use sable_history::state_change::{NetworkStateChange, NewMessage};
use sable_history::targets::sort_by_timestamp;

const ME: UserId = UserId(1);
const FRIEND: UserId = UserId(2);
const CHAN: TargetId = TargetId::Channel(ChannelId(10));
const OTHER_CHAN: TargetId = TargetId::Channel(ChannelId(11));

fn say(log: &mut NetworkHistoryLog, source: UserId, target: TargetId, timestamp: i64) -> usize {
    let n = log.size() as u64;
    let id = log
        .add(
            NetworkStateChange::NewMessage(NewMessage { message: MessageId(n), source, target }),
            EventId { server: 1, epoch: 1, id: n },
            timestamp,
        )
        .unwrap();
    log.add_entry_for_user(ME, id);
    id
}

/// Messages in `CHAN` at 10, 20, .., 100, with other traffic in between.
fn busy_log() -> NetworkHistoryLog {
    let mut log = NetworkHistoryLog::new();
    for i in 1..=10i64 {
        say(&mut log, FRIEND, CHAN, i * 10);
        say(&mut log, FRIEND, OTHER_CHAN, i * 10 + 1);
        let id = log
            .add(NetworkStateChange::ChannelJoin, EventId { server: 1, epoch: 1, id: 0 }, i * 10 + 2)
            .unwrap();
        log.add_entry_for_user(ME, id);
    }
    log
}

fn times(entries: &[HistoryLogEntry]) -> Vec<i64> {
    entries.iter().map(|e| e.timestamp).collect()
}

fn ask(log: &NetworkHistoryLog, request: HistoryRequest) -> Vec<i64> {
    let service = HistoryService::new(log);
    times(&service.get_entries(ME, CHAN, true, request).unwrap())
}

#[test]
fn latest_without_bound() {
    let log = busy_log();
    assert_eq!(ask(&log, HistoryRequest::Latest { to_ts: None, limit: 3 }), vec![80, 90, 100]);
    assert_eq!(ask(&log, HistoryRequest::Latest { to_ts: None, limit: 100 }).len(), 10);
    assert_eq!(ask(&log, HistoryRequest::Latest { to_ts: None, limit: 0 }), Vec::<i64>::new());
}

#[test]
fn latest_up_to_a_timestamp_includes_it() {
    let log = busy_log();
    assert_eq!(ask(&log, HistoryRequest::Latest { to_ts: Some(50), limit: 2 }), vec![40, 50]);
    assert_eq!(ask(&log, HistoryRequest::Latest { to_ts: Some(49), limit: 2 }), vec![30, 40]);
    assert_eq!(ask(&log, HistoryRequest::Latest { to_ts: Some(5), limit: 2 }), Vec::<i64>::new());
}

#[test]
fn before_is_strict() {
    let log = busy_log();
    assert_eq!(ask(&log, HistoryRequest::Before { from_ts: 50, limit: 2 }), vec![30, 40]);
    assert_eq!(ask(&log, HistoryRequest::Before { from_ts: 51, limit: 2 }), vec![40, 50]);
    assert_eq!(ask(&log, HistoryRequest::Before { from_ts: 10, limit: 2 }), Vec::<i64>::new());
}

#[test]
fn after_is_strict() {
    let log = busy_log();
    assert_eq!(ask(&log, HistoryRequest::After { start_ts: 50, limit: 2 }), vec![60, 70]);
    assert_eq!(ask(&log, HistoryRequest::After { start_ts: 49, limit: 2 }), vec![50, 60]);
    assert_eq!(ask(&log, HistoryRequest::After { start_ts: 95, limit: 5 }), vec![100]);
    assert_eq!(ask(&log, HistoryRequest::After { start_ts: 100, limit: 5 }), Vec::<i64>::new());
}

#[test]
fn around_takes_both_sides() {
    let log = busy_log();
    assert_eq!(
        ask(&log, HistoryRequest::Around { around_ts: 50, limit: 4 }),
        vec![40, 50, 60, 70]
    );
    assert_eq!(
        ask(&log, HistoryRequest::Around { around_ts: 55, limit: 5 }),
        vec![30, 40, 50, 60, 70]
    );
    assert_eq!(ask(&log, HistoryRequest::Around { around_ts: 50, limit: 1 }), vec![50]);
    assert_eq!(ask(&log, HistoryRequest::Around { around_ts: 5, limit: 4 }), vec![10, 20]);
    assert_eq!(ask(&log, HistoryRequest::Around { around_ts: 500, limit: 4 }), vec![90, 100]);
}

#[test]
fn between_includes_both_bounds() {
    let log = busy_log();
    assert_eq!(
        ask(&log, HistoryRequest::Between { start_ts: 30, end_ts: 60, limit: 10 }),
        vec![30, 40, 50, 60]
    );
    assert_eq!(
        ask(&log, HistoryRequest::Between { start_ts: 30, end_ts: 60, limit: 2 }),
        vec![30, 40]
    );
    assert_eq!(
        ask(&log, HistoryRequest::Between { start_ts: 31, end_ts: 59, limit: 10 }),
        vec![40, 50]
    );
    assert_eq!(
        ask(&log, HistoryRequest::Between { start_ts: 40, end_ts: 40, limit: 10 }),
        vec![40]
    );
}

#[test]
fn between_with_bounds_the_other_way_round_starts_at_the_later_one() {
    let log = busy_log();
    assert_eq!(
        ask(&log, HistoryRequest::Between { start_ts: 60, end_ts: 30, limit: 10 }),
        vec![30, 40, 50, 60]
    );
    assert_eq!(
        ask(&log, HistoryRequest::Between { start_ts: 60, end_ts: 30, limit: 2 }),
        vec![50, 60]
    );
}

#[test]
fn unknown_target_is_refused() {
    let log = busy_log();
    let service = HistoryService::new(&log);
    assert_eq!(
        service.get_entries(ME, CHAN, false, HistoryRequest::Latest { to_ts: None, limit: 3 }),
        Err(HistoryError::InvalidTarget(CHAN))
    );
}

#[test]
fn queries_see_one_conversation_only() {
    let log = busy_log();
    let service = HistoryService::new(&log);
    let other = service
        .get_entries(ME, OTHER_CHAN, true, HistoryRequest::Latest { to_ts: None, limit: 2 })
        .unwrap();
    assert_eq!(times(&other), vec![91, 101]);
    let nobody = service
        .get_entries(ME, TargetId::User(UserId(77)), true, HistoryRequest::Latest {
            to_ts: None,
            limit: 2,
        })
        .unwrap();
    assert!(nobody.is_empty());
    let stranger = service
        .get_entries(UserId(500), CHAN, true, HistoryRequest::Latest { to_ts: None, limit: 2 })
        .unwrap();
    assert!(stranger.is_empty());
}

#[test]
fn private_messages_are_filed_under_the_other_party() {
    let mut log = NetworkHistoryLog::new();
    say(&mut log, FRIEND, TargetId::User(ME), 10);
    say(&mut log, ME, TargetId::User(FRIEND), 20);
    say(&mut log, UserId(3), TargetId::User(ME), 30);
    let service = HistoryService::new(&log);
    let with_friend = service
        .get_entries(ME, TargetId::User(FRIEND), true, HistoryRequest::Latest {
            to_ts: None,
            limit: 10,
        })
        .unwrap();
    assert_eq!(times(&with_friend), vec![10, 20]);
    let with_myself = service
        .get_entries(ME, TargetId::User(ME), true, HistoryRequest::Latest { to_ts: None, limit: 10 })
        .unwrap();
    assert!(with_myself.is_empty());
    assert_eq!(
        service.list_targets(ME, None, None, None),
        vec![(TargetId::User(UserId(3)), 30), (TargetId::User(FRIEND), 20)]
    );
}

#[test]
fn queries_pass_over_expired_entries() {
    let mut log = busy_log();
    log.expire_entries(75);
    assert_eq!(ask(&log, HistoryRequest::Latest { to_ts: None, limit: 10 }), vec![80, 90, 100]);
    assert_eq!(ask(&log, HistoryRequest::After { start_ts: 0, limit: 2 }), vec![80, 90]);
}

#[test]
fn targets_are_listed_once_with_their_newest_timestamp() {
    let log = busy_log();
    let service = HistoryService::new(&log);
    assert_eq!(service.list_targets(ME, None, None, None), vec![(OTHER_CHAN, 101), (CHAN, 100)]);
    assert_eq!(
        service.list_targets(ME, Some(20), Some(55), Some(10)),
        vec![(OTHER_CHAN, 51), (CHAN, 50)]
    );
    assert_eq!(service.list_targets(ME, Some(20), Some(50), Some(10)), vec![
        (CHAN, 50),
        (OTHER_CHAN, 41)
    ]);
    assert_eq!(service.list_targets(ME, Some(50), Some(50), None), vec![(CHAN, 50)]);
    assert_eq!(service.list_targets(ME, Some(52), Some(59), None), vec![]);
}

#[test]
fn targets_stop_at_the_limit() {
    let log = busy_log();
    let service = HistoryService::new(&log);
    assert_eq!(service.list_targets(ME, None, None, Some(1)), vec![(OTHER_CHAN, 101)]);
    assert_eq!(service.list_targets(ME, None, Some(100), Some(1)), vec![(CHAN, 100)]);
    assert_eq!(service.list_targets(ME, None, None, Some(0)), vec![]);
    assert_eq!(service.list_targets(UserId(500), None, None, Some(5)), vec![]);
}

#[test]
fn window_bounds() {
    let window = TimeWindow { lower: TimeBound::Exclusive(10), upper: TimeBound::Inclusive(20) };
    assert!(!window.holds(10));
    assert!(window.holds(11));
    assert!(window.holds(20));
    assert!(!window.holds(21));
    let open = TimeWindow { lower: TimeBound::Open, upper: TimeBound::Open };
    assert!(open.holds(i64::MIN));
    assert!(open.holds(i64::MAX));
    let upper = TimeWindow { lower: TimeBound::Inclusive(i64::MIN), upper: TimeBound::Exclusive(0) };
    assert!(upper.holds(i64::MIN));
    assert!(upper.holds(-1));
    assert!(!upper.holds(0));
}

#[test]
fn presentation_order_is_rising_and_stable() {
    let a = TargetId::User(UserId(1));
    let b = TargetId::User(UserId(2));
    let c = TargetId::Channel(ChannelId(3));
    let d = TargetId::Channel(ChannelId(4));
    assert_eq!(
        sort_by_timestamp(&vec![(a, 30), (b, 10), (c, 20), (d, 10)]),
        vec![(b, 10), (d, 10), (c, 20), (a, 30)]
    );
    assert_eq!(sort_by_timestamp(&vec![]), vec![]);
    assert_eq!(sort_by_timestamp(&vec![(a, -5)]), vec![(a, -5)]);
}
