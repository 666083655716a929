use sable_history::entry::HistoryLogEntry;
use sable_history::ids::{ChannelId, EventId, MessageId, TargetId, UserId};
use sable_history::log::{HistorySnapshot, NetworkHistoryLog};
use sable_history::nick_binding::NickBinding;
use sable_history::query::HistoryError;
use sable_history::state_change::{NetworkStateChange, NewMessage};

fn entry(id: usize, timestamp: i64) -> HistoryLogEntry {
    HistoryLogEntry {
        id,
        timestamp,
        source_event: EventId { server: 3, epoch: 1, id: id as u64 },
        details: NetworkStateChange::NewMessage(NewMessage {
            message: MessageId(id as u64),
            source: UserId(2),
            target: TargetId::Channel(ChannelId(9)),
        }),
    }
}

fn walk(log: &NetworkHistoryLog, user: UserId) -> Vec<usize> {
    let mut seen = Vec::new();
    let mut entries = log.entries_for_user(user);
    while let Some(e) = entries.next() {
        seen.push(e.id);
    }
    seen
}

fn malformed() -> Option<HistoryError> {
    Some(HistoryError::InternalError("malformed history snapshot".to_string()))
}

fn sample() -> NetworkHistoryLog {
    let mut log = NetworkHistoryLog::new();
    for i in 0..6usize {
        let e = entry(i, 100 * i as i64);
        let id = log.add(e.details, e.source_event, e.timestamp).unwrap();
        log.add_entry_for_user(UserId(1), id);
        if i % 2 == 1 {
            log.add_entry_for_user(UserId(7), id);
        }
    }
    log
}

#[test]
fn snapshot_lists_what_is_live() {
    let mut log = sample();
    log.expire_entries(250);
    let snapshot = log.snapshot();
    assert_eq!(
        snapshot,
        HistorySnapshot {
            start_index: 3,
            entries: vec![entry(3, 300), entry(4, 400), entry(5, 500)],
            user_logs: vec![(UserId(1), vec![3, 4, 5]), (UserId(7), vec![3, 5])],
        }
    );
}

#[test]
fn snapshot_of_an_empty_log() {
    let log = NetworkHistoryLog::new();
    assert_eq!(
        log.snapshot(),
        HistorySnapshot { start_index: 0, entries: vec![], user_logs: vec![] }
    );
}

#[test]
fn restored_log_goes_on_where_the_old_one_was() {
    let mut log = sample();
    log.expire_entries(250);
    let mut restored = NetworkHistoryLog::restore(&log.snapshot()).unwrap();
    assert_eq!(restored.start_index(), 3);
    assert_eq!(restored.size(), 6);
    assert_eq!(restored.get(2), None);
    assert_eq!(restored.get(3), Some(&entry(3, 300)));
    assert_eq!(restored.get(5), Some(&entry(5, 500)));
    assert_eq!(restored.get(6), None);
    assert_eq!(walk(&restored, UserId(1)), vec![3, 4, 5]);
    assert_eq!(walk(&restored, UserId(7)), vec![3, 5]);
    assert_eq!(restored.snapshot(), log.snapshot());
    let next = entry(6, 600);
    assert_eq!(restored.add(next.details, next.source_event, next.timestamp), Some(6));
    assert_eq!(restored.get(6), Some(&entry(6, 600)));
    restored.add_entry_for_user(UserId(7), 6);
    assert_eq!(walk(&restored, UserId(7)), vec![3, 5, 6]);
    restored.expire_entries(450);
    assert_eq!(restored.start_index(), 5);
    assert_eq!(walk(&restored, UserId(1)), vec![5]);
    assert_eq!(walk(&restored, UserId(7)), vec![5, 6]);
}

#[test]
fn restore_keeps_stale_ids() {
    let snapshot = HistorySnapshot {
        start_index: 10,
        entries: vec![entry(10, 5)],
        user_logs: vec![(UserId(1), vec![4, 10, 99])],
    };
    let restored = NetworkHistoryLog::restore(&snapshot).unwrap();
    assert_eq!(walk(&restored, UserId(1)), vec![10]);
    assert_eq!(restored.snapshot(), snapshot);
}

#[test]
fn restore_refuses_entries_out_of_place() {
    let snapshot = HistorySnapshot {
        start_index: 3,
        entries: vec![entry(3, 300), entry(5, 500)],
        user_logs: vec![],
    };
    assert_eq!(NetworkHistoryLog::restore(&snapshot).err(), malformed());
    let snapshot =
        HistorySnapshot { start_index: 4, entries: vec![entry(3, 300)], user_logs: vec![] };
    assert_eq!(NetworkHistoryLog::restore(&snapshot).err(), malformed());
}

#[test]
fn restore_refuses_kinds_that_history_does_not_keep() {
    let mut stray = entry(0, 1);
    stray.details = NetworkStateChange::NewUser;
    let snapshot = HistorySnapshot { start_index: 0, entries: vec![stray], user_logs: vec![] };
    assert_eq!(NetworkHistoryLog::restore(&snapshot).err(), malformed());
}

#[test]
fn restore_refuses_a_user_twice() {
    let snapshot = HistorySnapshot {
        start_index: 0,
        entries: vec![entry(0, 1)],
        user_logs: vec![(UserId(1), vec![0]), (UserId(2), vec![]), (UserId(1), vec![])],
    };
    assert_eq!(NetworkHistoryLog::restore(&snapshot).err(), malformed());
}

#[test]
fn restore_refuses_a_log_that_ends_beyond_the_last_index() {
    let snapshot = HistorySnapshot {
        start_index: usize::MAX,
        entries: vec![entry(usize::MAX, 1)],
        user_logs: vec![],
    };
    assert_eq!(NetworkHistoryLog::restore(&snapshot).err(), malformed());
    let snapshot = HistorySnapshot { start_index: usize::MAX, entries: vec![], user_logs: vec![] };
    let restored = NetworkHistoryLog::restore(&snapshot).unwrap();
    assert_eq!(restored.size(), usize::MAX);
    assert_eq!(restored.get(0), None);
}

#[test]
fn nick_binding_gives_back_its_parts() {
    let created = EventId { server: 1, epoch: 2, id: 3 };
    let binding = NickBinding::new("alice".to_string(), UserId(4), 1234, created);
    assert_eq!(binding.nick(), "alice");
    assert_eq!(binding.user(), UserId(4));
    assert_eq!(binding.timestamp(), 1234);
    assert_eq!(binding.created(), created);
}
