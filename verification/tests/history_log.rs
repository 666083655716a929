use sable_history::entry::HistoryLogEntry;
use sable_history::ids::{ChannelId, EventId, MessageId, TargetId, UserId};
use sable_history::log::NetworkHistoryLog;
use sable_history::state_change::{NetworkStateChange, NewMessage};

fn event(id: u64) -> EventId {
    EventId { server: 1, epoch: 1, id }
}

fn message(id: u64, source: UserId, target: TargetId) -> NetworkStateChange {
    NetworkStateChange::NewMessage(NewMessage { message: MessageId(id), source, target })
}

fn forward(log: &NetworkHistoryLog, user: UserId) -> Vec<HistoryLogEntry> {
    let mut walk = log.entries_for_user(user);
    let mut seen = Vec::new();
    while let Some(entry) = walk.next() {
        seen.push(*entry);
    }
    seen
}

fn backward(log: &NetworkHistoryLog, user: UserId) -> Vec<HistoryLogEntry> {
    let mut walk = log.entries_for_user_reverse(user);
    let mut seen = Vec::new();
    while let Some(entry) = walk.next() {
        seen.push(*entry);
    }
    seen
}

fn timestamps(entries: &[HistoryLogEntry]) -> Vec<i64> {
    entries.iter().map(|e| e.timestamp).collect()
}

#[test]
fn new_log_is_empty() {
    let log = NetworkHistoryLog::new();
    assert_eq!(log.size(), 0);
    assert_eq!(log.start_index(), 0);
    assert_eq!(log.get(0), None);
    assert!(forward(&log, UserId(1)).is_empty());
    assert!(backward(&log, UserId(1)).is_empty());
}

#[test]
fn add_assigns_dense_ids() {
    let mut log = NetworkHistoryLog::new();
    let alice = UserId(1);
    let bob = TargetId::User(UserId(2));
    assert_eq!(log.add(message(1, alice, bob), event(1), 100), Some(0));
    assert_eq!(log.add(NetworkStateChange::ChannelJoin, event(2), 101), Some(1));
    assert_eq!(log.add(message(2, alice, bob), event(3), 102), Some(2));
    assert_eq!(log.size(), 3);
    assert_eq!(
        log.get(1),
        Some(&HistoryLogEntry {
            id: 1,
            timestamp: 101,
            source_event: event(2),
            details: NetworkStateChange::ChannelJoin,
        })
    );
    assert_eq!(log.get(2).map(|e| (e.id, e.timestamp)), Some((2, 102)));
    assert_eq!(log.get(3), None);
}

#[test]
fn ids_rise_by_one_over_many_adds() {
    let mut log = NetworkHistoryLog::new();
    for i in 0..5000usize {
        let id = log.add(NetworkStateChange::UserQuit, event(i as u64), i as i64);
        assert_eq!(id, Some(i));
    }
    assert_eq!(log.size(), 5000);
    assert_eq!(log.get(4999).map(|e| e.id), Some(4999));
}

#[test]
fn kinds_outside_the_allow_list_are_dropped() {
    let excluded = [
        NetworkStateChange::NewUser,
        NetworkStateChange::UserModeChange,
        NetworkStateChange::UserAwayChange,
        NetworkStateChange::NewUserConnection,
        NetworkStateChange::UserConnectionDisconnected,
        NetworkStateChange::NewServer,
        NetworkStateChange::ServerQuit,
        NetworkStateChange::NewAuditLogEntry,
        NetworkStateChange::UserLoginChange,
        NetworkStateChange::ServicesUpdate,
        NetworkStateChange::HistoryServerUpdate,
        NetworkStateChange::EventComplete,
    ];
    let mut log = NetworkHistoryLog::new();
    for (i, details) in excluded.iter().enumerate() {
        assert!(!details.is_recorded());
        assert_eq!(log.add(*details, event(i as u64), 10), None);
        assert_eq!(log.size(), 0);
    }
    assert_eq!(log.get(0), None);
}

#[test]
fn kinds_on_the_allow_list_are_kept() {
    let included = [
        NetworkStateChange::UserNickChange,
        NetworkStateChange::UserQuit,
        NetworkStateChange::ChannelModeChange,
        NetworkStateChange::ChannelTopicChange,
        NetworkStateChange::ListModeAdded,
        NetworkStateChange::ListModeRemoved,
        NetworkStateChange::MembershipFlagChange,
        NetworkStateChange::ChannelJoin,
        NetworkStateChange::ChannelKick,
        NetworkStateChange::ChannelPart,
        NetworkStateChange::ChannelInvite,
        NetworkStateChange::ChannelRename,
        message(9, UserId(1), TargetId::Channel(ChannelId(7))),
    ];
    let mut log = NetworkHistoryLog::new();
    for (i, details) in included.iter().enumerate() {
        assert!(details.is_recorded());
        assert_eq!(log.add(*details, event(i as u64), 10), Some(i));
        assert_eq!(log.size(), i + 1);
        assert_eq!(log.get(i).map(|e| e.details), Some(*details));
    }
}

#[test]
fn expire_trims_entry_by_entry() {
    let mut log = NetworkHistoryLog::new();
    let alice = UserId(1);
    let bob = TargetId::User(UserId(2));
    log.add(message(1, alice, bob), event(1), 100);
    log.add(message(2, alice, bob), event(2), 200);
    log.add(message(3, alice, bob), event(3), 300);
    log.expire_entries(250);
    assert_eq!(log.start_index(), 2);
    assert_eq!(log.size(), 3);
    assert_eq!(log.get(0), None);
    assert_eq!(log.get(1), None);
    assert_eq!(log.get(2).map(|e| e.timestamp), Some(300));
    assert_eq!(log.add(message(4, alice, bob), event(4), 400), Some(3));
}

#[test]
fn expire_keeps_the_entry_at_the_threshold() {
    let mut log = NetworkHistoryLog::new();
    log.add(NetworkStateChange::UserQuit, event(1), 100);
    log.add(NetworkStateChange::UserQuit, event(2), 200);
    log.expire_entries(200);
    assert_eq!(log.start_index(), 1);
    assert_eq!(log.get(1).map(|e| e.timestamp), Some(200));
    log.expire_entries(100);
    assert_eq!(log.start_index(), 1);
}

#[test]
fn expire_can_empty_the_log() {
    let mut log = NetworkHistoryLog::new();
    log.add(NetworkStateChange::UserQuit, event(1), 100);
    log.add(NetworkStateChange::UserQuit, event(2), 200);
    log.expire_entries(1000);
    assert_eq!(log.start_index(), 2);
    assert_eq!(log.size(), 2);
    assert_eq!(log.get(1), None);
    assert_eq!(log.add(NetworkStateChange::UserQuit, event(3), 50), Some(2));
    assert_eq!(log.get(2).map(|e| e.timestamp), Some(50));
}

#[test]
fn expire_stops_at_the_first_newer_entry() {
    let mut log = NetworkHistoryLog::new();
    log.add(NetworkStateChange::UserQuit, event(1), 100);
    log.add(NetworkStateChange::UserQuit, event(2), 500);
    log.add(NetworkStateChange::UserQuit, event(3), 150);
    log.add(NetworkStateChange::UserQuit, event(4), 600);
    log.expire_entries(300);
    assert_eq!(log.start_index(), 1);
    assert_eq!(log.get(0), None);
    assert_eq!(log.get(1).map(|e| e.timestamp), Some(500));
    assert_eq!(log.get(2).map(|e| e.timestamp), Some(150));
    assert_eq!(log.get(3).map(|e| e.timestamp), Some(600));
}

#[test]
fn user_walks_follow_the_index() {
    let mut log = NetworkHistoryLog::new();
    let alice = UserId(1);
    let carol = UserId(3);
    let chan = TargetId::Channel(ChannelId(5));
    for i in 0..4u64 {
        let id = log.add(message(i, alice, chan), event(i), 100 + i as i64).unwrap();
        log.add_entry_for_user(alice, id);
        if i % 2 == 0 {
            log.add_entry_for_user(carol, id);
        }
    }
    assert_eq!(timestamps(&forward(&log, alice)), vec![100, 101, 102, 103]);
    assert_eq!(timestamps(&backward(&log, alice)), vec![103, 102, 101, 100]);
    assert_eq!(timestamps(&forward(&log, carol)), vec![100, 102]);
    assert_eq!(timestamps(&backward(&log, carol)), vec![102, 100]);
    assert!(forward(&log, UserId(99)).is_empty());
    assert!(backward(&log, UserId(99)).is_empty());
}

#[test]
fn walks_can_be_started_again() {
    let mut log = NetworkHistoryLog::new();
    let alice = UserId(1);
    let id = log.add(NetworkStateChange::ChannelJoin, event(1), 7).unwrap();
    log.add_entry_for_user(alice, id);
    assert_eq!(forward(&log, alice).len(), 1);
    assert_eq!(forward(&log, alice).len(), 1);
    let mut walk = log.entries_for_user(alice);
    assert!(walk.next().is_some());
    assert!(walk.next().is_none());
    assert!(walk.next().is_none());
}

#[test]
fn walks_pass_over_holes() {
    let mut log = NetworkHistoryLog::new();
    let alice = UserId(1);
    log.add(NetworkStateChange::UserQuit, event(1), 100);
    log.add(NetworkStateChange::UserQuit, event(2), 200);
    log.add(NetworkStateChange::UserQuit, event(3), 300);
    log.add(NetworkStateChange::UserQuit, event(4), 400);
    // The index is [2, 0, 3]: entry 0 is about to be expired while 2 and 3 stay.
    log.add_entry_for_user(alice, 2);
    log.add_entry_for_user(alice, 0);
    log.add_entry_for_user(alice, 3);
    log.expire_entries(150);
    assert_eq!(log.get(0), None);
    assert_eq!(timestamps(&forward(&log, alice)), vec![300, 400]);
    assert_eq!(timestamps(&backward(&log, alice)), vec![400, 300]);
}

#[test]
fn walks_pass_over_ids_that_were_never_made() {
    let mut log = NetworkHistoryLog::new();
    let alice = UserId(1);
    log.add(NetworkStateChange::UserQuit, event(1), 100);
    log.add_entry_for_user(alice, 17);
    log.add_entry_for_user(alice, 0);
    assert_eq!(timestamps(&forward(&log, alice)), vec![100]);
    assert_eq!(timestamps(&backward(&log, alice)), vec![100]);
}

#[test]
fn end_to_end_expiry() {
    let mut log = NetworkHistoryLog::new();
    let user = UserId(42);
    let peer = TargetId::User(UserId(43));
    for (i, ts) in [100i64, 200, 300].iter().enumerate() {
        let id = log.add(message(i as u64, user, peer), event(i as u64), *ts).unwrap();
        log.add_entry_for_user(user, id);
    }
    assert_eq!(timestamps(&forward(&log, user)), vec![100, 200, 300]);
    log.expire_entries(250);
    assert_eq!(timestamps(&forward(&log, user)), vec![300]);
    assert_eq!(timestamps(&backward(&log, user)), vec![300]);
    assert_eq!(log.get(0), None);
    assert_eq!(log.get(1), None);
}

#[test]
fn index_grows_after_expiry() {
    let mut log = NetworkHistoryLog::new();
    let user = UserId(42);
    for ts in [100i64, 200, 300] {
        let id = log.add(NetworkStateChange::ChannelPart, event(ts as u64), ts).unwrap();
        log.add_entry_for_user(user, id);
    }
    log.expire_entries(1000);
    assert!(forward(&log, user).is_empty());
    assert!(backward(&log, user).is_empty());
    let id = log.add(NetworkStateChange::ChannelPart, event(9), 2000).unwrap();
    log.add_entry_for_user(user, id);
    assert_eq!(timestamps(&forward(&log, user)), vec![2000]);
    assert_eq!(timestamps(&backward(&log, user)), vec![2000]);
}
