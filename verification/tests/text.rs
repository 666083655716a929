use sable_history::append_log::id_is_below;
use sable_history::entry::HistoryLogEntry;
use sable_history::ids::{ChannelId, EventId, MessageId, TargetId, UserId};
use sable_history::log::NetworkHistoryLog;
use sable_history::query::{entry_selected, TimeBound, TimeWindow};
use sable_history::state_change::{NetworkStateChange, NewMessage};
use sable_history::text::{
    chars_of, find_char, parse_magnitude, parse_signed, parse_unsigned, range_is, spells, to_upper,
};

fn chars(s: &str) -> Vec<char> {
    s.chars().collect()
}

#[test]
fn characters_of_a_string() {
    assert_eq!(chars_of(""), Vec::<char>::new());
    assert_eq!(chars_of("a=b"), vec!['a', '=', 'b']);
    assert_eq!(chars_of("né"), vec!['n', 'é']);
}

#[test]
fn first_place_of_a_character() {
    assert_eq!(find_char(&chars("timestamp=1=2"), '='), Some(9));
    assert_eq!(find_char(&chars("=x"), '='), Some(0));
    assert_eq!(find_char(&chars("bogus"), '='), None);
    assert_eq!(find_char(&chars(""), '='), None);
}

#[test]
fn words_in_a_range() {
    let text = chars("msgid=abc");
    assert!(range_is(&text, 0, 5, "msgid"));
    assert!(!range_is(&text, 0, 5, "msgiD"));
    assert!(!range_is(&text, 0, 4, "msgid"));
    assert!(range_is(&text, 6, 9, "abc"));
    assert!(range_is(&text, 3, 3, ""));
    assert!(spells(&chars("*"), "*"));
    assert!(!spells(&chars("**"), "*"));
    assert!(!spells(&chars(""), "*"));
}

#[test]
fn capitals() {
    assert_eq!(to_upper(&chars("Latest")), chars("LATEST"));
    assert_eq!(to_upper(&chars("az{`@[")), chars("AZ{`@["));
    assert_eq!(to_upper(&chars("béta9")), chars("BéTA9"));
}

#[test]
fn magnitudes() {
    assert_eq!(parse_magnitude(&chars("x120"), 1, 200), Some(120));
    assert_eq!(parse_magnitude(&chars("200"), 0, 200), Some(200));
    assert_eq!(parse_magnitude(&chars("201"), 0, 200), None);
    assert_eq!(parse_magnitude(&chars("0000"), 0, 0), Some(0));
    assert_eq!(parse_magnitude(&chars("0001"), 0, 0), None);
    assert_eq!(parse_magnitude(&chars("12a"), 0, 200), None);
    assert_eq!(parse_magnitude(&chars("12"), 2, 200), None);
    assert_eq!(parse_magnitude(&chars("18446744073709551615"), 0, u64::MAX), Some(u64::MAX));
    assert_eq!(parse_magnitude(&chars("18446744073709551616"), 0, u64::MAX), None);
    assert_eq!(parse_magnitude(&chars("٣"), 0, 200), None);
}

#[test]
fn signed_and_unsigned_numbers() {
    assert_eq!(parse_unsigned(&chars("n=+42"), 2), Some(42));
    assert_eq!(parse_unsigned(&chars("-42"), 0), None);
    assert_eq!(parse_unsigned(&chars("++42"), 0), None);
    assert_eq!(parse_unsigned(&chars("+"), 0), None);
    assert_eq!(parse_signed(&chars("-42"), 0), Some(-42));
    assert_eq!(parse_signed(&chars("-0"), 0), Some(0));
    assert_eq!(parse_signed(&chars("+-1"), 0), None);
    assert_eq!(parse_signed(&chars("-9223372036854775809"), 0), None);
    assert_eq!(parse_signed(&chars("t=-9223372036854775808"), 2), Some(i64::MIN));
}

#[test]
fn entries_know_their_age_and_place() {
    let mut entry = HistoryLogEntry {
        id: 0,
        timestamp: 50,
        source_event: EventId { server: 0, epoch: 0, id: 0 },
        details: NetworkStateChange::ChannelJoin,
    };
    assert!(entry.is_older_than(51));
    assert!(!entry.is_older_than(50));
    entry.assign_position(40, 2);
    assert_eq!(entry.id, 42);
    assert_eq!(entry.timestamp, 50);
    assert!(id_is_below(&3, 4));
    assert!(!id_is_below(&4, 4));
}

#[test]
fn selection_of_an_entry() {
    let me = UserId(1);
    let chan = TargetId::Channel(ChannelId(3));
    let window = TimeWindow { lower: TimeBound::Inclusive(10), upper: TimeBound::Exclusive(20) };
    let said = |target, timestamp| HistoryLogEntry {
        id: 0,
        timestamp,
        source_event: EventId { server: 0, epoch: 0, id: 0 },
        details: NetworkStateChange::NewMessage(NewMessage {
            message: MessageId(1),
            source: UserId(2),
            target,
        }),
    };
    assert!(entry_selected(&said(chan, 10), me, chan, &window));
    assert!(!entry_selected(&said(chan, 20), me, chan, &window));
    assert!(!entry_selected(&said(TargetId::Channel(ChannelId(4)), 10), me, chan, &window));
    assert!(entry_selected(&said(TargetId::User(me), 15), me, TargetId::User(UserId(2)), &window));
    assert!(!entry_selected(&said(TargetId::User(me), 15), me, TargetId::User(me), &window));
    let mut joined = said(chan, 15);
    joined.details = NetworkStateChange::ChannelJoin;
    assert!(!entry_selected(&joined, me, chan, &window));
    assert_eq!(joined.details.conversation_for(me), None);
}

#[test]
fn index_positions() {
    let mut log = NetworkHistoryLog::new();
    assert_eq!(log.index_end(UserId(1)), 0);
    log.add_entry_for_user(UserId(1), 0);
    log.add_entry_for_user(UserId(1), 1);
    assert_eq!(log.index_end(UserId(1)), 2);
    assert_eq!(log.index_end(UserId(2)), 0);
}
