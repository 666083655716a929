use sable_history::channel_names::{channel_names, ChannelNames, NamesMember, CONTENT_LEN};

fn member(prefixes: &str, nick: &str, visible: bool) -> NamesMember {
    NamesMember {
        visible,
        prefixes: prefixes.to_string(),
        highest_prefix: prefixes.chars().take(1).collect(),
        nick: nick.to_string(),
        user: format!("u{nick}"),
        host: "example.org".to_string(),
    }
}

fn lines(list: &ChannelNames) -> Vec<&str> {
    list.lines.iter().map(|l| l.as_str()).collect()
}

#[test]
fn names_of_an_empty_channel() {
    let list = channel_names(&vec![], false, true, false, false);
    assert_eq!(list.symbol, '=');
    assert_eq!(lines(&list), vec![""]);
}

#[test]
fn names_on_one_line() {
    let members = vec![member("@+", "alice", true), member("", "bob", true), member("+", "carol", true)];
    let list = channel_names(&members, true, true, false, false);
    assert_eq!(list.symbol, '@');
    assert_eq!(lines(&list), vec!["@alice bob +carol"]);
    let list = channel_names(&members, false, true, false, true);
    assert_eq!(lines(&list), vec!["@+alice bob +carol"]);
    let list = channel_names(&members, false, true, true, false);
    assert_eq!(
        lines(&list),
        vec!["@alice!ualice@example.org bob!ubob@example.org +carol!ucarol@example.org"]
    );
}

#[test]
fn names_hidden_from_an_outsider() {
    let members = vec![member("@", "alice", true), member("", "bob", false), member("+", "carol", true)];
    assert_eq!(lines(&channel_names(&members, false, false, false, false)), vec!["@alice +carol"]);
    assert_eq!(
        lines(&channel_names(&members, false, true, false, false)),
        vec!["@alice bob +carol"]
    );
    let hidden = vec![member("", "bob", false)];
    assert_eq!(lines(&channel_names(&hidden, false, false, false, false)), vec![""]);
}

#[test]
fn names_break_into_lines() {
    // Each name is nine bytes and takes ten with its space.
    let members: Vec<NamesMember> =
        (0..40).map(|i| member("", &format!("nick{:05}", i), true)).collect();
    let list = channel_names(&members, false, true, false, false);
    assert_eq!(list.lines.len(), 2);
    // A name is added while the line, the name and two bytes more fit in 300: 29 names make
    // 290 bytes, and a thirtieth would make 290 + 9 + 2 = 301.
    assert_eq!(list.lines[0].len(), 290);
    assert!(list.lines[0].ends_with("nick00028 "));
    assert_eq!(list.lines[1].len(), 11 * 10 - 1);
    assert!(list.lines[1].starts_with("nick00029 "));
    assert!(list.lines[1].ends_with("nick00039"));
    assert!(list.lines.iter().all(|l| l.len() <= CONTENT_LEN));
}

#[test]
fn a_name_that_fits_exactly_stays_on_the_line() {
    // 289 bytes on the line, then a name of nine: 289 + 9 + 2 = 300 is not over.
    let mut members = vec![member("", &"a".repeat(288), true)];
    members.push(member("", "nick00001", true));
    members.push(member("", "x", true));
    let list = channel_names(&members, false, true, false, false);
    assert_eq!(list.lines.len(), 2);
    assert_eq!(list.lines[0].len(), 299);
    assert_eq!(list.lines[1], "x");
}

#[test]
fn prefixes_do_not_count_towards_the_break() {
    let members = vec![member("", &"a".repeat(280), true), member("@%+", &"b".repeat(17), true)];
    let list = channel_names(&members, false, true, false, true);
    assert_eq!(list.lines.len(), 1);
    assert_eq!(list.lines[0].len(), 281 + 3 + 17);
}

#[test]
fn a_name_longer_than_a_line_gets_its_own() {
    let members =
        vec![member("", "alice", true), member("", &"z".repeat(400), true), member("", "bob", true)];
    let list = channel_names(&members, false, true, false, false);
    assert_eq!(list.lines.len(), 3);
    assert_eq!(list.lines[0], "alice ");
    assert_eq!(list.lines[1].len(), 401);
    assert_eq!(list.lines[2], "bob");
}

#[test]
fn lengths_are_counted_in_bytes() {
    // 'é' takes two bytes: 140 of them and a space make 281 bytes, though 141 characters, so
    // that a name of 18 bytes goes to the next line.
    let members = vec![member("", &"é".repeat(140), true), member("", &"b".repeat(18), true)];
    let list = channel_names(&members, false, true, false, false);
    assert_eq!(list.lines.len(), 2);
    assert_eq!(list.lines[0].len(), 281);
    assert_eq!(list.lines[1], "b".repeat(18));
}

#[test]
fn a_first_name_that_fills_a_line_leaves_an_empty_line_before_it() {
    let members = vec![member("", &"z".repeat(299), true)];
    let list = channel_names(&members, false, true, false, false);
    assert_eq!(list.lines.len(), 2);
    assert_eq!(list.lines[0], "");
    assert_eq!(list.lines[1].len(), 299);
}
