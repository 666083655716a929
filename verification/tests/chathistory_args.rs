use sable_history::chathistory::{parse_limit, parse_msgref, parse_timestamp, CommandError};

fn fail(code: &'static str, context: &str, description: &str) -> CommandError {
    CommandError::Fail {
        command: "CHATHISTORY",
        code,
        context: context.to_string(),
        description: description.to_string(),
    }
}

#[test]
fn msgref_timestamp_is_read() {
    assert_eq!(parse_msgref("LATEST", Some("#chan"), "timestamp=1700000000"), Ok(1700000000));
    assert_eq!(parse_msgref("TARGETS", None, "timestamp=+5"), Ok(5));
    assert_eq!(parse_msgref("TARGETS", None, "timestamp=-12"), Ok(-12));
    assert_eq!(parse_msgref("TARGETS", None, "timestamp=007"), Ok(7));
}

#[test]
fn msgref_timestamp_limits() {
    assert_eq!(
        parse_msgref("AFTER", None, "timestamp=9223372036854775807"),
        Ok(i64::MAX)
    );
    assert_eq!(
        parse_msgref("AFTER", None, "timestamp=-9223372036854775808"),
        Ok(i64::MIN)
    );
    assert_eq!(
        parse_msgref("AFTER", None, "timestamp=9223372036854775808"),
        Err(fail("INVALID_PARAMS", "AFTER", "Invalid timestamp"))
    );
    assert_eq!(
        parse_msgref("AFTER", None, "timestamp=99999999999999999999999999"),
        Err(fail("INVALID_PARAMS", "AFTER", "Invalid timestamp"))
    );
}

#[test]
fn msgref_bad_timestamp_is_invalid_params() {
    let expected = Err(fail("INVALID_PARAMS", "BEFORE", "Invalid timestamp"));
    assert_eq!(parse_msgref("BEFORE", Some("#chan"), "timestamp=not-a-number"), expected);
    assert_eq!(parse_msgref("BEFORE", Some("#chan"), "timestamp="), expected);
    assert_eq!(parse_msgref("BEFORE", Some("#chan"), "timestamp=-"), expected);
    assert_eq!(parse_msgref("BEFORE", Some("#chan"), "timestamp=12 "), expected);
    assert_eq!(parse_msgref("BEFORE", Some("#chan"), "timestamp=1=2"), expected);
}

#[test]
fn msgref_msgid_is_not_supported() {
    assert_eq!(
        parse_msgref("LATEST", Some("#chan"), "msgid=abc123"),
        Err(fail(
            "INVALID_MSGREFTYPE",
            "LATEST #chan",
            "msgid-based history requests are not supported yet"
        ))
    );
    assert_eq!(
        parse_msgref("TARGETS", None, "msgid="),
        Err(fail(
            "INVALID_MSGREFTYPE",
            "TARGETS",
            "msgid-based history requests are not supported yet"
        ))
    );
}

#[test]
fn msgref_other_forms_are_quoted() {
    assert_eq!(
        parse_msgref("AROUND", Some("nick"), "bogus"),
        Err(fail(
            "INVALID_MSGREFTYPE",
            "AROUND nick",
            "\"bogus\" is not a valid message reference"
        ))
    );
    assert_eq!(
        parse_msgref("AROUND", None, "time=5"),
        Err(fail("INVALID_MSGREFTYPE", "AROUND", "\"time=5\" is not a valid message reference"))
    );
    assert_eq!(
        parse_msgref("AROUND", None, "a\"b"),
        Err(fail("INVALID_MSGREFTYPE", "AROUND", "\"a\\\"b\" is not a valid message reference"))
    );
    assert_eq!(
        parse_msgref("AROUND", None, ""),
        Err(fail("INVALID_MSGREFTYPE", "AROUND", "\"\" is not a valid message reference"))
    );
}

#[test]
fn limit_is_a_positive_number() {
    assert_eq!(parse_limit("1"), Ok(1));
    assert_eq!(parse_limit("50"), Ok(50));
    assert_eq!(parse_limit("+7"), Ok(7));
    assert_eq!(parse_limit("18446744073709551615"), Ok(usize::MAX));
}

#[test]
fn limit_rejects_the_rest() {
    let expected = Err(fail("INVALID_PARAMS", "", "Invalid limit"));
    assert_eq!(parse_limit(""), expected);
    assert_eq!(parse_limit("0"), expected);
    assert_eq!(parse_limit("-1"), expected);
    assert_eq!(parse_limit("ten"), expected);
    assert_eq!(parse_limit("1_000"), expected);
    assert_eq!(parse_limit(" 5"), expected);
    assert_eq!(parse_limit("18446744073709551616"), expected);
}

#[test]
fn timestamp_text() {
    assert_eq!(parse_timestamp("0"), Some(0));
    assert_eq!(parse_timestamp("250"), Some(250));
    assert_eq!(parse_timestamp("2.5"), None);
    assert_eq!(parse_timestamp("+"), None);
}
