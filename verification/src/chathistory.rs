//! The history command of the client protocol: reading its arguments and
//! choosing the query that answers it.

use crate::entry::HistoryLogEntry;
use crate::ids::{TargetId, UserId};
use crate::log::HistoryView;
use crate::query::{
    answer, lemma_recent_targets, recent_targets, HistoryError, HistoryRequest, HistoryService,
    TimeWindow,
};
use crate::targets::{
    by_timestamp, distinct_targets, lemma_by_timestamp, lemma_by_timestamp_distinct, rising,
    sort_by_timestamp,
};
use crate::text::{
    ascii_upper, chars_of, debug_text, find_char, first_index_of, lemma_first_index_is,
    lemma_first_index_of,
    parse_signed, parse_unsigned, quote_debug, range_is, signed_decimal, spells, to_upper,
    unsigned_decimal,
};
use vstd::prelude::*;
use vstd::string::StringExecFns;

verus! {

broadcast use vstd::string::group_string_axioms;

/// A failure that is reported to the client.
#[derive(Debug, PartialEq, Eq)]
pub enum CommandError {
    Fail { command: &'static str, code: &'static str, context: String, description: String },
}

/// What a [`CommandError`] says, as plain text.
pub struct FailView {
    pub command: Seq<char>,
    pub code: Seq<char>,
    pub context: Seq<char>,
    pub description: Seq<char>,
}

impl View for CommandError {
    type V = FailView;

    open spec fn view(&self) -> FailView {
        match self {
            CommandError::Fail { command, code, context, description } => FailView {
                command: command@,
                code: code@,
                context: context@,
                description: description@,
            },
        }
    }
}

/// The failure of the history command with the given code, context and
/// description.
pub open spec fn history_fail(code: Seq<char>, context: Seq<char>, description: Seq<char>) -> FailView {
    FailView { command: "CHATHISTORY"@, code, context, description }
}

/// The two parts of `s` around its first `at`, if it holds one.
pub open spec fn split_once(s: Seq<char>, at: char) -> Option<(Seq<char>, Seq<char>)> {
    match first_index_of(s, at) {
        Some(i) => Some((s.take(i), s.skip(i + 1))),
        None => None,
    }
}

/// The context of a failure: the subcommand, and the target where there is one.
pub open spec fn fail_context(subcommand: Seq<char>, target: Option<Seq<char>>) -> Seq<char> {
    match target {
        Some(target) => subcommand + " "@ + target,
        None => subcommand,
    }
}

/// The timestamp written in `text`: a decimal count of seconds, with a sign
/// or without.
pub open spec fn timestamp_of(text: Seq<char>) -> Option<i64> {
    match signed_decimal(text) {
        Some(seconds) => Some(seconds as i64),
        None => None,
    }
}

/// What a message reference means. `timestamp=` followed by a timestamp
/// gives that timestamp; `timestamp=` followed by anything else is an
/// invalid parameter; `msgid=` followed by anything is refused as a kind of
/// reference that is not supported; everything else is refused as no
/// reference at all, and the failure quotes it.
pub open spec fn msgref_outcome(
    subcommand: Seq<char>,
    target: Option<Seq<char>>,
    msgref: Seq<char>,
) -> Result<i64, FailView> {
    match split_once(msgref, '=') {
        Some((kind, value)) if kind == "timestamp"@ => match timestamp_of(value) {
            Some(timestamp) => Ok(timestamp),
            None => Err(history_fail("INVALID_PARAMS"@, subcommand, "Invalid timestamp"@)),
        },
        Some((kind, _)) if kind == "msgid"@ => Err(
            history_fail(
                "INVALID_MSGREFTYPE"@,
                fail_context(subcommand, target),
                "msgid-based history requests are not supported yet"@,
            ),
        ),
        _ => Err(
            history_fail(
                "INVALID_MSGREFTYPE"@,
                fail_context(subcommand, target),
                debug_text(msgref) + " is not a valid message reference"@,
            ),
        ),
    }
}

/// A reference by message id is refused as a kind that is not supported,
/// whatever the id.
pub proof fn lemma_msgid_is_refused(
    subcommand: Seq<char>,
    target: Option<Seq<char>>,
    id: Seq<char>,
)
    ensures
        msgref_outcome(subcommand, target, "msgid="@ + id) == Err::<i64, FailView>(
            history_fail(
                "INVALID_MSGREFTYPE"@,
                fail_context(subcommand, target),
                "msgid-based history requests are not supported yet"@,
            ),
        ),
{
    reveal_strlit("msgid=");
    reveal_strlit("msgid");
    reveal_strlit("timestamp");
    let msgref = "msgid="@ + id;
    lemma_first_index_is(msgref, '=', 5);
    assert(msgref.take(5) =~= "msgid"@);
}

/// A reference by timestamp gives the timestamp where one is written, and
/// is an invalid parameter where none is.
pub proof fn lemma_timestamp_reference(
    subcommand: Seq<char>,
    target: Option<Seq<char>>,
    text: Seq<char>,
)
    ensures
        msgref_outcome(subcommand, target, "timestamp="@ + text) == match timestamp_of(text) {
            Some(timestamp) => Ok::<i64, FailView>(timestamp),
            None => Err::<i64, FailView>(
                history_fail("INVALID_PARAMS"@, subcommand, "Invalid timestamp"@),
            ),
        },
{
    reveal_strlit("timestamp=");
    reveal_strlit("timestamp");
    let msgref = "timestamp="@ + text;
    lemma_first_index_is(msgref, '=', 9);
    assert(msgref.take(9) =~= "timestamp"@);
    assert(msgref.skip(10) =~= text);
}

/// What is neither written as a timestamp nor as a message id is refused as
/// no reference, and the failure quotes it.
pub proof fn lemma_other_reference_is_refused(
    subcommand: Seq<char>,
    target: Option<Seq<char>>,
    msgref: Seq<char>,
)
    requires
        match split_once(msgref, '=') {
            Some((kind, _)) => kind != "timestamp"@ && kind != "msgid"@,
            None => true,
        },
    ensures
        msgref_outcome(subcommand, target, msgref) == Err::<i64, FailView>(
            history_fail(
                "INVALID_MSGREFTYPE"@,
                fail_context(subcommand, target),
                debug_text(msgref) + " is not a valid message reference"@,
            ),
        ),
{
}

/// What a limit means: a decimal number above zero, or an invalid parameter.
pub open spec fn limit_outcome(s: Seq<char>) -> Result<usize, FailView> {
    match unsigned_decimal(s) {
        Some(limit) if limit > 0 => Ok(limit as usize),
        _ => Err(history_fail("INVALID_PARAMS"@, ""@, "Invalid limit"@)),
    }
}

/// The text of an optional argument.
pub open spec fn text_of(arg: Option<&str>) -> Option<Seq<char>> {
    match arg {
        Some(s) => Some(s@),
        None => None,
    }
}

/// Whether `parsed` is what `outcome` says.
pub open spec fn agrees<T>(parsed: Result<T, CommandError>, outcome: Result<T, FailView>) -> bool {
    match parsed {
        Ok(value) => outcome == Ok::<T, FailView>(value),
        Err(error) => outcome == Err::<T, FailView>(error@),
    }
}

/// Reads a timestamp.
pub fn parse_timestamp(text: &str) -> (timestamp: Option<i64>)
    ensures
        timestamp == timestamp_of(text@),
{
    let chars = chars_of(text);
    assert(chars@.skip(0) =~= chars@);
    parse_signed(&chars, 0)
}

/// Computes [`fail_context`].
fn context_for(subcommand: &str, target: Option<&str>) -> (context: String)
    ensures
        context@ == fail_context(subcommand@, text_of(target)),
{
    let mut context = String::from_str(subcommand);
    match target {
        Some(target) => {
            context.append(" ");
            context.append(target);
        },
        None => {},
    }
    context
}

/// Reads a message reference of the history command.
pub fn parse_msgref(subcommand: &str, target: Option<&str>, msgref: &str) -> (parsed: Result<
    i64,
    CommandError,
>)
    ensures
        agrees(parsed, msgref_outcome(subcommand@, text_of(target), msgref@)),
{
    let chars = chars_of(msgref);
    let split = find_char(&chars, '=');
    proof {
        lemma_first_index_of(chars@, '=');
    }
    match split {
        Some(i) => {
            assert(chars@.take(i as int) =~= chars@.subrange(0, i as int));
            if range_is(&chars, 0, i, "timestamp") {
                match parse_signed(&chars, i + 1) {
                    Some(timestamp) => { return Ok(timestamp); },
                    None => {
                        return Err(
                            CommandError::Fail {
                                command: "CHATHISTORY",
                                code: "INVALID_PARAMS",
                                context: String::from_str(subcommand),
                                description: String::from_str("Invalid timestamp"),
                            },
                        );
                    },
                }
            }
            if range_is(&chars, 0, i, "msgid") {
                return Err(
                    CommandError::Fail {
                        command: "CHATHISTORY",
                        code: "INVALID_MSGREFTYPE",
                        context: context_for(subcommand, target),
                        description: String::from_str(
                            "msgid-based history requests are not supported yet",
                        ),
                    },
                );
            }
        },
        None => {},
    }
    let mut description = quote_debug(msgref);
    description.append(" is not a valid message reference");
    Err(
        CommandError::Fail {
            command: "CHATHISTORY",
            code: "INVALID_MSGREFTYPE",
            context: context_for(subcommand, target),
            description,
        },
    )
}

/// Reads the limit of a history command.
pub fn parse_limit(s: &str) -> (parsed: Result<usize, CommandError>)
    ensures
        agrees(parsed, limit_outcome(s@)),
        parsed matches Ok(limit) ==> limit > 0,
{
    let chars = chars_of(s);
    assert(chars@.skip(0) =~= chars@);
    match parse_unsigned(&chars, 0) {
        Some(limit) if limit > 0 => Ok(limit),
        _ => Err(
            CommandError::Fail {
                command: "CHATHISTORY",
                code: "INVALID_PARAMS",
                context: String::from_str(""),
                description: String::from_str("Invalid limit"),
            },
        ),
    }
}

/// What a history command asks for.
#[derive(Clone, Copy, Debug, PartialEq, Eq, Structural)]
pub enum ChatHistoryCommand {
    /// The conversations between two timestamps, given in either order.
    Targets { from_ts: i64, to_ts: i64, limit: usize },
    /// Entries of the conversation with `target`.
    Entries { target: TargetId, request: HistoryRequest },
    /// The subcommand is none that the command knows.
    InvalidSubcommand,
}

/// The answer to a history command.
#[derive(Debug, PartialEq, Eq)]
pub enum ChatHistoryReply {
    /// Conversations with the timestamps of their newest entries, in rising
    /// order of timestamp.
    Targets(Vec<(TargetId, i64)>),
    /// Entries of one conversation, oldest first.
    Entries(Vec<HistoryLogEntry>),
    /// A failure to report, after which the command is done.
    Failed(CommandError),
}

/// The failure for a target that cannot be queried.
pub open spec fn invalid_target(subcommand: Seq<char>, target: Seq<char>) -> FailView {
    history_fail(
        "INVALID_TARGET"@,
        subcommand + " "@ + target,
        "Cannot fetch history from "@ + target,
    )
}

/// The failure for a subcommand that the command does not know.
pub open spec fn invalid_subcommand(subcommand: Seq<char>) -> FailView {
    history_fail("INVALID_PARAMS"@, subcommand, "Invalid subcommand"@)
}

/// Both results, or the first failure among them.
pub open spec fn both<A, B>(first: Result<A, FailView>, second: Result<B, FailView>) -> Result<
    (A, B),
    FailView,
> {
    match first {
        Err(fail) => Err(fail),
        Ok(a) => match second {
            Err(fail) => Err(fail),
            Ok(b) => Ok((a, b)),
        },
    }
}

/// What the end of a `LATEST` request means: `*` for no end, else a message
/// reference.
pub open spec fn latest_end_outcome(subcommand: Seq<char>, target: Seq<char>, arg: Seq<char>) -> Result<
    Option<i64>,
    FailView,
> {
    if arg == "*"@ {
        Ok(None)
    } else {
        match msgref_outcome(subcommand, Some(target), arg) {
            Ok(timestamp) => Ok(Some(timestamp)),
            Err(fail) => Err(fail),
        }
    }
}

/// The request that the arguments after the target make, `None` where the
/// subcommand is not known. The subcommand is read without regard to case.
/// Arguments are read from left to right, and the first that is wrong gives
/// the failure.
pub open spec fn request_outcome(
    subcommand: Seq<char>,
    target: Seq<char>,
    arg_2: Seq<char>,
    arg_3: Seq<char>,
    arg_4: Option<Seq<char>>,
) -> Result<Option<HistoryRequest>, FailView> {
    let word = ascii_upper(subcommand);
    let reference = msgref_outcome(subcommand, Some(target), arg_2);
    if word == "LATEST"@ {
        match both(latest_end_outcome(subcommand, target, arg_2), limit_outcome(arg_3)) {
            Ok((to_ts, limit)) => Ok(Some(HistoryRequest::Latest { to_ts, limit })),
            Err(fail) => Err(fail),
        }
    } else if word == "BEFORE"@ {
        match both(reference, limit_outcome(arg_3)) {
            Ok((from_ts, limit)) => Ok(Some(HistoryRequest::Before { from_ts, limit })),
            Err(fail) => Err(fail),
        }
    } else if word == "AFTER"@ {
        match both(reference, limit_outcome(arg_3)) {
            Ok((start_ts, limit)) => Ok(Some(HistoryRequest::After { start_ts, limit })),
            Err(fail) => Err(fail),
        }
    } else if word == "AROUND"@ {
        match both(reference, limit_outcome(arg_3)) {
            Ok((around_ts, limit)) => Ok(Some(HistoryRequest::Around { around_ts, limit })),
            Err(fail) => Err(fail),
        }
    } else if word == "BETWEEN"@ {
        match both(
            both(reference, msgref_outcome(subcommand, Some(target), arg_3)),
            limit_outcome(
                match arg_4 {
                    Some(arg) => arg,
                    None => ""@,
                },
            ),
        ) {
            Ok(((start_ts, end_ts), limit)) => Ok(
                Some(HistoryRequest::Between { start_ts, end_ts, limit }),
            ),
            Err(fail) => Err(fail),
        }
    } else {
        Ok(None)
    }
}

/// What the arguments of a history command ask for. `target_id` is what the
/// network resolved the first argument to, where it names a user or channel.
///
/// `TARGETS` takes two message references and a limit. Every other
/// subcommand takes a target first: where that does not resolve, the command
/// fails before anything else is read.
pub open spec fn command_outcome(
    subcommand: Seq<char>,
    arg_1: Seq<char>,
    arg_2: Seq<char>,
    arg_3: Seq<char>,
    arg_4: Option<Seq<char>>,
    target_id: Option<TargetId>,
) -> Result<ChatHistoryCommand, FailView> {
    if ascii_upper(subcommand) == "TARGETS"@ {
        match both(
            both(msgref_outcome(subcommand, None, arg_1), msgref_outcome(subcommand, None, arg_2)),
            limit_outcome(arg_3),
        ) {
            Ok(((from_ts, to_ts), limit)) => Ok(
                ChatHistoryCommand::Targets { from_ts, to_ts, limit },
            ),
            Err(fail) => Err(fail),
        }
    } else {
        match target_id {
            None => Err(invalid_target(subcommand, arg_1)),
            Some(target) => match request_outcome(subcommand, arg_1, arg_2, arg_3, arg_4) {
                Ok(Some(request)) => Ok(ChatHistoryCommand::Entries { target, request }),
                Ok(None) => Ok(ChatHistoryCommand::InvalidSubcommand),
                Err(fail) => Err(fail),
            },
        }
    }
}

/// The failure for a target that cannot be queried.
fn invalid_target_error(subcommand: &str, target: &str) -> (error: CommandError)
    ensures
        error@ == invalid_target(subcommand@, target@),
{
    let mut description = String::from_str("Cannot fetch history from ");
    description.append(target);
    CommandError::Fail {
        command: "CHATHISTORY",
        code: "INVALID_TARGET",
        context: context_for(subcommand, Some(target)),
        description,
    }
}

/// Reads the end of a `LATEST` request.
fn parse_latest_end(subcommand: &str, target: &str, arg: &str) -> (parsed: Result<
    Option<i64>,
    CommandError,
>)
    ensures
        agrees(parsed, latest_end_outcome(subcommand@, target@, arg@)),
{
    let chars = chars_of(arg);
    if spells(&chars, "*") {
        Ok(None)
    } else {
        match parse_msgref(subcommand, Some(target), arg) {
            Ok(timestamp) => Ok(Some(timestamp)),
            Err(error) => Err(error),
        }
    }
}

/// Reads the arguments that follow the target.
fn parse_request(subcommand: &str, target: &str, arg_2: &str, arg_3: &str, arg_4: Option<&str>) -> (parsed:
    Result<Option<HistoryRequest>, CommandError>)
    ensures
        agrees(parsed, request_outcome(subcommand@, target@, arg_2@, arg_3@, text_of(arg_4))),
{
    let word = to_upper(&chars_of(subcommand));
    if spells(&word, "LATEST") {
        let to_ts = match parse_latest_end(subcommand, target, arg_2) {
            Ok(to_ts) => to_ts,
            Err(error) => { return Err(error); },
        };
        let limit = match parse_limit(arg_3) {
            Ok(limit) => limit,
            Err(error) => { return Err(error); },
        };
        Ok(Some(HistoryRequest::Latest { to_ts, limit }))
    } else if spells(&word, "BEFORE") {
        let from_ts = match parse_msgref(subcommand, Some(target), arg_2) {
            Ok(timestamp) => timestamp,
            Err(error) => { return Err(error); },
        };
        let limit = match parse_limit(arg_3) {
            Ok(limit) => limit,
            Err(error) => { return Err(error); },
        };
        Ok(Some(HistoryRequest::Before { from_ts, limit }))
    } else if spells(&word, "AFTER") {
        let start_ts = match parse_msgref(subcommand, Some(target), arg_2) {
            Ok(timestamp) => timestamp,
            Err(error) => { return Err(error); },
        };
        let limit = match parse_limit(arg_3) {
            Ok(limit) => limit,
            Err(error) => { return Err(error); },
        };
        Ok(Some(HistoryRequest::After { start_ts, limit }))
    } else if spells(&word, "AROUND") {
        let around_ts = match parse_msgref(subcommand, Some(target), arg_2) {
            Ok(timestamp) => timestamp,
            Err(error) => { return Err(error); },
        };
        let limit = match parse_limit(arg_3) {
            Ok(limit) => limit,
            Err(error) => { return Err(error); },
        };
        Ok(Some(HistoryRequest::Around { around_ts, limit }))
    } else if spells(&word, "BETWEEN") {
        let start_ts = match parse_msgref(subcommand, Some(target), arg_2) {
            Ok(timestamp) => timestamp,
            Err(error) => { return Err(error); },
        };
        let end_ts = match parse_msgref(subcommand, Some(target), arg_3) {
            Ok(timestamp) => timestamp,
            Err(error) => { return Err(error); },
        };
        let limit_text = match arg_4 {
            Some(arg) => arg,
            None => "",
        };
        let limit = match parse_limit(limit_text) {
            Ok(limit) => limit,
            Err(error) => { return Err(error); },
        };
        Ok(Some(HistoryRequest::Between { start_ts, end_ts, limit }))
    } else {
        Ok(None)
    }
}

/// Reads the arguments of a history command.
pub fn parse_chathistory(
    subcommand: &str,
    arg_1: &str,
    arg_2: &str,
    arg_3: &str,
    arg_4: Option<&str>,
    target_id: Option<TargetId>,
) -> (parsed: Result<ChatHistoryCommand, CommandError>)
    ensures
        agrees(
            parsed,
            command_outcome(subcommand@, arg_1@, arg_2@, arg_3@, text_of(arg_4), target_id),
        ),
{
    let word = to_upper(&chars_of(subcommand));
    if spells(&word, "TARGETS") {
        let from_ts = match parse_msgref(subcommand, None, arg_1) {
            Ok(timestamp) => timestamp,
            Err(error) => { return Err(error); },
        };
        let to_ts = match parse_msgref(subcommand, None, arg_2) {
            Ok(timestamp) => timestamp,
            Err(error) => { return Err(error); },
        };
        let limit = match parse_limit(arg_3) {
            Ok(limit) => limit,
            Err(error) => { return Err(error); },
        };
        Ok(ChatHistoryCommand::Targets { from_ts, to_ts, limit })
    } else {
        let target = match target_id {
            Some(target) => target,
            None => { return Err(invalid_target_error(subcommand, arg_1)); },
        };
        match parse_request(subcommand, arg_1, arg_2, arg_3, arg_4) {
            Ok(Some(request)) => Ok(ChatHistoryCommand::Entries { target, request }),
            Ok(None) => Ok(ChatHistoryCommand::InvalidSubcommand),
            Err(error) => Err(error),
        }
    }
}

/// The failure that is reported when the history service gives `error` for
/// the conversation named `target`.
pub fn history_failure(subcommand: &str, target: &str, error: HistoryError) -> (failure:
    CommandError)
    ensures
        match error {
            HistoryError::InvalidTarget(_) => failure@ == invalid_target(subcommand@, target@),
            HistoryError::InternalError(text) => failure@ == history_fail(
                "MESSAGE_ERROR"@,
                subcommand@ + " "@ + target@,
                text@,
            ),
        },
{
    match error {
        HistoryError::InvalidTarget(_) => invalid_target_error(subcommand, target),
        HistoryError::InternalError(text) => CommandError::Fail {
            command: "CHATHISTORY",
            code: "MESSAGE_ERROR",
            context: context_for(subcommand, Some(target)),
            description: text,
        },
    }
}

/// The conversations that `source` has had between `from_ts` and `to_ts`,
/// as they are presented: in rising order of timestamp.
pub fn list_targets(
    service: &HistoryService<'_>,
    source: UserId,
    from_ts: Option<i64>,
    to_ts: Option<i64>,
    limit: Option<usize>,
) -> (targets: Vec<(TargetId, i64)>)
    requires
        service.log.wf(),
    ensures
        targets@ == by_timestamp(
            recent_targets(
                service.log@.visible(source),
                source,
                TimeWindow::within(from_ts, to_ts),
                limit,
            ),
        ),
{
    let found = service.list_targets(source, from_ts, to_ts, limit);
    sort_by_timestamp(&found)
}

/// The answer to `TARGETS` with the two timestamps as they were given: the
/// earlier one is the lower bound, the later one the upper.
pub open spec fn targets_answer(
    visible: Seq<HistoryLogEntry>,
    source: UserId,
    from_ts: i64,
    to_ts: i64,
    limit: usize,
) -> Seq<(TargetId, i64)> {
    let lower = if from_ts <= to_ts {
        from_ts
    } else {
        to_ts
    };
    let upper = if from_ts <= to_ts {
        to_ts
    } else {
        from_ts
    };
    by_timestamp(
        recent_targets(visible, source, TimeWindow::within(Some(lower), Some(upper)), Some(limit)),
    )
}

/// `TARGETS` gives the same answer whichever of its two timestamps comes
/// first.
pub proof fn lemma_targets_bounds_in_either_order(
    visible: Seq<HistoryLogEntry>,
    source: UserId,
    one: i64,
    other: i64,
    limit: usize,
)
    ensures
        targets_answer(visible, source, one, other, limit) == targets_answer(
            visible,
            source,
            other,
            one,
            limit,
        ),
{
}

/// What `TARGETS` presents: the conversations that the query found, each
/// once, no more of them than the limit, in rising order of timestamp.
pub proof fn lemma_targets_answer(
    visible: Seq<HistoryLogEntry>,
    source: UserId,
    from_ts: i64,
    to_ts: i64,
    limit: usize,
)
    ensures
        rising(targets_answer(visible, source, from_ts, to_ts, limit)),
        distinct_targets(targets_answer(visible, source, from_ts, to_ts, limit)),
        targets_answer(visible, source, from_ts, to_ts, limit).len() <= limit,
        targets_answer(visible, source, from_ts, to_ts, limit).to_multiset() == recent_targets(
            visible,
            source,
            TimeWindow::within(
                Some(if from_ts <= to_ts { from_ts } else { to_ts }),
                Some(if from_ts <= to_ts { to_ts } else { from_ts }),
            ),
            Some(limit),
        ).to_multiset(),
{
    let lower = if from_ts <= to_ts {
        from_ts
    } else {
        to_ts
    };
    let upper = if from_ts <= to_ts {
        to_ts
    } else {
        from_ts
    };
    let window = TimeWindow::within(Some(lower), Some(upper));
    let found = recent_targets(visible, source, window, Some(limit));
    lemma_recent_targets(visible, source, window, Some(limit));
    lemma_by_timestamp(found);
    lemma_by_timestamp_distinct(found);
}

/// Whether `result` is what the history command owes for `command`, asked
/// by `source` of a log that holds `history`.
///
/// A query for entries fails with `INVALID_TARGET` where the target is not
/// known. An unknown subcommand is answered with a failure to report, and is
/// no error of the command.
pub open spec fn answers(
    history: HistoryView,
    source: UserId,
    subcommand: Seq<char>,
    target: Seq<char>,
    target_known: bool,
    command: Result<ChatHistoryCommand, FailView>,
    result: Result<ChatHistoryReply, CommandError>,
) -> bool {
    match command {
        Err(fail) => result matches Err(error) && error@ == fail,
        Ok(ChatHistoryCommand::Targets { from_ts, to_ts, limit }) => result matches Ok(
            ChatHistoryReply::Targets(list),
        ) && list@ == targets_answer(history.visible(source), source, from_ts, to_ts, limit),
        Ok(ChatHistoryCommand::Entries { target: target_id, request }) => if target_known {
            result matches Ok(ChatHistoryReply::Entries(list)) && list@ == answer(
                history.visible(source),
                source,
                target_id,
                request,
            )
        } else {
            result matches Err(error) && error@ == invalid_target(subcommand, target)
        },
        Ok(ChatHistoryCommand::InvalidSubcommand) => result matches Ok(
            ChatHistoryReply::Failed(error),
        ) && error@ == invalid_subcommand(subcommand),
    }
}

/// Answers a history command of `source`. `target_id` is what the network
/// resolved `arg_1` to, where it names a user or channel, and `target_known`
/// says whether the network still knows that target.
pub fn handle_chathistory(
    service: &HistoryService<'_>,
    source: UserId,
    subcommand: &str,
    arg_1: &str,
    arg_2: &str,
    arg_3: &str,
    arg_4: Option<&str>,
    target_id: Option<TargetId>,
    target_known: bool,
) -> (result: Result<ChatHistoryReply, CommandError>)
    requires
        service.log.wf(),
    ensures
        answers(
            service.log@,
            source,
            subcommand@,
            arg_1@,
            target_known,
            command_outcome(subcommand@, arg_1@, arg_2@, arg_3@, text_of(arg_4), target_id),
            result,
        ),
{
    let command = match parse_chathistory(subcommand, arg_1, arg_2, arg_3, arg_4, target_id) {
        Ok(command) => command,
        Err(error) => { return Err(error); },
    };
    match command {
        ChatHistoryCommand::Targets { from_ts, to_ts, limit } => {
            // The bounds may come in either order; the query wants the earlier one first.
            let (lower, upper) = if from_ts <= to_ts {
                (from_ts, to_ts)
            } else {
                (to_ts, from_ts)
            };
            Ok(
                ChatHistoryReply::Targets(
                    list_targets(service, source, Some(lower), Some(upper), Some(limit)),
                ),
            )
        },
        ChatHistoryCommand::Entries { target, request } => {
            match service.get_entries(source, target, target_known, request) {
                Ok(entries) => Ok(ChatHistoryReply::Entries(entries)),
                Err(error) => Err(history_failure(subcommand, arg_1, error)),
            }
        },
        ChatHistoryCommand::InvalidSubcommand => Ok(
            ChatHistoryReply::Failed(
                CommandError::Fail {
                    command: "CHATHISTORY",
                    code: "INVALID_PARAMS",
                    context: String::from_str(subcommand),
                    description: String::from_str("Invalid subcommand"),
                },
            ),
        ),
    }
}

/// The name that a replayed message is shown as sent to. A message to a
/// channel, or one that the requester received, carries its target. One that
/// the requester sent in private carries none, and is shown under the
/// requester's own nickname: `requester_nick` is `None` where the requester
/// is no user, and an `Err` with the reason where the nickname could not be
/// looked up.
pub fn replay_target(target: Option<String>, requester_nick: Option<Result<String, String>>) -> (shown:
    Result<String, CommandError>)
    ensures
        match target {
            Some(target) => shown == Ok::<String, CommandError>(target),
            None => match requester_nick {
                Some(Ok(nick)) => shown == Ok::<String, CommandError>(nick),
                Some(Err(reason)) => shown matches Err(error) && error@ == history_fail(
                    "MESSAGE_ERROR"@,
                    ""@,
                    reason@,
                ),
                None => shown matches Err(error) && error@ == history_fail(
                    "MESSAGE_ERROR"@,
                    ""@,
                    "Could not format chathistory for non-user"@,
                ),
            },
        },
{
    match target {
        Some(target) => Ok(target),
        None => match requester_nick {
            Some(Ok(nick)) => Ok(nick),
            Some(Err(reason)) => Err(
                CommandError::Fail {
                    command: "CHATHISTORY",
                    code: "MESSAGE_ERROR",
                    context: String::from_str(""),
                    description: reason,
                },
            ),
            None => Err(
                CommandError::Fail {
                    command: "CHATHISTORY",
                    code: "MESSAGE_ERROR",
                    context: String::from_str(""),
                    description: String::from_str("Could not format chathistory for non-user"),
                },
            ),
        },
    }
}

} // verus!
