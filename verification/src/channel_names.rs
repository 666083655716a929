//! The list of a channel's members as it is sent to a client: names packed
//! into lines of bounded length.

use vstd::prelude::*;
use vstd::string::StringExecFns;
use vstd::string::StringSliceAdditionalSpecFns;
use vstd::utf8::encode_utf8;

verus! {

broadcast use vstd::string::group_string_axioms;

/// The room that a line has for names, in bytes.
pub const CONTENT_LEN: usize = 300;

/// A member of a channel, as the list shows it.
#[derive(Debug, PartialEq, Eq)]
pub struct NamesMember {
    /// Whether the policy lets the reader see this member on the channel.
    pub visible: bool,
    /// Every prefix that the member's permissions give.
    pub prefixes: String,
    /// The highest of those prefixes; empty where there is none.
    pub highest_prefix: String,
    pub nick: String,
    pub user: String,
    pub host: String,
}

/// The list of a channel's members.
#[derive(Debug, PartialEq, Eq)]
pub struct ChannelNames {
    /// `@` for a secret channel, `=` for any other.
    pub symbol: char,
    /// The names, line by line.
    pub lines: Vec<String>,
}

/// How many bytes `text` takes, as the length of a string reports it.
pub open spec fn byte_len(text: Seq<char>) -> usize {
    encode_utf8(text).len() as usize
}

/// The name that stands for `member`: the nickname, or nickname, user name
/// and host where the reader asked for those.
pub open spec fn shown_name(member: NamesMember, with_userhost: bool) -> Seq<char> {
    if with_userhost {
        member.nick@ + "!"@ + member.user@ + "@"@ + member.host@
    } else {
        member.nick@
    }
}

/// The prefixes that stand before the name of `member`: all of them where
/// the reader asked for that, else the highest.
pub open spec fn shown_prefix(member: NamesMember, with_multiprefix: bool) -> Seq<char> {
    if with_multiprefix {
        member.prefixes@
    } else {
        member.highest_prefix@
    }
}

/// Lines that are full, and the line that is being filled.
pub struct Packing {
    pub lines: Seq<Seq<char>>,
    pub current: Seq<char>,
}

/// The lines after `members` have been packed. A reader who is not on the
/// channel is shown the visible members only. Each name is followed by a
/// space. A name starts a new line where the line so far, the name and two
/// bytes more would not fit in `CONTENT_LEN`.
pub open spec fn packed(
    members: Seq<NamesMember>,
    user_is_on_chan: bool,
    with_userhost: bool,
    with_multiprefix: bool,
) -> Packing
    decreases members.len(),
{
    if members.len() == 0 {
        Packing { lines: Seq::empty(), current: Seq::empty() }
    } else {
        let before = packed(members.drop_last(), user_is_on_chan, with_userhost, with_multiprefix);
        let member = members.last();
        if !user_is_on_chan && !member.visible {
            before
        } else {
            let name = shown_name(member, with_userhost);
            let entry = shown_prefix(member, with_multiprefix) + name + " "@;
            if byte_len(before.current) + byte_len(name) + 2 > CONTENT_LEN {
                Packing { lines: before.lines.push(before.current), current: entry }
            } else {
                Packing { lines: before.lines, current: before.current + entry }
            }
        }
    }
}

/// `text` without its last character, if it has one.
pub open spec fn without_last(text: Seq<char>) -> Seq<char> {
    if text.len() > 0 {
        text.drop_last()
    } else {
        text
    }
}

/// The lines of the list: the full lines, then the last line without the
/// space at its end. A list with no names is one empty line.
pub open spec fn names_lines(
    members: Seq<NamesMember>,
    user_is_on_chan: bool,
    with_userhost: bool,
    with_multiprefix: bool,
) -> Seq<Seq<char>> {
    let end = packed(members, user_is_on_chan, with_userhost, with_multiprefix);
    end.lines.push(without_last(end.current))
}

/// The texts of a row of lines.
pub open spec fn texts(lines: Seq<String>) -> Seq<Seq<char>> {
    Seq::new(lines.len(), |i: int| lines[i]@)
}

/// `String::pop`. Trusted: the last character is removed, if there is one.
#[verifier::external_body]
fn drop_last_char(text: &mut String)
    ensures
        final(text)@ == without_last(old(text)@),
{
    text.pop();
}

/// Computes [`shown_name`].
fn name_of(member: &NamesMember, with_userhost: bool) -> (name: String)
    ensures
        name@ == shown_name(*member, with_userhost),
{
    let mut name = String::from_str(member.nick.as_str());
    if with_userhost {
        name.append("!");
        name.append(member.user.as_str());
        name.append("@");
        name.append(member.host.as_str());
    }
    name
}

/// Whether `used` bytes of a line, a name of `name` bytes and two bytes more
/// go beyond `CONTENT_LEN`.
fn overflows(used: usize, name: usize) -> (over: bool)
    ensures
        over == (used + name + 2 > CONTENT_LEN),
{
    name > CONTENT_LEN - 2 || used > CONTENT_LEN - 2 - name
}

/// The list of the members of a channel for one reader.
pub fn channel_names(
    members: &Vec<NamesMember>,
    secret: bool,
    user_is_on_chan: bool,
    with_userhost: bool,
    with_multiprefix: bool,
) -> (list: ChannelNames)
    ensures
        list.symbol == if secret {
            '@'
        } else {
            '='
        },
        texts(list.lines@) == names_lines(
            members@,
            user_is_on_chan,
            with_userhost,
            with_multiprefix,
        ),
{
    let mut lines: Vec<String> = Vec::new();
    let mut current_line = String::new();
    let mut i: usize = 0;
    assert(members@.take(0) =~= Seq::<NamesMember>::empty());
    assert(texts(lines@) =~= Seq::<Seq<char>>::empty());
    while i < members.len()
        invariant
            i <= members.len(),
            (Packing { lines: texts(lines@), current: current_line@ }) == packed(
                members@.take(i as int),
                user_is_on_chan,
                with_userhost,
                with_multiprefix,
            ),
        decreases members.len() - i,
    {
        let member = &members[i];
        proof {
            assert(members@.take(i + 1).drop_last() =~= members@.take(i as int));
            assert(members@.take(i + 1).last() == *member);
        }
        if user_is_on_chan || member.visible {
            let name = name_of(member, with_userhost);
            if overflows(current_line.as_str().len(), name.as_str().len()) {
                let ghost before = texts(lines@);
                lines.push(current_line);
                current_line = String::new();
                assert(texts(lines@) =~= before.push(lines@.last()@));
            }
            if with_multiprefix {
                current_line.append(member.prefixes.as_str());
            } else {
                current_line.append(member.highest_prefix.as_str());
            }
            current_line.append(name.as_str());
            current_line.append(" ");
            proof {
                let entry = shown_prefix(*member, with_multiprefix) + shown_name(
                    *member,
                    with_userhost,
                ) + " "@;
                let start = packed(
                    members@.take(i as int),
                    user_is_on_chan,
                    with_userhost,
                    with_multiprefix,
                );
                assert(Seq::<char>::empty() + shown_prefix(*member, with_multiprefix)
                    + shown_name(*member, with_userhost) + " "@ =~= entry);
                assert(start.current + shown_prefix(*member, with_multiprefix) + shown_name(
                    *member,
                    with_userhost,
                ) + " "@ =~= start.current + entry);
            }
        }
        i += 1;
    }
    assert(members@.take(members@.len() as int) =~= members@);
    drop_last_char(&mut current_line);
    let ghost before = texts(lines@);
    lines.push(current_line);
    assert(texts(lines@) =~= before.push(lines@.last()@));
    ChannelNames { symbol: if secret { '@' } else { '=' }, lines }
}

} // verus!
