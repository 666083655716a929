//! Reading text: characters, fixed words and decimal numbers.

use vstd::prelude::*;

verus! {

broadcast use vstd::string::group_string_axioms;

/// Whether `c` is one of the ten decimal digits.
pub open spec fn is_digit(c: char) -> bool {
    '0' <= c <= '9'
}

/// The number that a decimal digit stands for.
pub open spec fn digit_value(c: char) -> nat
    recommends
        is_digit(c),
{
    (c as int - '0' as int) as nat
}

/// Whether `s` is made of decimal digits only.
pub open spec fn all_digits(s: Seq<char>) -> bool {
    forall|i: int| 0 <= i < s.len() ==> is_digit(#[trigger] s[i])
}

/// The number that a row of decimal digits stands for; 0 for the empty row.
pub open spec fn decimal_value(digits: Seq<char>) -> nat
    decreases digits.len(),
{
    if digits.len() == 0 {
        0
    } else {
        10 * decimal_value(digits.drop_last()) + digit_value(digits.last())
    }
}

/// The number written in `digits`, where it is a number up to `limit`: one
/// digit or more, and nothing else.
pub open spec fn magnitude(digits: Seq<char>, limit: nat) -> Option<nat> {
    if digits.len() > 0 && all_digits(digits) && decimal_value(digits) <= limit {
        Some(decimal_value(digits))
    } else {
        None
    }
}

/// The unsigned number written in `s`: digits, with `+` in front of them or
/// nothing, and a value that a `usize` holds.
pub open spec fn unsigned_decimal(s: Seq<char>) -> Option<nat> {
    if s.len() > 0 && s[0] == '+' {
        magnitude(s.skip(1), usize::MAX as nat)
    } else {
        magnitude(s, usize::MAX as nat)
    }
}

/// The signed number written in `s`: digits, with `+`, `-` or nothing in
/// front of them, and a value that an `i64` holds.
pub open spec fn signed_decimal(s: Seq<char>) -> Option<int> {
    if s.len() > 0 && s[0] == '-' {
        match magnitude(s.skip(1), 0x8000_0000_0000_0000) {
            Some(m) => Some(-(m as int)),
            None => None,
        }
    } else if s.len() > 0 && s[0] == '+' {
        match magnitude(s.skip(1), 0x7fff_ffff_ffff_ffff) {
            Some(m) => Some(m as int),
            None => None,
        }
    } else {
        match magnitude(s, 0x7fff_ffff_ffff_ffff) {
            Some(m) => Some(m as int),
            None => None,
        }
    }
}

/// Index of the first `wanted` in `s`, if there is one.
pub open spec fn first_index_of(s: Seq<char>, wanted: char) -> Option<int>
    decreases s.len(),
{
    if s.len() == 0 {
        None
    } else if s[0] == wanted {
        Some(0int)
    } else {
        match first_index_of(s.drop_first(), wanted) {
            Some(i) => Some(i + 1),
            None => None,
        }
    }
}

/// A row of digits is worth at least as much as any of its prefixes.
pub proof fn lemma_decimal_value_grows(digits: Seq<char>, k: int)
    requires
        0 <= k <= digits.len(),
    ensures
        decimal_value(digits.take(k)) <= decimal_value(digits),
    decreases digits.len() - k,
{
    if k == digits.len() {
        assert(digits.take(k) =~= digits);
    } else {
        lemma_decimal_value_grows(digits, k + 1);
        assert(digits.take(k + 1).drop_last() =~= digits.take(k));
    }
}

/// What `first_index_of` finds is the first place where `wanted` stands.
pub proof fn lemma_first_index_of(s: Seq<char>, wanted: char)
    ensures
        match first_index_of(s, wanted) {
            Some(i) => 0 <= i < s.len() && s[i] == wanted && forall|j: int|
                0 <= j < i ==> s[j] != wanted,
            None => forall|j: int| 0 <= j < s.len() ==> s[j] != wanted,
        },
    decreases s.len(),
{
    if s.len() > 0 && s[0] != wanted {
        let rest = s.drop_first();
        lemma_first_index_of(rest, wanted);
        match first_index_of(rest, wanted) {
            Some(i) => {
                assert forall|j: int| 0 <= j < i + 1 implies s[j] != wanted by {
                    if j > 0 {
                        assert(s[j] == rest[j - 1]);
                    }
                }
            },
            None => {
                assert forall|j: int| 0 <= j < s.len() implies s[j] != wanted by {
                    if j > 0 {
                        assert(s[j] == rest[j - 1]);
                    }
                }
            },
        }
    }
}

/// A place where `wanted` stands, with none before it, is what
/// `first_index_of` finds.
pub proof fn lemma_first_index_is(s: Seq<char>, wanted: char, i: int)
    requires
        0 <= i < s.len(),
        s[i] == wanted,
        forall|j: int| 0 <= j < i ==> s[j] != wanted,
    ensures
        first_index_of(s, wanted) == Some(i),
{
    lemma_first_index_of(s, wanted);
}

/// Where `wanted` stands nowhere, `first_index_of` finds nothing.
pub proof fn lemma_first_index_none(s: Seq<char>, wanted: char)
    requires
        forall|j: int| 0 <= j < s.len() ==> s[j] != wanted,
    ensures
        first_index_of(s, wanted) is None,
{
    lemma_first_index_of(s, wanted);
}

/// The characters of `s`.
pub fn chars_of(s: &str) -> (chars: Vec<char>)
    ensures
        chars@ == s@,
{
    let mut chars: Vec<char> = Vec::new();
    for c in it: s.chars()
        invariant
            it.seq() == s@,
            chars@ == s@.take(it.index() as int),
    {
        chars.push(c);
        assert(s@.take(it.index() + 1) =~= s@.take(it.index() as int).push(c));
    }
    assert(s@.take(s@.len() as int) =~= s@);
    chars
}

/// Finds the first `wanted` in `chars`.
pub fn find_char(chars: &Vec<char>, wanted: char) -> (found: Option<usize>)
    ensures
        match found {
            Some(i) => first_index_of(chars@, wanted) == Some(i as int),
            None => first_index_of(chars@, wanted) is None,
        },
{
    let mut i: usize = 0;
    while i < chars.len()
        invariant
            i <= chars.len(),
            forall|j: int| 0 <= j < i ==> chars@[j] != wanted,
        decreases chars.len() - i,
    {
        if chars[i] == wanted {
            proof {
                lemma_first_index_is(chars@, wanted, i as int);
            }
            return Some(i);
        }
        i += 1;
    }
    proof {
        lemma_first_index_none(chars@, wanted);
    }
    None
}

/// Whether the characters of `chars` from `from` up to `to` spell `word`.
pub fn range_is(chars: &Vec<char>, from: usize, to: usize, word: &str) -> (same: bool)
    requires
        from <= to <= chars.len(),
    ensures
        same == (chars@.subrange(from as int, to as int) == word@),
{
    let word_chars = chars_of(word);
    if word_chars.len() != to - from {
        assert(chars@.subrange(from as int, to as int).len() == to - from);
        return false;
    }
    let mut i: usize = 0;
    while i < word_chars.len()
        invariant
            from <= to <= chars.len(),
            word_chars.len() == to - from,
            word_chars@ == word@,
            i <= word_chars.len(),
            forall|j: int| 0 <= j < i ==> chars@[from + j] == word_chars@[j],
        decreases word_chars.len() - i,
    {
        if chars[from + i] != word_chars[i] {
            assert(chars@.subrange(from as int, to as int)[i as int] != word_chars@[i as int]);
            return false;
        }
        i += 1;
    }
    assert(chars@.subrange(from as int, to as int) =~= word_chars@);
    true
}

/// Reads the digits of `chars` from `from` to the end as a number up to
/// `limit`.
pub fn parse_magnitude(chars: &Vec<char>, from: usize, limit: u64) -> (value: Option<u64>)
    requires
        from <= chars.len(),
    ensures
        match value {
            Some(v) => magnitude(chars@.skip(from as int), limit as nat) == Some(v as nat),
            None => magnitude(chars@.skip(from as int), limit as nat) is None,
        },
{
    let ghost digits = chars@.skip(from as int);
    if from == chars.len() {
        return None;
    }
    let mut acc: u64 = 0;
    let mut i: usize = from;
    while i < chars.len()
        invariant
            from <= i <= chars.len(),
            digits == chars@.skip(from as int),
            all_digits(digits.take(i - from)),
            acc == decimal_value(digits.take(i - from)),
            acc <= limit,
        decreases chars.len() - i,
    {
        let c = chars[i];
        assert(c == digits[i - from]);
        if c < '0' || c > '9' {
            return None;
        }
        let d: u64 = (c as u32 - '0' as u32) as u64;
        proof {
            assert(digits.take(i - from + 1).drop_last() =~= digits.take(i - from));
            assert(decimal_value(digits.take(i - from + 1)) == 10 * acc + d);
            lemma_decimal_value_grows(digits, i - from + 1);
        }
        if d > limit {
            return None;
        }
        if acc > (limit - d) / 10 {
            return None;
        }
        acc = acc * 10 + d;
        proof {
            assert forall|j: int| 0 <= j < i - from + 1 implies is_digit(
                #[trigger] digits.take(i - from + 1)[j],
            ) by {
                if j < i - from {
                    assert(digits.take(i - from + 1)[j] == digits.take(i - from)[j]);
                }
            }
        }
        i += 1;
    }
    assert(digits.take(digits.len() as int) =~= digits);
    Some(acc)
}

/// Reads `chars`, from `from` to the end, as an unsigned decimal number.
pub fn parse_unsigned(chars: &Vec<char>, from: usize) -> (value: Option<usize>)
    requires
        from <= chars.len(),
    ensures
        match value {
            Some(v) => unsigned_decimal(chars@.skip(from as int)) == Some(v as nat),
            None => unsigned_decimal(chars@.skip(from as int)) is None,
        },
{
    let ghost s = chars@.skip(from as int);
    if from < chars.len() {
        assert(s[0] == chars@[from as int]);
        assert(s.skip(1) =~= chars@.skip(from + 1));
    }
    let digits_from: usize = if from < chars.len() && chars[from] == '+' {
        from + 1
    } else {
        from
    };
    match parse_magnitude(chars, digits_from, usize::MAX as u64) {
        Some(v) => Some(v as usize),
        None => None,
    }
}

/// Reads `chars`, from `from` to the end, as a signed decimal number.
pub fn parse_signed(chars: &Vec<char>, from: usize) -> (value: Option<i64>)
    requires
        from <= chars.len(),
    ensures
        match value {
            Some(v) => signed_decimal(chars@.skip(from as int)) == Some(v as int),
            None => signed_decimal(chars@.skip(from as int)) is None,
        },
{
    let ghost s = chars@.skip(from as int);
    if from < chars.len() {
        assert(s[0] == chars@[from as int]);
        assert(s.skip(1) =~= chars@.skip(from + 1));
    }
    if from < chars.len() && chars[from] == '-' {
        match parse_magnitude(chars, from + 1, 0x8000_0000_0000_0000) {
            Some(m) => if m == 0x8000_0000_0000_0000 {
                Some(i64::MIN)
            } else {
                Some(-(m as i64))
            },
            None => None,
        }
    } else if from < chars.len() && chars[from] == '+' {
        match parse_magnitude(chars, from + 1, 0x7fff_ffff_ffff_ffff) {
            Some(m) => Some(m as i64),
            None => None,
        }
    } else {
        match parse_magnitude(chars, from, 0x7fff_ffff_ffff_ffff) {
            Some(m) => Some(m as i64),
            None => None,
        }
    }
}

/// `c` with a small ASCII letter turned into its capital.
pub open spec fn upper(c: char) -> char {
    if 'a' <= c <= 'z' {
        ((c as u8 - 32) as u8) as char
    } else {
        c
    }
}

/// `s` with each small ASCII letter turned into its capital.
pub open spec fn ascii_upper(s: Seq<char>) -> Seq<char> {
    Seq::new(s.len(), |i: int| upper(s[i]))
}

/// Computes [`ascii_upper`].
pub fn to_upper(chars: &Vec<char>) -> (capitals: Vec<char>)
    ensures
        capitals@ == ascii_upper(chars@),
{
    let mut capitals: Vec<char> = Vec::new();
    let mut i: usize = 0;
    while i < chars.len()
        invariant
            i <= chars.len(),
            capitals.len() == i,
            forall|k: int| 0 <= k < i ==> capitals@[k] == upper(chars@[k]),
        decreases chars.len() - i,
    {
        let c = chars[i];
        let capital = if 'a' <= c && c <= 'z' {
            (c as u8 - 32) as char
        } else {
            c
        };
        capitals.push(capital);
        i += 1;
    }
    assert(capitals@ =~= ascii_upper(chars@));
    capitals
}

/// Whether `chars` spell `word`.
pub fn spells(chars: &Vec<char>, word: &str) -> (same: bool)
    ensures
        same == (chars@ == word@),
{
    assert(chars@.subrange(0, chars@.len() as int) =~= chars@);
    range_is(chars, 0, chars.len(), word)
}

/// How the standard library writes `s` for debugging: in double quotes,
/// with escapes.
pub uninterp spec fn debug_text(s: Seq<char>) -> Seq<char>;

/// `format!` with `{:?}` on a `str`, that is `<str as Debug>::fmt`.
/// Trusted: the result is a function of the characters of `s` alone.
#[verifier::external_body]
pub(crate) fn quote_debug(s: &str) -> (quoted: String)
    ensures
        quoted@ == debug_text(s@),
{
    format!("{s:?}")
}

} // verus!
