//! Text primitives: lines, splits, joins and decimal numbers, over sequences of characters.

use vstd::arithmetic::div_mod::lemma_div_denominator;
use vstd::arithmetic::power::lemma_pow0;
use vstd::arithmetic::power::lemma_pow1;
use vstd::arithmetic::power::lemma_pow_adds;
use vstd::arithmetic::power::lemma_pow_positive;
use vstd::arithmetic::power::pow;
use vstd::prelude::*;
use vstd::string::*;

verus! {

/// The texts that a sequence of strings holds.
pub open spec fn texts(strings: Seq<String>) -> Seq<Seq<char>> {
    strings.map_values(|s: String| s@)
}

/// `parts` one after the other, with `separator` between neighbours.
pub open spec fn joined(parts: Seq<Seq<char>>, separator: Seq<char>) -> Seq<char>
    decreases parts.len(),
{
    if parts.len() == 0 {
        Seq::empty()
    } else if parts.len() == 1 {
        parts[0]
    } else {
        joined(parts.drop_last(), separator) + separator + parts.last()
    }
}

/// `line` without the carriage return that it may end with.
pub open spec fn without_carriage_return(line: Seq<char>) -> Seq<char> {
    if line.len() > 0 && line.last() == '\r' {
        line.drop_last()
    } else {
        line
    }
}

/// Where `wanted` first occurs in `text`.
pub open spec fn first_position(text: Seq<char>, wanted: char) -> Option<int>
    decreases text.len(),
{
    if text.len() == 0 {
        None
    } else if text[0] == wanted {
        Some(0)
    } else {
        match first_position(text.skip(1), wanted) {
            Some(i) => Some(i + 1),
            None => None,
        }
    }
}

/// Where `wanted` last occurs in `text`.
pub open spec fn last_position(text: Seq<char>, wanted: char) -> Option<int>
    decreases text.len(),
{
    if text.len() == 0 {
        None
    } else if text.last() == wanted {
        Some(text.len() - 1)
    } else {
        last_position(text.drop_last(), wanted)
    }
}

/// The lines of `text`. A line ends at `\n` or `\r\n`, neither of which belongs to it; the last
/// line needs no ending, and an ending with nothing behind it opens no further line.
pub open spec fn split_lines(text: Seq<char>) -> Seq<Seq<char>>
    decreases text.len(),
{
    if text.len() == 0 {
        Seq::empty()
    } else {
        match first_position(text, '\n') {
            Some(i) if 0 <= i < text.len() => seq![without_carriage_return(text.take(i))]
                + split_lines(text.skip(i + 1)),
            _ => seq![text],
        }
    }
}

/// `text` before and after the first `separator`, if there is one.
pub open spec fn split_at_first(text: Seq<char>, separator: char) -> Option<
    (Seq<char>, Seq<char>),
> {
    match first_position(text, separator) {
        Some(i) => Some((text.take(i), text.skip(i + 1))),
        None => None,
    }
}

/// `text` before and after the last `separator`, if there is one.
pub open spec fn split_at_last(text: Seq<char>, separator: char) -> Option<
    (Seq<char>, Seq<char>),
> {
    match last_position(text, separator) {
        Some(i) => Some((text.take(i), text.skip(i + 1))),
        None => None,
    }
}

/// What follows `prefix` in `text`, if `text` begins with it.
pub open spec fn after_prefix(text: Seq<char>, prefix: Seq<char>) -> Option<Seq<char>> {
    if prefix.is_prefix_of(text) {
        Some(text.skip(prefix.len() as int))
    } else {
        None
    }
}

pub open spec fn is_digit(c: char) -> bool {
    '0' <= c && c <= '9'
}

/// The number that decimal digits stand for.
pub open spec fn decimal_value(digits: Seq<char>) -> nat
    decreases digits.len(),
{
    if digits.len() == 0 {
        0
    } else {
        decimal_value(digits.drop_last()) * 10 + (digits.last() as nat - '0' as nat) as nat
    }
}

/// The decimal digits of `n`, without leading zeros.
pub open spec fn decimal(n: nat) -> Seq<char>
    decreases n,
{
    if n < 10 {
        seq![('0' as nat + n) as char]
    } else {
        decimal(n / 10).push(('0' as nat + n % 10) as char)
    }
}

pub open spec fn all_digits(text: Seq<char>) -> bool {
    forall|i: int| 0 <= i < text.len() ==> is_digit(#[trigger] text[i])
}

/// The number that `digits` spells, if they are digits, there is one, and the number fits.
pub open spec fn unsigned_port(digits: Seq<char>) -> Option<u16> {
    if digits.len() > 0 && all_digits(digits) && decimal_value(digits) <= u16::MAX {
        Some(decimal_value(digits) as u16)
    } else {
        None
    }
}

/// The port number that `text` spells: decimal digits, after an optional `+`, whose value fits.
pub open spec fn port_number(text: Seq<char>) -> Option<u16> {
    if text.len() > 0 && text[0] == '+' {
        unsigned_port(text.skip(1))
    } else {
        unsigned_port(text)
    }
}

/// The text that UTF-16 code units encode, with U+FFFD in place of each unpaired surrogate.
pub open spec fn utf16_text(units: Seq<u16>) -> Seq<char>
    decreases units.len(),
{
    if units.len() == 0 {
        Seq::empty()
    } else if is_high_surrogate(units[0]) && units.len() > 1 && is_low_surrogate(units[1]) {
        seq![(0x10000 + (units[0] - 0xD800) * 0x400 + (units[1] - 0xDC00)) as char] + utf16_text(
            units.skip(2),
        )
    } else if is_high_surrogate(units[0]) || is_low_surrogate(units[0]) {
        seq!['\u{FFFD}'] + utf16_text(units.skip(1))
    } else {
        seq![units[0] as char] + utf16_text(units.skip(1))
    }
}

pub open spec fn is_high_surrogate(unit: u16) -> bool {
    0xD800 <= unit <= 0xDBFF
}

pub open spec fn is_low_surrogate(unit: u16) -> bool {
    0xDC00 <= unit <= 0xDFFF
}

/// The UTF-16 code units that encode `text`.
pub open spec fn utf16_units(text: Seq<char>) -> Seq<u16>
    decreases text.len(),
{
    if text.len() == 0 {
        Seq::empty()
    } else {
        let code = text[0] as int;
        let rest = utf16_units(text.skip(1));
        if code < 0x10000 {
            seq![code as u16] + rest
        } else {
            seq![
                (0xD800 + (code - 0x10000) / 0x400) as u16,
                (0xDC00 + (code - 0x10000) % 0x400) as u16,
            ] + rest
        }
    }
}

/// Whether two texts are equal.
pub fn same_text(a: &str, b: &str) -> (same: bool)
    ensures
        same == (a@ == b@),
{
    a.to_owned() == b.to_owned()
}

/// The characters of `text`.
pub fn characters(text: &str) -> (chars: Vec<char>)
    ensures
        chars@ == text@,
{
    let mut chars: Vec<char> = Vec::new();
    for c in it: text.chars()
        invariant
            it.seq() == text@,
            chars@ == text@.take(it.index()),
    {
        chars.push(c);
    }
    chars
}

/// `first_position` is the least index of the wanted character.
pub proof fn lemma_first_position(text: Seq<char>, wanted: char)
    ensures
        match first_position(text, wanted) {
            Some(i) => 0 <= i < text.len() && text[i] == wanted && (forall|j: int|
                0 <= j < i ==> text[j] != wanted),
            None => forall|j: int| 0 <= j < text.len() ==> text[j] != wanted,
        },
    decreases text.len(),
{
    if text.len() > 0 && text[0] != wanted {
        let rest = text.skip(1);
        lemma_first_position(rest, wanted);
        assert(forall|j: int| 1 <= j < text.len() ==> text[j] == rest[j - 1]);
    }
}

/// `last_position` is the greatest index of the wanted character.
pub proof fn lemma_last_position(text: Seq<char>, wanted: char)
    ensures
        match last_position(text, wanted) {
            Some(i) => 0 <= i < text.len() && text[i] == wanted && (forall|j: int|
                i < j < text.len() ==> text[j] != wanted),
            None => forall|j: int| 0 <= j < text.len() ==> text[j] != wanted,
        },
    decreases text.len(),
{
    if text.len() > 0 && text.last() != wanted {
        lemma_last_position(text.drop_last(), wanted);
        assert(forall|j: int| 0 <= j < text.len() - 1 ==> text[j] == text.drop_last()[j]);
    }
}

/// The first position of `wanted` in `chars` from `start` on.
fn find_from(chars: &Vec<char>, start: usize, wanted: char) -> (found: Option<usize>)
    requires
        start <= chars.len(),
    ensures
        match found {
            Some(i) => first_position(chars@.skip(start as int), wanted) == Some(i - start),
            None => first_position(chars@.skip(start as int), wanted) is None,
        },
        found matches Some(i) ==> start <= i < chars.len(),
{
    let mut i: usize = start;
    let ghost rest = chars@.skip(start as int);
    while i < chars.len()
        invariant
            start <= i <= chars.len(),
            rest == chars@.skip(start as int),
            forall|j: int| start <= j < i ==> chars@[j] != wanted,
        decreases chars.len() - i,
    {
        if chars[i] == wanted {
            proof {
                lemma_first_position(rest, wanted);
                assert(rest[i - start] == wanted);
                assert(forall|j: int| 0 <= j < i - start ==> rest[j] == chars@[j + start]);
            }
            return Some(i);
        }
        i += 1;
    }
    proof {
        lemma_first_position(rest, wanted);
        assert(forall|j: int| 0 <= j < rest.len() ==> rest[j] == chars@[j + start]);
    }
    None
}

/// The lines of `text`.
pub fn lines(text: &str) -> (lines: Vec<String>)
    ensures
        texts(lines@) == split_lines(text@),
{
    let chars = characters(text);
    let mut lines: Vec<String> = Vec::new();
    let mut start: usize = 0;
    proof {
        assert(text@.skip(0) == text@);
        assert(texts(lines@) + split_lines(text@) == split_lines(text@));
    }
    while start < chars.len()
        invariant
            chars@ == text@,
            start <= chars.len(),
            texts(lines@) + split_lines(text@.skip(start as int)) == split_lines(text@),
        decreases chars.len() - start,
    {
        let ghost before = lines@;
        let ghost rest = text@.skip(start as int);
        match find_from(&chars, start, '\n') {
            Some(i) => {
                let end: usize = if i > start && chars[i - 1] == '\r' {
                    i - 1
                } else {
                    i
                };
                let line = text.substring_char(start, end).to_owned();
                lines.push(line);
                proof {
                    assert(rest.take(i - start) == text@.subrange(start as int, i as int));
                    assert(line@ == without_carriage_return(rest.take(i - start)));
                    assert(rest.skip(i - start + 1) == text@.skip(i + 1));
                    assert(texts(lines@) == texts(before).push(line@));
                    assert(texts(lines@) + split_lines(text@.skip(i + 1)) == texts(before) + (
                    seq![line@] + split_lines(text@.skip(i + 1))));
                }
                start = i + 1;
            },
            None => {
                let line = text.substring_char(start, chars.len()).to_owned();
                lines.push(line);
                proof {
                    assert(line@ == rest);
                    assert(text@.skip(chars@.len() as int) == Seq::<char>::empty());
                    assert(texts(lines@) == texts(before).push(line@));
                    assert(texts(lines@) + Seq::empty() == texts(before) + seq![line@]);
                }
                start = chars.len();
            },
        }
    }
    proof {
        assert(text@.skip(start as int) == Seq::<char>::empty());
        assert(texts(lines@) + Seq::empty() == texts(lines@));
    }
    lines
}

/// `text` before and after its first `separator`.
pub fn split_once(text: &str, separator: char) -> (halves: Option<(String, String)>)
    ensures
        match halves {
            Some((before, after)) => split_at_first(text@, separator) == Some((before@, after@)),
            None => split_at_first(text@, separator) is None,
        },
{
    let chars = characters(text);
    assert(chars@.skip(0) == chars@);
    match find_from(&chars, 0, separator) {
        Some(i) => Some(
            (
                text.substring_char(0, i).to_owned(),
                text.substring_char(i + 1, chars.len()).to_owned(),
            ),
        ),
        None => None,
    }
}

/// `text` before and after its last `separator`.
pub fn rsplit_once(text: &str, separator: char) -> (halves: Option<(String, String)>)
    ensures
        match halves {
            Some((before, after)) => split_at_last(text@, separator) == Some((before@, after@)),
            None => split_at_last(text@, separator) is None,
        },
{
    let chars = characters(text);
    let mut end: usize = chars.len();
    while end > 0
        invariant
            chars@ == text@,
            end <= chars.len(),
            forall|j: int| end <= j < chars.len() ==> chars@[j] != separator,
        decreases end,
    {
        let i: usize = end - 1;
        if chars[i] == separator {
            proof {
                lemma_last_position(text@, separator);
            }
            return Some(
                (
                    text.substring_char(0, i).to_owned(),
                    text.substring_char(end, chars.len()).to_owned(),
                ),
            );
        }
        end = i;
    }
    proof {
        lemma_last_position(text@, separator);
    }
    None
}

/// What follows `prefix` in `text`.
pub fn strip_prefix(text: &str, prefix: &str) -> (rest: Option<String>)
    ensures
        match rest {
            Some(rest) => after_prefix(text@, prefix@) == Some(rest@),
            None => after_prefix(text@, prefix@) is None,
        },
{
    let length: usize = text.unicode_len();
    let prefix_length: usize = prefix.unicode_len();
    if prefix_length <= length && same_text(text.substring_char(0, prefix_length), prefix) {
        Some(text.substring_char(prefix_length, length).to_owned())
    } else {
        None
    }
}

/// `parts` joined by `separator`.
pub fn join(parts: &Vec<String>, separator: &str) -> (text: String)
    ensures
        text@ == joined(texts(parts@), separator@),
{
    let mut text = String::new();
    let mut i: usize = 0;
    assert(texts(parts@).take(0) == Seq::<Seq<char>>::empty());
    while i < parts.len()
        invariant
            i <= parts.len(),
            text@ == joined(texts(parts@).take(i as int), separator@),
        decreases parts.len() - i,
    {
        if i > 0 {
            text.append(separator);
        }
        text.append(parts[i].as_str());
        proof {
            let longer = texts(parts@).take(i + 1);
            assert(longer.drop_last() == texts(parts@).take(i as int));
            assert(longer.last() == parts@[i as int]@);
        }
        i += 1;
    }
    assert(texts(parts@).take(i as int) == texts(parts@));
    text
}

/// `String::from_utf16_lossy`: decodes surrogate pairs, and puts U+FFFD in place of each
/// surrogate that has no partner.
#[verifier::external_body]
pub(crate) fn decode_utf16(units: &[u16]) -> (text: String)
    ensures
        text@ == utf16_text(units@),
{
    String::from_utf16_lossy(units)
}

/// A text has no more characters than code units.
pub proof fn lemma_utf16_length(units: Seq<u16>)
    ensures
        utf16_text(units).len() <= units.len(),
    decreases units.len(),
{
    if units.len() > 0 {
        if is_high_surrogate(units[0]) && units.len() > 1 && is_low_surrogate(units[1]) {
            lemma_utf16_length(units.skip(2));
        } else {
            lemma_utf16_length(units.skip(1));
        }
    }
}

/// A character has a code that is no surrogate.
proof fn lemma_char_code(c: char)
    ensures
        0 <= c as int <= 0xD7FF || 0xE000 <= c as int <= 0x10FFFF,
{
}

/// Text in UTF-16 is read back.
pub proof fn lemma_utf16_round_trip(text: Seq<char>)
    ensures
        utf16_text(utf16_units(text)) == text,
    decreases text.len(),
{
    if text.len() > 0 {
        let code = text[0] as int;
        let units = utf16_units(text);
        let rest = utf16_units(text.skip(1));
        lemma_utf16_round_trip(text.skip(1));
        lemma_char_code(text[0]);
        if code < 0x10000 {
            assert(units.skip(1) =~= rest);
            assert(units[0] as char == text[0]);
        } else {
            assert(units.skip(2) =~= rest);
            assert((0x10000 + (units[0] - 0xD800) * 0x400 + (units[1] - 0xDC00)) == code);
        }
        assert(text =~= seq![text[0]] + text.skip(1));
    }
}

/// A zero stands in UTF-16 for a zero alone.
pub proof fn lemma_utf16_zero(text: Seq<char>)
    requires
        !text.contains('\0'),
    ensures
        forall|i: int| 0 <= i < utf16_units(text).len() ==> utf16_units(text)[i] != 0,
    decreases text.len(),
{
    if text.len() > 0 {
        let rest = text.skip(1);
        assert(text.contains(text[0]));
        assert forall|i: int| 0 <= i < rest.len() implies rest[i] != '\0' by {
            assert(rest[i] == text[i + 1]);
        }
        lemma_utf16_zero(rest);
        lemma_char_code(text[0]);
        assert(text[0] as int != 0);
        let first: int = if (text[0] as int) < 0x10000 {
            1
        } else {
            2
        };
        assert forall|i: int| 0 <= i < utf16_units(text).len() implies utf16_units(text)[i]
            != 0 by {
            if i >= first {
                assert(utf16_units(text)[i] == utf16_units(rest)[i - first]);
            }
        }
    }
}

/// A single decimal digit.
fn digit_text(digit: u64) -> (text: String)
    requires
        digit < 10,
    ensures
        text@ == seq![('0' as nat + digit as nat) as char],
{
    proof {
        reveal_strlit("0");
        reveal_strlit("1");
        reveal_strlit("2");
        reveal_strlit("3");
        reveal_strlit("4");
        reveal_strlit("5");
        reveal_strlit("6");
        reveal_strlit("7");
        reveal_strlit("8");
        reveal_strlit("9");
    }
    match digit {
        0 => "0".to_owned(),
        1 => "1".to_owned(),
        2 => "2".to_owned(),
        3 => "3".to_owned(),
        4 => "4".to_owned(),
        5 => "5".to_owned(),
        6 => "6".to_owned(),
        7 => "7".to_owned(),
        8 => "8".to_owned(),
        _ => "9".to_owned(),
    }
}

/// `n` in decimal.
pub fn decimal_text(n: u64) -> (text: String)
    ensures
        text@ == decimal(n as nat),
    decreases n,
{
    if n < 10 {
        digit_text(n)
    } else {
        let last = digit_text(n % 10);
        decimal_text(n / 10).concat(last.as_str())
    }
}

/// Leading digits stand for no more than all of them.
proof fn lemma_decimal_value_of_prefix(digits: Seq<char>, length: int)
    requires
        0 <= length <= digits.len(),
    ensures
        decimal_value(digits.take(length)) <= decimal_value(digits),
    decreases digits.len(),
{
    if length == digits.len() {
        assert(digits.take(length) == digits);
    } else {
        lemma_decimal_value_of_prefix(digits.drop_last(), length);
        assert(digits.drop_last().take(length) == digits.take(length));
    }
}

/// The port number that `text` spells.
pub fn parse_port(text: &str) -> (port: Option<u16>)
    ensures
        port == port_number(text@),
{
    let chars = characters(text);
    let start: usize = if chars.len() > 0 && chars[0] == '+' {
        1
    } else {
        0
    };
    if start == chars.len() {
        return None;
    }
    let ghost digits = text@.skip(start as int);
    assert(text@.skip(0) == text@);
    let mut i: usize = start;
    let mut value: u32 = 0;
    while i < chars.len()
        invariant
            chars@ == text@,
            start <= i <= chars.len(),
            start < chars.len(),
            digits == text@.skip(start as int),
            start == 1 <==> text@.len() > 0 && text@[0] == '+',
            start == 0 || start == 1,
            start == 0 ==> digits == text@,
            forall|j: int| 0 <= j < i - start ==> is_digit(#[trigger] digits[j]),
            value == decimal_value(digits.take(i - start)),
            value <= u16::MAX,
        decreases chars.len() - i,
    {
        let c = chars[i];
        assert(digits[i - start] == c);
        if !('0' <= c && c <= '9') {
            assert(!is_digit(digits[i - start]));
            return None;
        }
        value = value * 10 + (c as u32 - '0' as u32);
        proof {
            let longer = digits.take(i - start + 1);
            assert(longer.drop_last() == digits.take(i - start));
            assert(longer.last() == c);
            lemma_decimal_value_of_prefix(digits, i - start + 1);
        }
        if value > 65535 {
            return None;
        }
        i += 1;
    }
    assert(digits.take(i - start) == digits);
    Some(value as u16)
}

/// The digits of a number stand for it.
pub proof fn lemma_decimal(n: nat)
    ensures
        decimal(n).len() > 0,
        all_digits(decimal(n)),
        decimal_value(decimal(n)) == n,
    decreases n,
{
    if n >= 10 {
        lemma_decimal(n / 10);
        assert(decimal(n).drop_last() == decimal(n / 10));
    } else {
        assert(decimal(n).drop_last() == Seq::<char>::empty());
        assert(decimal_value(decimal(n).drop_last()) == 0);
    }
}

/// A port number written in decimal is read back.
pub proof fn lemma_port_round_trip(port: u16)
    ensures
        port_number(decimal(port as nat)) == Some(port),
{
    lemma_decimal(port as nat);
    assert(is_digit(decimal(port as nat)[0]));
}

/// Whether the texts can stand one to a line and be told apart again: none holds a `\n`, none but
/// the last ends in the `\r` that would belong to its line ending, and the last is not empty.
pub open spec fn are_lines(parts: Seq<Seq<char>>) -> bool {
    &&& forall|i: int| 0 <= i < parts.len() ==> !(#[trigger] parts[i]).contains('\n')
    &&& forall|i: int|
        0 <= i < parts.len() - 1 ==> without_carriage_return(#[trigger] parts[i]) == parts[i]
    &&& parts.len() > 0 ==> parts.last().len() > 0
}

/// Joined texts begin with the first of them.
pub proof fn lemma_joined_from_front(parts: Seq<Seq<char>>, separator: Seq<char>)
    requires
        parts.len() >= 2,
    ensures
        joined(parts, separator) == parts[0] + separator + joined(parts.skip(1), separator),
    decreases parts.len(),
{
    let rest = parts.skip(1);
    let front = parts.drop_last();
    if parts.len() == 2 {
        assert(joined(front, separator) == parts[0]);
        assert(joined(rest, separator) == parts[1]);
    } else {
        lemma_joined_from_front(front, separator);
        assert(front.skip(1) == rest.drop_last());
        assert(joined(parts, separator) == parts[0] + separator + joined(
            rest.drop_last(),
            separator,
        ) + separator + parts.last());
        assert(joined(rest, separator) == joined(rest.drop_last(), separator) + separator
            + rest.last());
        assert(joined(parts, separator) =~= parts[0] + separator + joined(rest, separator));
    }
}

/// A line that is followed by others is split off.
proof fn lemma_split_first_line(line: Seq<char>, rest: Seq<char>)
    requires
        !line.contains('\n'),
    ensures
        split_lines(line + "\n"@ + rest) == seq![without_carriage_return(line)] + split_lines(rest),
{
    reveal_strlit("\n");
    let text = line + "\n"@ + rest;
    lemma_first_position(text, '\n');
    assert(text[line.len() as int] == '\n');
    assert forall|j: int| 0 <= j < line.len() implies text[j] != '\n' by {
        assert(line[j] == text[j]);
    }
    assert(text.take(line.len() as int) =~= line);
    assert(text.skip(line.len() as int + 1) =~= rest);
}

/// A line holds no line break.
proof fn lemma_lines_hold_no_newline(text: Seq<char>)
    ensures
        forall|i: int|
            0 <= i < split_lines(text).len() ==> !(#[trigger] split_lines(text)[i]).contains('\n'),
    decreases text.len(),
{
    if text.len() > 0 {
        lemma_first_position(text, '\n');
        if let Some(end) = first_position(text, '\n') {
            let line = without_carriage_return(text.take(end));
            let rest = split_lines(text.skip(end + 1));
            lemma_lines_hold_no_newline(text.skip(end + 1));
            assert(forall|j: int| 0 <= j < line.len() ==> line[j] == text[j]);
            assert forall|i: int| 0 <= i < split_lines(text).len() implies !(
            #[trigger] split_lines(text)[i]).contains('\n') by {
                if i > 0 {
                    assert(split_lines(text)[i] == rest[i - 1]);
                }
            }
        }
    }
}

/// Texts are the lines of what they are joined to exactly if they can stand one to a line.
pub proof fn lemma_lines_of_joined(parts: Seq<Seq<char>>)
    ensures
        split_lines(joined(parts, "\n"@)) == parts <==> are_lines(parts),
    decreases parts.len(),
{
    let lines = split_lines(joined(parts, "\n"@));
    lemma_lines_hold_no_newline(joined(parts, "\n"@));
    if parts.len() == 0 {
        assert(lines =~= parts);
    } else if parts.len() == 1 {
        lemma_first_position(parts[0], '\n');
        assert(seq![parts[0]] =~= parts);
        assert(lines == parts ==> !lines[0].contains('\n'));
    } else {
        let first = parts[0];
        let rest = parts.skip(1);
        assert(forall|i: int| 0 <= i < rest.len() ==> rest[i] == parts[i + 1]);
        lemma_lines_of_joined(rest);
        lemma_joined_from_front(parts, "\n"@);
        assert(are_lines(parts) <==> are_lines(rest) && !first.contains('\n')
            && without_carriage_return(first) == first) by {
            assert(forall|i: int| 1 <= i < parts.len() ==> parts[i] == rest[i - 1]);
        }
        assert(lines == parts ==> !lines[0].contains('\n'));
        if !first.contains('\n') {
            let rest_lines = split_lines(joined(rest, "\n"@));
            lemma_split_first_line(first, joined(rest, "\n"@));
            assert(lines == seq![without_carriage_return(first)] + rest_lines);
            assert(lines.skip(1) == rest_lines);
            assert(lines[0] == without_carriage_return(first));
            if lines == parts {
                assert(rest_lines == rest);
            }
            if rest_lines == rest && without_carriage_return(first) == first {
                assert(lines =~= parts);
            }
        }
    }
}

/// Nothing joined is nothing, and one text joined is that text.
pub proof fn lemma_joined_few(text: Seq<char>, separator: Seq<char>)
    ensures
        joined(Seq::empty(), separator) == Seq::<char>::empty(),
        joined(seq![text], separator) == text,
{
}

/// Texts without `\n`, joined by it, are its lines: each loses one `\r` at its end, but for the
/// last, and an empty last one is no line. Every text is joined of such texts.
pub proof fn lemma_lines_of_any_joined(parts: Seq<Seq<char>>)
    requires
        parts.len() > 0,
        forall|i: int| 0 <= i < parts.len() ==> !(#[trigger] parts[i]).contains('\n'),
    ensures
        split_lines(joined(parts, "\n"@)).len() == if parts.last().len() == 0 {
            parts.len() - 1
        } else {
            parts.len() as int
        },
        forall|i: int|
            0 <= i < parts.len() - 1 ==> if parts[i].len() > 0 && parts[i].last() == '\r' {
                parts[i] == (#[trigger] split_lines(joined(parts, "\n"@))[i]).push('\r')
            } else {
                parts[i] == split_lines(joined(parts, "\n"@))[i]
            },
        parts.last().len() > 0 ==> split_lines(joined(parts, "\n"@)).last() == parts.last(),
    decreases parts.len(),
{
    let text = joined(parts, "\n"@);
    let lines = split_lines(text);
    let first = parts[0];
    if parts.len() == 1 {
        lemma_first_position(first, '\n');
        if let Some(i) = first_position(first, '\n') {
            assert(first.contains(first[i]));
        }
    } else {
        let rest = parts.skip(1);
        assert(forall|i: int| 0 <= i < rest.len() ==> rest[i] == parts[i + 1]);
        lemma_lines_of_any_joined(rest);
        lemma_joined_from_front(parts, "\n"@);
        lemma_split_first_line(first, joined(rest, "\n"@));
        let rest_lines = split_lines(joined(rest, "\n"@));
        assert(lines == seq![without_carriage_return(first)] + rest_lines);
        if first.len() > 0 && first.last() == '\r' {
            assert(first =~= first.drop_last().push('\r'));
        }
        assert forall|i: int| 0 <= i < parts.len() - 1 implies if parts[i].len() > 0
            && parts[i].last() == '\r' {
            parts[i] == (#[trigger] lines[i]).push('\r')
        } else {
            parts[i] == lines[i]
        } by {
            if i > 0 {
                assert(lines[i] == rest_lines[i - 1]);
                assert(parts[i] == rest[i - 1]);
            }
        }
    }
}

/// Every text is made of parts without `\n`, joined by it.
pub proof fn lemma_every_text_is_joined(text: Seq<char>) -> (parts: Seq<Seq<char>>)
    ensures
        parts.len() > 0,
        forall|i: int| 0 <= i < parts.len() ==> !(#[trigger] parts[i]).contains('\n'),
        joined(parts, "\n"@) == text,
    decreases text.len(),
{
    reveal_strlit("\n");
    lemma_first_position(text, '\n');
    match first_position(text, '\n') {
        Some(i) => {
            let first = text.take(i);
            let rest = lemma_every_text_is_joined(text.skip(i + 1));
            let parts = seq![first] + rest;
            assert forall|j: int| 0 <= j < first.len() implies first[j] != '\n' by {
                assert(first[j] == text[j]);
            }
            assert forall|j: int| 0 <= j < parts.len() implies !(#[trigger] parts[j]).contains(
                '\n',
            ) by {
                if j > 0 {
                    assert(parts[j] == rest[j - 1]);
                }
            }
            lemma_joined_from_front(parts, "\n"@);
            assert(parts.skip(1) =~= rest);
            assert(first + "\n"@ + text.skip(i + 1) =~= text);
            parts
        },
        None => {
            let parts = seq![text];
            assert(joined(parts, "\n"@) == text);
            parts
        },
    }
}

/// A text is split at its first separator: before it there is none, and with it the two parts make
/// up the text.
pub proof fn lemma_split_at_first(before: Seq<char>, after: Seq<char>, separator: char)
    requires
        !before.contains(separator),
    ensures
        split_at_first(before + seq![separator] + after, separator) == Some((before, after)),
        split_at_first(before, separator) is None,
{
    let text = before + seq![separator] + after;
    lemma_first_position(text, separator);
    lemma_first_position(before, separator);
    assert(text[before.len() as int] == separator);
    assert forall|j: int| 0 <= j < before.len() implies text[j] != separator by {
        assert(before[j] == text[j]);
    }
    assert(text.take(before.len() as int) =~= before);
    assert(text.skip(before.len() as int + 1) =~= after);
    if let Some(i) = first_position(before, separator) {
        assert(before.contains(before[i]));
    }
}

/// A text is split at its last separator: behind it there is none, and with it the two parts make
/// up the text.
pub proof fn lemma_split_at_last(before: Seq<char>, after: Seq<char>, separator: char)
    requires
        !after.contains(separator),
    ensures
        split_at_last(before + seq![separator] + after, separator) == Some((before, after)),
        split_at_last(after, separator) is None,
{
    let text = before + seq![separator] + after;
    lemma_last_position(text, separator);
    lemma_last_position(after, separator);
    assert(text[before.len() as int] == separator);
    assert forall|j: int| before.len() < j < text.len() implies text[j] != separator by {
        assert(after[j - before.len() - 1] == text[j]);
    }
    assert(text.take(before.len() as int) =~= before);
    assert(text.skip(before.len() as int + 1) =~= after);
    if let Some(i) = last_position(after, separator) {
        assert(after.contains(after[i]));
    }
}

/// What follows a prefix is what was put behind it, and a text that has it begins with the prefix.
pub proof fn lemma_after_prefix(text: Seq<char>, prefix: Seq<char>, rest: Seq<char>)
    ensures
        after_prefix(text, prefix) == Some(rest) <==> text == prefix + rest,
{
    if text == prefix + rest {
        assert(prefix =~= text.subrange(0, prefix.len() as int));
        assert(text.skip(prefix.len() as int) =~= rest);
    }
    if after_prefix(text, prefix) == Some(rest) {
        assert(text =~= prefix + rest);
    }
}

/// The digit of a number in each decimal place: there are no more than the number needs, and the
/// one that stands before `place` others counts powers of ten.
pub proof fn lemma_decimal_places(n: nat, place: nat)
    requires
        place < decimal(n).len(),
    ensures
        decimal(n)[decimal(n).len() - 1 - place] as int == '0' as int + (n as int / pow(10, place))
            % 10,
        n > 0 ==> decimal(n)[0] != '0',
        n < 10 ==> decimal(n).len() == 1,
        n >= 10 ==> decimal(n).len() == decimal(n / 10).len() + 1,
    decreases n,
{
    lemma_pow0(10);
    if n >= 10 {
        let front = decimal(n / 10);
        assert(front.len() > 0) by {
            lemma_decimal(n / 10);
        }
        lemma_decimal_places(n / 10, 0);
        assert(decimal(n)[0] == front[0]);
        if place > 0 {
            let above = (place - 1) as nat;
            lemma_decimal_places(n / 10, above);
            lemma_pow1(10);
            lemma_pow_adds(10, 1, above);
            lemma_pow_positive(10, above);
            lemma_div_denominator(n as int, 10, pow(10, above));
            assert(decimal(n)[decimal(n).len() - 1 - place] == front[front.len() - 1 - above]);
        }
    }
}

/// The digits `0` that a number may begin with.
pub open spec fn zeros(count: nat) -> Seq<char> {
    Seq::new(count, |i: int| '0')
}

/// Zeros in front change nothing of a number.
proof fn lemma_zeros(count: nat, digits: Seq<char>)
    ensures
        decimal_value(zeros(count) + digits) == decimal_value(digits),
    decreases digits.len(), count,
{
    let all = zeros(count) + digits;
    if digits.len() > 0 {
        lemma_zeros(count, digits.drop_last());
        assert(all.drop_last() =~= zeros(count) + digits.drop_last());
        assert(all.last() == digits.last());
    } else if count > 0 {
        lemma_zeros((count - 1) as nat, digits);
        assert(all.drop_last() =~= zeros((count - 1) as nat) + digits);
        assert(all.last() == '0');
    } else {
        assert(all =~= digits);
    }
}

/// Digits are the number that they stand for, with zeros in front.
proof fn lemma_digits_are_decimal(digits: Seq<char>) -> (count: nat)
    requires
        digits.len() > 0,
        all_digits(digits),
    ensures
        digits == zeros(count) + decimal(decimal_value(digits)),
    decreases digits.len(),
{
    let front = digits.drop_last();
    let last = digits.last();
    let value = decimal_value(digits);
    assert(is_digit(digits[digits.len() - 1]));
    assert(last as int - '0' as int == value as int % 10 && decimal_value(front) == value / 10);
    if front.len() == 0 {
        assert(decimal_value(front) == 0);
        assert(digits =~= zeros(0) + decimal(value));
        0
    } else {
        assert forall|i: int| 0 <= i < front.len() implies is_digit(#[trigger] front[i]) by {
            assert(front[i] == digits[i]);
        }
        let count = lemma_digits_are_decimal(front);
        let shorter = decimal(decimal_value(front));
        assert(digits =~= front.push(last));
        assert(('0' as nat + value % 10) as char == last);
        if value >= 10 {
            assert(decimal(value) =~= shorter.push(last));
            assert((zeros(count) + shorter).push(last) =~= zeros(count) + shorter.push(last));
            count
        } else {
            assert(decimal_value(front) == 0);
            assert(shorter =~= zeros(1));
            assert(decimal(value) =~= seq![last]);
            assert(zeros(count) + zeros(1) =~= zeros(count + 1));
            assert(zeros(count + 1).push(last) =~= zeros(count + 1) + seq![last]);
            count + 1
        }
    }
}

/// A text is a port number exactly if it is the number in decimal, with any zeros in front, and
/// perhaps a `+` before them.
pub proof fn lemma_port_number(text: Seq<char>, port: u16)
    ensures
        port_number(text) == Some(port) <==> exists|count: nat|
            text == #[trigger] zeros(count) + decimal(port as nat) || text == seq!['+'] + (zeros(
                count,
            ) + decimal(port as nat)),
{
    lemma_decimal(port as nat);
    assert forall|count: nat|
        text == #[trigger] zeros(count) + decimal(port as nat) || text == seq!['+'] + (zeros(count)
            + decimal(port as nat)) implies port_number(text) == Some(port) by {
        let digits = zeros(count) + decimal(port as nat);
        lemma_zeros(count, decimal(port as nat));
        assert forall|i: int| 0 <= i < digits.len() implies is_digit(#[trigger] digits[i]) by {
            if i >= count {
                assert(digits[i] == decimal(port as nat)[i - count]);
            }
        }
        assert(is_digit(digits[0]));
        if text == seq!['+'] + digits {
            assert(text.skip(1) =~= digits);
            assert(text[0] == '+');
        }
    }
    if port_number(text) == Some(port) {
        if text[0] == '+' {
            let count = lemma_digits_are_decimal(text.skip(1));
            assert(text =~= seq!['+'] + text.skip(1));
            assert(text == seq!['+'] + (zeros(count) + decimal(port as nat)));
        } else {
            let count = lemma_digits_are_decimal(text);
            assert(text == zeros(count) + decimal(port as nat));
        }
    }
}

/// The texts of strings are those of each string, in order.
pub proof fn lemma_texts(strings: Seq<String>)
    ensures
        texts(strings).len() == strings.len(),
        forall|i: int| 0 <= i < strings.len() ==> #[trigger] texts(strings)[i] == strings[i]@,
{
}

} // verus!
