//! Calendar date-times for the text-backend line format.
//!
//! The text backend stamps each line with a fixed human date-time format:
//! a four-digit year, a three-letter month name (any letter case), a
//! two-digit day, and a two-digit `HH:MM:SS` clock, all separated by single
//! spaces — `2025 Mar 16 13:42:53`.  A date-time renders back in the
//! dashboard as `YYYY-MM-DD HH:MM:SS`.

use vstd::prelude::*;
use crate::digits::{is_digit, lemma_decode_ascii};
use crate::codec::lossy_string;

verus! {

/// A calendar date and time of day, held as plain fields.
#[derive(Clone, Copy, Debug, PartialEq, Eq, Structural)]
pub struct DateTime {
    pub year: u32,
    pub month: u32,
    pub day: u32,
    pub hour: u32,
    pub minute: u32,
    pub second: u32,
}

/// The Gregorian leap-year rule.
pub open spec fn is_leap_year(y: int) -> bool {
    (y % 4 == 0 && y % 100 != 0) || y % 400 == 0
}

/// Days in a month of a given year.
pub open spec fn days_in_month(y: int, m: int) -> int
    recommends
        1 <= m <= 12,
{
    if m == 2 {
        if is_leap_year(y) {
            29
        } else {
            28
        }
    } else if m == 4 || m == 6 || m == 9 || m == 11 {
        30
    } else {
        31
    }
}

impl DateTime {
    /// A real calendar date with a four-digit year and a valid time of
    /// day.
    pub open spec fn valid(self) -> bool {
        &&& self.year <= 9999
        &&& 1 <= self.month <= 12
        &&& 1 <= self.day <= days_in_month(self.year as int, self.month as int)
        &&& self.hour <= 23
        &&& self.minute <= 59
        &&& self.second <= 59
    }
}

/// The lower-case code point of an ASCII letter; other characters fold to
/// themselves.
pub open spec fn fold_lower(c: char) -> int {
    if 65 <= c as int <= 90 {
        c as int + 32
    } else {
        c as int
    }
}

/// The month a three-letter name denotes, letter case ignored.
pub open spec fn month_of_name(a: char, b: char, c: char) -> Option<u32> {
    let x = fold_lower(a);
    let y = fold_lower(b);
    let z = fold_lower(c);
    if x == 'j' as int && y == 'a' as int && z == 'n' as int {
        Some(1u32)
    } else if x == 'f' as int && y == 'e' as int && z == 'b' as int {
        Some(2u32)
    } else if x == 'm' as int && y == 'a' as int && z == 'r' as int {
        Some(3u32)
    } else if x == 'a' as int && y == 'p' as int && z == 'r' as int {
        Some(4u32)
    } else if x == 'm' as int && y == 'a' as int && z == 'y' as int {
        Some(5u32)
    } else if x == 'j' as int && y == 'u' as int && z == 'n' as int {
        Some(6u32)
    } else if x == 'j' as int && y == 'u' as int && z == 'l' as int {
        Some(7u32)
    } else if x == 'a' as int && y == 'u' as int && z == 'g' as int {
        Some(8u32)
    } else if x == 's' as int && y == 'e' as int && z == 'p' as int {
        Some(9u32)
    } else if x == 'o' as int && y == 'c' as int && z == 't' as int {
        Some(10u32)
    } else if x == 'n' as int && y == 'o' as int && z == 'v' as int {
        Some(11u32)
    } else if x == 'd' as int && y == 'e' as int && z == 'c' as int {
        Some(12u32)
    } else {
        None
    }
}

/// Fold one character to lower case, ASCII letters only.
fn lower_char_code(c: char) -> (r: u32)
    ensures
        r == fold_lower(c),
{
    let v = c as u32;
    if 65 <= v && v <= 90 {
        v + 32
    } else {
        v
    }
}

/// Match a three-letter month name, letter case ignored.
pub fn month_from_name(a: char, b: char, c: char) -> (m: Option<u32>)
    ensures
        m == month_of_name(a, b, c),
{
    let x = lower_char_code(a);
    let y = lower_char_code(b);
    let z = lower_char_code(c);
    if x == 106 && y == 97 && z == 110 {
        Some(1)
    } else if x == 102 && y == 101 && z == 98 {
        Some(2)
    } else if x == 109 && y == 97 && z == 114 {
        Some(3)
    } else if x == 97 && y == 112 && z == 114 {
        Some(4)
    } else if x == 109 && y == 97 && z == 121 {
        Some(5)
    } else if x == 106 && y == 117 && z == 110 {
        Some(6)
    } else if x == 106 && y == 117 && z == 108 {
        Some(7)
    } else if x == 97 && y == 117 && z == 103 {
        Some(8)
    } else if x == 115 && y == 101 && z == 112 {
        Some(9)
    } else if x == 111 && y == 99 && z == 116 {
        Some(10)
    } else if x == 110 && y == 111 && z == 118 {
        Some(11)
    } else if x == 100 && y == 101 && z == 99 {
        Some(12)
    } else {
        None
    }
}

/// The value of the digit character at `i`.
pub open spec fn digit_at(s: Seq<char>, i: int) -> int {
    s[i] as int - 48
}

/// Both characters at `i` and `i + 1` are digits.
pub open spec fn two_digits_at(s: Seq<char>, i: int) -> bool {
    is_digit(s[i]) && is_digit(s[i + 1])
}

/// The two-digit number at `i`.
pub open spec fn value2_at(s: Seq<char>, i: int) -> int {
    10 * digit_at(s, i) + digit_at(s, i + 1)
}

/// The shape of a well-formed line timestamp: `YYYY Mon DD HH:MM:SS`,
/// exactly twenty characters.
pub open spec fn timestamp_shape(s: Seq<char>) -> bool {
    &&& s.len() == 20
    &&& is_digit(s[0]) && is_digit(s[1]) && is_digit(s[2]) && is_digit(s[3])
    &&& s[4] == ' '
    &&& month_of_name(s[5], s[6], s[7]) is Some
    &&& s[8] == ' '
    &&& two_digits_at(s, 9)
    &&& s[11] == ' '
    &&& two_digits_at(s, 12)
    &&& s[14] == ':'
    &&& two_digits_at(s, 15)
    &&& s[17] == ':'
    &&& two_digits_at(s, 18)
}

/// The date-time a well-shaped timestamp denotes, before range checks.
pub open spec fn timestamp_fields(s: Seq<char>) -> DateTime {
    DateTime {
        year: (1000 * digit_at(s, 0) + 100 * digit_at(s, 1) + 10 * digit_at(s, 2) + digit_at(
            s,
            3,
        )) as u32,
        month: month_of_name(s[5], s[6], s[7])->Some_0,
        day: value2_at(s, 9) as u32,
        hour: value2_at(s, 12) as u32,
        minute: value2_at(s, 15) as u32,
        second: value2_at(s, 18) as u32,
    }
}

/// What a timestamp string parses to: the denoted date-time when the
/// shape is right and the fields are a real calendar date and time of
/// day, nothing otherwise.
pub open spec fn timestamp_spec(s: Seq<char>) -> Option<DateTime> {
    if timestamp_shape(s) && timestamp_fields(s).valid() {
        Some(timestamp_fields(s))
    } else {
        None
    }
}

/// Read the two-digit number at `i`.
fn parse2(s: &str, i: usize) -> (r: Option<u32>)
    requires
        i + 2 <= s@.len(),
        s@.len() <= usize::MAX,
    ensures
        r is Some <==> two_digits_at(s@, i as int),
        r matches Some(v) ==> v == value2_at(s@, i as int) && v <= 99,
{
    let c0 = s.get_char(i);
    let c1 = s.get_char(i + 1);
    let v0 = c0 as u32;
    let v1 = c1 as u32;
    if 48 <= v0 && v0 <= 57 && 48 <= v1 && v1 <= 57 {
        Some(10 * (v0 - 48) + (v1 - 48))
    } else {
        None
    }
}

/// Parse a line timestamp in the fixed `YYYY Mon DD HH:MM:SS` format,
/// validating the calendar (month lengths, leap years) and the time of
/// day.
pub fn parse_timestamp(s: &str) -> (r: Option<DateTime>)
    ensures
        r == timestamp_spec(s@),
{
    if s.unicode_len() != 20 {
        return None;
    }
    let y = match parse2(s, 0) {
        Some(v) => v,
        None => {
            return None;
        },
    };
    let y2 = match parse2(s, 2) {
        Some(v) => v,
        None => {
            return None;
        },
    };
    let year = 100 * y + y2;
    if s.get_char(4) != ' ' {
        return None;
    }
    let month = match month_from_name(s.get_char(5), s.get_char(6), s.get_char(7)) {
        Some(m) => m,
        None => {
            return None;
        },
    };
    if s.get_char(8) != ' ' {
        return None;
    }
    let day = match parse2(s, 9) {
        Some(v) => v,
        None => {
            return None;
        },
    };
    if s.get_char(11) != ' ' {
        return None;
    }
    let hour = match parse2(s, 12) {
        Some(v) => v,
        None => {
            return None;
        },
    };
    if s.get_char(14) != ':' {
        return None;
    }
    let minute = match parse2(s, 15) {
        Some(v) => v,
        None => {
            return None;
        },
    };
    if s.get_char(17) != ':' {
        return None;
    }
    let second = match parse2(s, 18) {
        Some(v) => v,
        None => {
            return None;
        },
    };
    let dt = DateTime { year, month, day, hour, minute, second };
    proof {
        assert(timestamp_shape(s@));
        assert(dt == timestamp_fields(s@));
    }
    if day < 1 || day > days_in_month_exec(year, month) || hour > 23 || minute > 59 || second
        > 59 {
        return None;
    }
    Some(dt)
}

/// Days in a month of a given year.
pub fn days_in_month_exec(year: u32, month: u32) -> (d: u32)
    requires
        1 <= month <= 12,
    ensures
        d == days_in_month(year as int, month as int),
{
    if month == 2 {
        if (year % 4 == 0 && year % 100 != 0) || year % 400 == 0 {
            29
        } else {
            28
        }
    } else if month == 4 || month == 6 || month == 9 || month == 11 {
        30
    } else {
        31
    }
}

/// A two-digit number is recomposed from its zero-padded digits.
proof fn lemma_recompose2(n: int)
    requires
        0 <= n <= 99,
    ensures
        10 * ((n / 10) % 10) + n % 10 == n,
{
    assert((n / 10) % 10 == n / 10);
    assert(10 * (n / 10) + n % 10 == n);
}

/// A four-digit number is recomposed from its zero-padded digits.
proof fn lemma_recompose4(n: int)
    requires
        0 <= n <= 9999,
    ensures
        1000 * ((n / 1000) % 10) + 100 * ((n / 100) % 10) + 10 * ((n / 10) % 10) + n % 10 == n,
{
    assert(1000 * ((n / 1000) % 10) + 100 * ((n / 100) % 10) + 10 * ((n / 10) % 10) + n % 10
        == n) by (nonlinear_arith)
        requires
            0 <= n <= 9999,
    ;
}

/// The two ASCII digits of a number below one hundred, zero padded.
pub open spec fn pad2_bytes(n: int) -> Seq<u8> {
    seq![(48 + (n / 10) % 10) as u8, (48 + n % 10) as u8]
}

/// The four ASCII digits of a number below ten thousand, zero padded.
pub open spec fn pad4_bytes(n: int) -> Seq<u8> {
    seq![
        (48 + (n / 1000) % 10) as u8,
        (48 + (n / 100) % 10) as u8,
        (48 + (n / 10) % 10) as u8,
        (48 + n % 10) as u8,
    ]
}

/// The `YYYY-MM-DD HH:MM:SS` rendering of a date-time, as ASCII bytes.
pub open spec fn rendered_bytes(d: DateTime) -> Seq<u8> {
    pad4_bytes(d.year as int) + seq![45u8] + pad2_bytes(d.month as int) + seq![45u8] + pad2_bytes(
        d.day as int,
    ) + seq![32u8] + pad2_bytes(d.hour as int) + seq![58u8] + pad2_bytes(d.minute as int) + seq![
        58u8,
    ] + pad2_bytes(d.second as int)
}

/// The `YYYY-MM-DD HH:MM:SS` rendering of a date-time.
pub open spec fn rendered_text(d: DateTime) -> Seq<char> {
    rendered_bytes(d).map_values(|b: u8| b as char)
}

/// The canonical three-letter name of a month, as ASCII bytes
/// (`Jan` .. `Dec`).
pub open spec fn month_name_bytes(m: int) -> Seq<u8> {
    if m == 1 {
        seq![74u8, 97u8, 110u8]
    } else if m == 2 {
        seq![70u8, 101u8, 98u8]
    } else if m == 3 {
        seq![77u8, 97u8, 114u8]
    } else if m == 4 {
        seq![65u8, 112u8, 114u8]
    } else if m == 5 {
        seq![77u8, 97u8, 121u8]
    } else if m == 6 {
        seq![74u8, 117u8, 110u8]
    } else if m == 7 {
        seq![74u8, 117u8, 108u8]
    } else if m == 8 {
        seq![65u8, 117u8, 103u8]
    } else if m == 9 {
        seq![83u8, 101u8, 112u8]
    } else if m == 10 {
        seq![79u8, 99u8, 116u8]
    } else if m == 11 {
        seq![78u8, 111u8, 118u8]
    } else {
        seq![68u8, 101u8, 99u8]
    }
}

/// The canonical month name is plain ASCII letters and parses back to
/// its month, whatever the letter case rule adds.
proof fn lemma_month_name(m: int)
    requires
        1 <= m <= 12,
    ensures
        month_name_bytes(m).len() == 3,
        forall|j: int| 0 <= j < 3 ==> 65 <= #[trigger] month_name_bytes(m)[j] <= 122,
        month_of_name(
            month_name_bytes(m)[0] as char,
            month_name_bytes(m)[1] as char,
            month_name_bytes(m)[2] as char,
        ) == Some(m as u32),
{
}

/// Append the two zero-padded digits of `n`.
fn push2(buf: &mut Vec<u8>, n: u32)
    ensures
        final(buf)@ == old(buf)@ + pad2_bytes(n as int),
{
    buf.push(48 + ((n / 10) % 10) as u8);
    buf.push(48 + (n % 10) as u8);
    proof {
        assert(final(buf)@ =~= old(buf)@ + pad2_bytes(n as int));
    }
}

impl DateTime {
    /// Render as `YYYY-MM-DD HH:MM:SS`, each field zero padded.
    #[verifier::rlimit(60)]
    pub fn to_text(&self) -> (r: String)
        requires
            self.valid(),
        ensures
            r@ == rendered_text(*self),
    {
        let mut buf: Vec<u8> = Vec::new();
        buf.push(48 + ((self.year / 1000) % 10) as u8);
        buf.push(48 + ((self.year / 100) % 10) as u8);
        push2(&mut buf, self.year);
        buf.push(45);
        push2(&mut buf, self.month);
        buf.push(45);
        push2(&mut buf, self.day);
        buf.push(32);
        push2(&mut buf, self.hour);
        buf.push(58);
        push2(&mut buf, self.minute);
        buf.push(58);
        push2(&mut buf, self.second);
        proof {
            assert(buf@ =~= rendered_bytes(*self));
            assert forall|i: int| 0 <= i < buf@.len() implies #[trigger] buf@[i] < 128 by {
            }
            lemma_decode_ascii(buf@);
            assert(Seq::new(buf@.len(), |i: int| buf@[i] as char) =~= rendered_text(*self));
        }
        lossy_string(buf.as_slice())
    }

    /// Render in the text backend's own line format, `YYYY Mon DD
    /// HH:MM:SS`.
    #[verifier::rlimit(60)]
    pub fn to_line_text(&self) -> (r: String)
        requires
            self.valid(),
        ensures
            r@ == stamp_text(*self),
    {
        let mut buf: Vec<u8> = Vec::new();
        buf.push(48 + ((self.year / 1000) % 10) as u8);
        buf.push(48 + ((self.year / 100) % 10) as u8);
        push2(&mut buf, self.year);
        buf.push(32);
        push_month_name(&mut buf, self.month);
        buf.push(32);
        push2(&mut buf, self.day);
        buf.push(32);
        push2(&mut buf, self.hour);
        buf.push(58);
        push2(&mut buf, self.minute);
        buf.push(58);
        push2(&mut buf, self.second);
        proof {
            lemma_month_name(self.month as int);
            assert(buf@ =~= stamp_bytes(*self));
            assert forall|i: int| 0 <= i < buf@.len() implies #[trigger] buf@[i] < 128 by {
            }
            lemma_decode_ascii(buf@);
            assert(Seq::new(buf@.len(), |i: int| buf@[i] as char) =~= stamp_text(*self));
        }
        lossy_string(buf.as_slice())
    }
}

/// Append the canonical three-letter month name.
fn push_month_name(buf: &mut Vec<u8>, m: u32)
    requires
        1 <= m <= 12,
    ensures
        final(buf)@ == old(buf)@ + month_name_bytes(m as int),
{
    if m == 1 {
        buf.push(74);
        buf.push(97);
        buf.push(110);
    } else if m == 2 {
        buf.push(70);
        buf.push(101);
        buf.push(98);
    } else if m == 3 {
        buf.push(77);
        buf.push(97);
        buf.push(114);
    } else if m == 4 {
        buf.push(65);
        buf.push(112);
        buf.push(114);
    } else if m == 5 {
        buf.push(77);
        buf.push(97);
        buf.push(121);
    } else if m == 6 {
        buf.push(74);
        buf.push(117);
        buf.push(110);
    } else if m == 7 {
        buf.push(74);
        buf.push(117);
        buf.push(108);
    } else if m == 8 {
        buf.push(65);
        buf.push(117);
        buf.push(103);
    } else if m == 9 {
        buf.push(83);
        buf.push(101);
        buf.push(112);
    } else if m == 10 {
        buf.push(79);
        buf.push(99);
        buf.push(116);
    } else if m == 11 {
        buf.push(78);
        buf.push(111);
        buf.push(118);
    } else {
        buf.push(68);
        buf.push(101);
        buf.push(99);
    }
    proof {
        assert(buf@ =~= old(buf)@ + month_name_bytes(m as int));
    }
}

/// The line-format rendering `YYYY Mon DD HH:MM:SS` of a date-time, as
/// ASCII bytes.
pub open spec fn stamp_bytes(d: DateTime) -> Seq<u8> {
    pad4_bytes(d.year as int) + seq![32u8] + month_name_bytes(d.month as int) + seq![32u8]
        + pad2_bytes(d.day as int) + seq![32u8] + pad2_bytes(d.hour as int) + seq![58u8]
        + pad2_bytes(d.minute as int) + seq![58u8] + pad2_bytes(d.second as int)
}

/// The line-format rendering of a date-time.
pub open spec fn stamp_text(d: DateTime) -> Seq<char> {
    stamp_bytes(d).map_values(|b: u8| b as char)
}

/// Round trip over the line format: rendering a date-time and parsing
/// the timestamp back yields the same date-time; no rendered character
/// is a comma, so the stamp survives the line's field split intact.
#[verifier::rlimit(100)]
pub proof fn lemma_stamp_round_trip(d: DateTime)
    requires
        d.valid(),
    ensures
        stamp_text(d).len() == 20,
        timestamp_spec(stamp_text(d)) == Some(d),
        forall|i: int| 0 <= i < 20 ==> #[trigger] stamp_text(d)[i] != ',',
{
    let b = stamp_bytes(d);
    let s = stamp_text(d);
    lemma_month_name(d.month as int);
    assert(b.len() == 20);
    assert forall|i: int| 0 <= i < 20 implies #[trigger] s[i] == b[i] as char by {
    }
    assert(b[0] == (48 + (d.year as int / 1000) % 10) as u8);
    assert(b[1] == (48 + (d.year as int / 100) % 10) as u8);
    assert(b[2] == (48 + (d.year as int / 10) % 10) as u8);
    assert(b[3] == (48 + d.year as int % 10) as u8);
    assert(b[4] == 32u8);
    assert(b[5] == month_name_bytes(d.month as int)[0]);
    assert(b[6] == month_name_bytes(d.month as int)[1]);
    assert(b[7] == month_name_bytes(d.month as int)[2]);
    assert(b[8] == 32u8);
    assert(b[9] == (48 + (d.day as int / 10) % 10) as u8);
    assert(b[10] == (48 + d.day as int % 10) as u8);
    assert(b[11] == 32u8);
    assert(b[12] == (48 + (d.hour as int / 10) % 10) as u8);
    assert(b[13] == (48 + d.hour as int % 10) as u8);
    assert(b[14] == 58u8);
    assert(b[15] == (48 + (d.minute as int / 10) % 10) as u8);
    assert(b[16] == (48 + d.minute as int % 10) as u8);
    assert(b[17] == 58u8);
    assert(b[18] == (48 + (d.second as int / 10) % 10) as u8);
    assert(b[19] == (48 + d.second as int % 10) as u8);
    assert(s[4] == ' ' && s[8] == ' ' && s[11] == ' ');
    assert(s[14] == ':' && s[17] == ':');
    assert(month_of_name(s[5], s[6], s[7]) == Some(d.month));
    assert(timestamp_shape(s));
    lemma_recompose4(d.year as int);
    lemma_recompose2(d.day as int);
    lemma_recompose2(d.hour as int);
    lemma_recompose2(d.minute as int);
    lemma_recompose2(d.second as int);
    assert(timestamp_fields(s).year == d.year);
    assert(timestamp_fields(s).month == d.month);
    assert(timestamp_fields(s).day == d.day);
    assert(timestamp_fields(s).hour == d.hour);
    assert(timestamp_fields(s).minute == d.minute);
    assert(timestamp_fields(s).second == d.second);
    assert(timestamp_fields(s) == d);
    assert forall|i: int| 0 <= i < 20 implies #[trigger] s[i] != ',' by {
        assert(s[i] == b[i] as char);
        if s[i] == ',' {
            assert(b[i] as int == 44);
        }
    }
}

} // verus!
