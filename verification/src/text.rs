//! Verified text handling: decimal formatting, the canonical date, time and
//! span labels, date parsing, JSON string escaping, and substring search.
//!
//! Every formatter is specified by a spec-level character sequence, so
//! callers can state exactly which string a value prints as.

use vstd::prelude::*;
use crate::calendar::Date;

verus! {

/// The character for one decimal digit value.
pub open spec fn digit_char(d: int) -> char {
    if d == 0 {
        '0'
    } else if d == 1 {
        '1'
    } else if d == 2 {
        '2'
    } else if d == 3 {
        '3'
    } else if d == 4 {
        '4'
    } else if d == 5 {
        '5'
    } else if d == 6 {
        '6'
    } else if d == 7 {
        '7'
    } else if d == 8 {
        '8'
    } else {
        '9'
    }
}

/// Decimal digits of `n`, most significant first, no leading zeros
/// (a single `'0'` for zero).
pub open spec fn dec_seq(n: int) -> Seq<char>
    decreases n,
{
    if n < 10 {
        seq![digit_char(n)]
    } else {
        dec_seq(n / 10) + seq![digit_char(n % 10)]
    }
}

/// Two decimal digits, zero padded.
pub open spec fn two_digit_seq(n: int) -> Seq<char> {
    seq![digit_char(n / 10), digit_char(n % 10)]
}

/// Four decimal digits, zero padded.
pub open spec fn four_digit_seq(n: int) -> Seq<char> {
    seq![
        digit_char(n / 1000),
        digit_char((n / 100) % 10),
        digit_char((n / 10) % 10),
        digit_char(n % 10),
    ]
}

/// The canonical `YYYY-MM-DD` form of a date.
pub open spec fn date_string_of(d: Date) -> Seq<char> {
    four_digit_seq(d.year as int) + seq!['-'] + two_digit_seq(d.month as int) + seq!['-']
        + two_digit_seq(d.day as int)
}

/// The `HH:MM:SS` form of a second-of-day.
pub open spec fn time_string_of(sec: int) -> Seq<char> {
    two_digit_seq(sec / 3600) + seq![':'] + two_digit_seq((sec % 3600) / 60) + seq![':']
        + two_digit_seq(sec % 60)
}

/// The `"{h}h {m}m"` label of a span length in seconds, hours and minutes
/// both truncating toward zero.
pub open spec fn span_label_of(total_seconds: int) -> Seq<char> {
    dec_seq(total_seconds / 3600) + seq!['h', ' '] + dec_seq((total_seconds % 3600) / 60) + seq![
        'm',
    ]
}

fn push_digit(s: &mut String, d: u8)
    requires
        d < 10,
    ensures
        final(s)@ == old(s)@ + seq![digit_char(d as int)],
{
    let lit: &str = match d {
        0 => "0",
        1 => "1",
        2 => "2",
        3 => "3",
        4 => "4",
        5 => "5",
        6 => "6",
        7 => "7",
        8 => "8",
        _ => "9",
    };
    proof {
        reveal_strlit("0");
        reveal_strlit("1");
        reveal_strlit("2");
        reveal_strlit("3");
        reveal_strlit("4");
        reveal_strlit("5");
        reveal_strlit("6");
        reveal_strlit("7");
        reveal_strlit("8");
        reveal_strlit("9");
    }
    s.append(lit);
}

fn push_dec(s: &mut String, n: u64)
    ensures
        final(s)@ == old(s)@ + dec_seq(n as int),
    decreases n,
{
    if n >= 10 {
        push_dec(s, n / 10);
    }
    push_digit(s, (n % 10) as u8);
}

fn push_two_digits(s: &mut String, n: u8)
    requires
        n < 100,
    ensures
        final(s)@ == old(s)@ + two_digit_seq(n as int),
{
    push_digit(s, n / 10);
    push_digit(s, n % 10);
}

/// Render `n` in decimal, most significant digit first.
pub fn decimal_string(n: u64) -> (r: String)
    ensures
        r@ == dec_seq(n as int),
{
    let mut s = String::new();
    push_dec(&mut s, n);
    s
}

/// Render a date as `YYYY-MM-DD`.
pub fn format_date(d: &Date) -> (r: String)
    requires
        d.valid(),
    ensures
        r@ == date_string_of(*d),
{
    let mut s = String::new();
    push_digit(&mut s, (d.year / 1000) as u8);
    push_digit(&mut s, ((d.year / 100) % 10) as u8);
    push_digit(&mut s, ((d.year / 10) % 10) as u8);
    push_digit(&mut s, (d.year % 10) as u8);
    proof {
        reveal_strlit("-");
    }
    s.append("-");
    push_two_digits(&mut s, d.month);
    s.append("-");
    push_two_digits(&mut s, d.day);
    proof {
        assert(s@ =~= date_string_of(*d));
    }
    s
}

/// Render a second-of-day as `HH:MM:SS`.
pub fn format_time_of_day(sec: u32) -> (r: String)
    requires
        sec < 86400,
    ensures
        r@ == time_string_of(sec as int),
{
    let mut s = String::new();
    push_two_digits(&mut s, (sec / 3600) as u8);
    proof {
        reveal_strlit(":");
    }
    s.append(":");
    push_two_digits(&mut s, ((sec % 3600) / 60) as u8);
    s.append(":");
    push_two_digits(&mut s, (sec % 60) as u8);
    proof {
        assert(s@ =~= time_string_of(sec as int));
    }
    s
}

/// Render a span length as `"{h}h {m}m"`.
pub fn span_label(total_seconds: u64) -> (r: String)
    ensures
        r@ == span_label_of(total_seconds as int),
{
    let mut s = String::new();
    push_dec(&mut s, total_seconds / 3600);
    proof {
        reveal_strlit("h ");
        reveal_strlit("m");
    }
    s.append("h ");
    push_dec(&mut s, (total_seconds % 3600) / 60);
    s.append("m");
    proof {
        assert(s@ =~= span_label_of(total_seconds as int));
    }
    s
}

/// `c` is one of the ten decimal digit characters.
pub open spec fn is_decimal_digit(c: char) -> bool {
    c == '0' || c == '1' || c == '2' || c == '3' || c == '4' || c == '5' || c == '6' || c == '7'
        || c == '8' || c == '9'
}

/// The digit characters are exactly the decimal digits.
proof fn lemma_digit_char_decimal(k: int)
    requires
        0 <= k < 10,
    ensures
        is_decimal_digit(digit_char(k)),
{
}

/// Distinct digit values print as distinct characters.
proof fn lemma_digit_char_injective(x: int, y: int)
    requires
        0 <= x < 10,
        0 <= y < 10,
        digit_char(x) == digit_char(y),
    ensures
        x == y,
{
}

/// The value of one decimal digit character, `None` for any other char.
pub fn digit_value(c: char) -> (r: Option<u8>)
    ensures
        match r {
            Some(v) => v < 10 && c == digit_char(v as int),
            None => !is_decimal_digit(c),
        },
{
    match c {
        '0' => Some(0),
        '1' => Some(1),
        '2' => Some(2),
        '3' => Some(3),
        '4' => Some(4),
        '5' => Some(5),
        '6' => Some(6),
        '7' => Some(7),
        '8' => Some(8),
        '9' => Some(9),
        _ => None,
    }
}

/// The canonical date form, spelled out character by character.
proof fn lemma_date_string_chars(d: Date)
    requires
        d.valid(),
    ensures
        date_string_of(d) =~= seq![
            digit_char(d.year as int / 1000),
            digit_char((d.year as int / 100) % 10),
            digit_char((d.year as int / 10) % 10),
            digit_char(d.year as int % 10),
            '-',
            digit_char(d.month as int / 10),
            digit_char(d.month as int % 10),
            '-',
            digit_char(d.day as int / 10),
            digit_char(d.day as int % 10),
        ],
{
}

/// A number below ten thousand is recovered from its four zero-padded digits.
proof fn lemma_four_digit_value(n: int)
    requires
        0 <= n < 10000,
    ensures
        n == 1000 * (n / 1000) + 100 * ((n / 100) % 10) + 10 * ((n / 10) % 10) + n % 10,
{
    vstd::arithmetic::div_mod::lemma_small_mod(n as nat, 10000);
    vstd::arithmetic::div_mod::lemma_breakdown(n, 1000, 10);
    vstd::arithmetic::div_mod::lemma_breakdown(n, 100, 10);
    vstd::arithmetic::div_mod::lemma_breakdown(n, 10, 10);
    assert((n / 1000) % 10 == n / 1000) by {
        vstd::arithmetic::div_mod::lemma_div_is_ordered(n, 9999, 1000);
        vstd::arithmetic::div_mod::lemma_div_pos_is_pos(n, 1000);
        vstd::arithmetic::div_mod::lemma_small_mod((n / 1000) as nat, 10);
    }
}

/// A number below one hundred is recovered from its two zero-padded digits.
proof fn lemma_two_digit_value(n: int)
    requires
        0 <= n < 100,
    ensures
        n == 10 * (n / 10) + n % 10,
{
    vstd::arithmetic::div_mod::lemma_fundamental_div_mod(n, 10);
}

/// For a valid date, each printed position is a digit value in range.
proof fn lemma_date_digit_ranges(d: Date)
    requires
        d.valid(),
    ensures
        0 <= d.year as int / 1000 < 10,
        0 <= (d.year as int / 100) % 10 < 10,
        0 <= (d.year as int / 10) % 10 < 10,
        0 <= d.year as int % 10 < 10,
        0 <= d.month as int / 10 < 10,
        0 <= d.month as int % 10 < 10,
        0 <= d.day as int / 10 < 10,
        0 <= d.day as int % 10 < 10,
{
}

/// A sequence that fails the `YYYY-MM-DD` shape test is no valid date's
/// canonical form.
proof fn lemma_not_date_shape(s: Seq<char>)
    requires
        !(s.len() == 10 && s[4] == '-' && s[7] == '-' && is_decimal_digit(s[0])
            && is_decimal_digit(s[1]) && is_decimal_digit(s[2]) && is_decimal_digit(s[3])
            && is_decimal_digit(s[5]) && is_decimal_digit(s[6]) && is_decimal_digit(s[8])
            && is_decimal_digit(s[9])),
    ensures
        forall|d: Date| d.valid() ==> s != date_string_of(d),
{
    assert forall|d: Date| d.valid() implies s != date_string_of(d) by {
        if s == date_string_of(d) {
            lemma_date_string_chars(d);
            lemma_date_digit_ranges(d);
            lemma_digit_char_decimal(d.year as int / 1000);
            lemma_digit_char_decimal((d.year as int / 100) % 10);
            lemma_digit_char_decimal((d.year as int / 10) % 10);
            lemma_digit_char_decimal(d.year as int % 10);
            lemma_digit_char_decimal(d.month as int / 10);
            lemma_digit_char_decimal(d.month as int % 10);
            lemma_digit_char_decimal(d.day as int / 10);
            lemma_digit_char_decimal(d.day as int % 10);
        }
    }
}

/// A valid date whose canonical form shows the given digit characters has
/// exactly the fields those digits spell.
proof fn lemma_date_string_fixes_fields(
    d: Date,
    a0: int,
    a1: int,
    a2: int,
    a3: int,
    b0: int,
    b1: int,
    c0: int,
    c1: int,
)
    requires
        d.valid(),
        0 <= a0 < 10 && 0 <= a1 < 10 && 0 <= a2 < 10 && 0 <= a3 < 10,
        0 <= b0 < 10 && 0 <= b1 < 10 && 0 <= c0 < 10 && 0 <= c1 < 10,
        date_string_of(d)[0] == digit_char(a0),
        date_string_of(d)[1] == digit_char(a1),
        date_string_of(d)[2] == digit_char(a2),
        date_string_of(d)[3] == digit_char(a3),
        date_string_of(d)[5] == digit_char(b0),
        date_string_of(d)[6] == digit_char(b1),
        date_string_of(d)[8] == digit_char(c0),
        date_string_of(d)[9] == digit_char(c1),
    ensures
        d.year as int == 1000 * a0 + 100 * a1 + 10 * a2 + a3,
        d.month as int == 10 * b0 + b1,
        d.day as int == 10 * c0 + c1,
{
    lemma_date_string_chars(d);
    lemma_date_digit_ranges(d);
    lemma_digit_char_injective(d.year as int / 1000, a0);
    lemma_digit_char_injective((d.year as int / 100) % 10, a1);
    lemma_digit_char_injective((d.year as int / 10) % 10, a2);
    lemma_digit_char_injective(d.year as int % 10, a3);
    lemma_digit_char_injective(d.month as int / 10, b0);
    lemma_digit_char_injective(d.month as int % 10, b1);
    lemma_digit_char_injective(d.day as int / 10, c0);
    lemma_digit_char_injective(d.day as int % 10, c1);
    lemma_four_digit_value(d.year as int);
    lemma_two_digit_value(d.month as int);
    lemma_two_digit_value(d.day as int);
}

/// A ten-character sequence spelling the given digits around two dashes
/// is exactly the canonical form of the date those digits spell.
proof fn lemma_date_string_from_digits(
    d: Date,
    s: Seq<char>,
    a0: int,
    a1: int,
    a2: int,
    a3: int,
    b0: int,
    b1: int,
    c0: int,
    c1: int,
)
    requires
        d.valid(),
        0 <= a0 < 10 && 0 <= a1 < 10 && 0 <= a2 < 10 && 0 <= a3 < 10,
        0 <= b0 < 10 && 0 <= b1 < 10 && 0 <= c0 < 10 && 0 <= c1 < 10,
        d.year as int == 1000 * a0 + 100 * a1 + 10 * a2 + a3,
        d.month as int == 10 * b0 + b1,
        d.day as int == 10 * c0 + c1,
        s.len() == 10,
        s[0] == digit_char(a0),
        s[1] == digit_char(a1),
        s[2] == digit_char(a2),
        s[3] == digit_char(a3),
        s[4] == '-',
        s[5] == digit_char(b0),
        s[6] == digit_char(b1),
        s[7] == '-',
        s[8] == digit_char(c0),
        s[9] == digit_char(c1),
    ensures
        s == date_string_of(d),
{
    lemma_date_string_chars(d);
    let y = d.year as int;
    vstd::arithmetic::div_mod::lemma_fundamental_div_mod_converse(
        y,
        1000,
        a0,
        100 * a1 + 10 * a2 + a3,
    );
    vstd::arithmetic::div_mod::lemma_fundamental_div_mod_converse(
        y,
        100,
        10 * a0 + a1,
        10 * a2 + a3,
    );
    vstd::arithmetic::div_mod::lemma_fundamental_div_mod_converse(
        y,
        10,
        100 * a0 + 10 * a1 + a2,
        a3,
    );
    vstd::arithmetic::div_mod::lemma_fundamental_div_mod_converse(10 * a0 + a1, 10, a0, a1);
    vstd::arithmetic::div_mod::lemma_fundamental_div_mod_converse(
        100 * a0 + 10 * a1 + a2,
        10,
        10 * a0 + a1,
        a2,
    );
    assert(d.year as int / 1000 == a0);
    assert((d.year as int / 100) % 10 == a1);
    assert((d.year as int / 10) % 10 == a2);
    assert(d.year as int % 10 == a3);
    vstd::arithmetic::div_mod::lemma_fundamental_div_mod_converse(d.month as int, 10, b0, b1);
    vstd::arithmetic::div_mod::lemma_fundamental_div_mod_converse(d.day as int, 10, c0, c1);
    assert(s =~= date_string_of(d));
}

/// The canonical form determines the date: two valid dates printing the
/// same text are the same date.
pub proof fn lemma_date_string_injective(d1: Date, d2: Date)
    requires
        d1.valid(),
        d2.valid(),
        date_string_of(d1) == date_string_of(d2),
    ensures
        d1 == d2,
{
    lemma_date_string_chars(d2);
    lemma_date_digit_ranges(d2);
    lemma_date_string_fixes_fields(
        d1,
        d2.year as int / 1000,
        (d2.year as int / 100) % 10,
        (d2.year as int / 10) % 10,
        d2.year as int % 10,
        d2.month as int / 10,
        d2.month as int % 10,
        d2.day as int / 10,
        d2.day as int % 10,
    );
    lemma_four_digit_value(d2.year as int);
    lemma_two_digit_value(d2.month as int);
    lemma_two_digit_value(d2.day as int);
}

/// Parse the canonical `YYYY-MM-DD` form. Returns the unique valid date
/// that prints as `s`, or `None` when no valid date does.
#[verifier::rlimit(50)]
pub fn parse_date(s: &str) -> (r: Option<Date>)
    ensures
        match r {
            Some(d) => d.valid() && s@ == date_string_of(d),
            None => forall|d: Date| d.valid() ==> s@ != date_string_of(d),
        },
{
    let n = s.unicode_len();
    if n != 10 {
        proof {
            lemma_not_date_shape(s@);
        }
        return None;
    }
    let y0 = digit_value(s.get_char(0));
    let y1 = digit_value(s.get_char(1));
    let y2 = digit_value(s.get_char(2));
    let y3 = digit_value(s.get_char(3));
    let dash1 = s.get_char(4) == '-';
    let m0 = digit_value(s.get_char(5));
    let m1 = digit_value(s.get_char(6));
    let dash2 = s.get_char(7) == '-';
    let d0 = digit_value(s.get_char(8));
    let d1 = digit_value(s.get_char(9));
    let shape_ok = dash1 && dash2 && y0.is_some() && y1.is_some() && y2.is_some() && y3.is_some()
        && m0.is_some() && m1.is_some() && d0.is_some() && d1.is_some();
    if !shape_ok {
        proof {
            lemma_not_date_shape(s@);
        }
        return None;
    }
    let year: u16 = 1000 * (y0.unwrap() as u16) + 100 * (y1.unwrap() as u16) + 10 * (y2.unwrap()
        as u16) + y3.unwrap() as u16;
    let month: u8 = 10 * m0.unwrap() + m1.unwrap();
    let day: u8 = 10 * d0.unwrap() + d1.unwrap();
    let parsed = Date { year, month, day };
    if crate::calendar::date_valid(&parsed) {
        proof {
            lemma_date_string_from_digits(
                parsed,
                s@,
                y0.unwrap() as int,
                y1.unwrap() as int,
                y2.unwrap() as int,
                y3.unwrap() as int,
                m0.unwrap() as int,
                m1.unwrap() as int,
                d0.unwrap() as int,
                d1.unwrap() as int,
            );
        }
        Some(parsed)
    } else {
        proof {
            assert forall|d: Date| d.valid() implies s@ != date_string_of(d) by {
                if s@ == date_string_of(d) {
                    lemma_date_string_fixes_fields(
                        d,
                        y0.unwrap() as int,
                        y1.unwrap() as int,
                        y2.unwrap() as int,
                        y3.unwrap() as int,
                        m0.unwrap() as int,
                        m1.unwrap() as int,
                        d0.unwrap() as int,
                        d1.unwrap() as int,
                    );
                    assert(d == parsed);
                }
            }
        }
        None
    }
}

/// The character for one hexadecimal digit value, lower case.
pub open spec fn hex_char(d: int) -> char {
    if d < 10 {
        digit_char(d)
    } else if d == 10 {
        'a'
    } else if d == 11 {
        'b'
    } else if d == 12 {
        'c'
    } else if d == 13 {
        'd'
    } else if d == 14 {
        'e'
    } else {
        'f'
    }
}

/// How one character is written inside a JSON string literal: quote and
/// backslash get a backslash escape, control characters a `\u00XX` escape,
/// everything else stands as itself.
pub open spec fn json_escaped_char(c: char) -> Seq<char> {
    if c == '"' {
        seq!['\\', '"']
    } else if c == '\\' {
        seq!['\\', '\\']
    } else if (c as u32) < 32 {
        seq!['\\', 'u', '0', '0', hex_char(c as u32 as int / 16), hex_char(c as u32 as int % 16)]
    } else {
        seq![c]
    }
}

/// A whole character sequence written inside a JSON string literal.
pub open spec fn json_escaped(s: Seq<char>) -> Seq<char>
    decreases s.len(),
{
    if s.len() == 0 {
        Seq::empty()
    } else {
        json_escaped(s.drop_last()) + json_escaped_char(s.last())
    }
}

/// Relies on std's `String::push`: appends exactly the given character.
#[verifier::external_body]
fn push_char(s: &mut String, c: char)
    ensures
        final(s)@ == old(s)@ + seq![c],
{
    s.push(c);
}

fn push_hex_digit(s: &mut String, d: u8)
    requires
        d < 16,
    ensures
        final(s)@ == old(s)@ + seq![hex_char(d as int)],
{
    if d < 10 {
        push_digit(s, d);
    } else {
        let lit: &str = match d {
            10 => "a",
            11 => "b",
            12 => "c",
            13 => "d",
            14 => "e",
            _ => "f",
        };
        proof {
            reveal_strlit("a");
            reveal_strlit("b");
            reveal_strlit("c");
            reveal_strlit("d");
            reveal_strlit("e");
            reveal_strlit("f");
        }
        s.append(lit);
    }
}

fn push_json_escaped_char(s: &mut String, c: char)
    ensures
        final(s)@ == old(s)@ + json_escaped_char(c),
{
    if c == '"' {
        proof {
            reveal_strlit("\\\"");
        }
        s.append("\\\"");
        proof {
            assert(final(s)@ =~= old(s)@ + json_escaped_char(c));
        }
    } else if c == '\\' {
        proof {
            reveal_strlit("\\\\");
        }
        s.append("\\\\");
        proof {
            assert(final(s)@ =~= old(s)@ + json_escaped_char(c));
        }
    } else if (c as u32) < 32 {
        proof {
            reveal_strlit("\\u00");
        }
        s.append("\\u00");
        let code = c as u32;
        push_hex_digit(s, (code / 16) as u8);
        push_hex_digit(s, (code % 16) as u8);
        proof {
            assert(final(s)@ =~= old(s)@ + json_escaped_char(c));
        }
    } else {
        push_char(s, c);
        proof {
            assert(final(s)@ =~= old(s)@ + json_escaped_char(c));
        }
    }
}

/// Append `t`, escaped for use inside a JSON string literal.
pub fn push_json_escaped(s: &mut String, t: &str)
    ensures
        final(s)@ == old(s)@ + json_escaped(t@),
{
    let n = t.unicode_len();
    let mut i: usize = 0;
    while i < n
        invariant
            i <= n,
            n == t@.len(),
            s@ == old(s)@ + json_escaped(t@.subrange(0, i as int)),
        decreases n - i,
    {
        let c = t.get_char(i);
        push_json_escaped_char(s, c);
        proof {
            assert(t@.subrange(0, i + 1 as int).drop_last() =~= t@.subrange(0, i as int));
            assert(t@.subrange(0, i + 1 as int).last() == c);
        }
        i += 1;
    }
    proof {
        assert(t@.subrange(0, n as int) =~= t@);
    }
}

/// `n` occurs in `h` starting at position `i`.
pub open spec fn contains_at(h: Seq<char>, i: int, n: Seq<char>) -> bool {
    0 <= i && i + n.len() <= h.len() && h.subrange(i, i + n.len()) == n
}

/// `n` occurs somewhere in `h`.
pub open spec fn contains_seq(h: Seq<char>, n: Seq<char>) -> bool {
    exists|i: int| contains_at(h, i, n)
}

fn match_at(h: &str, n: &str, i: usize) -> (r: bool)
    requires
        i + n@.len() <= h@.len(),
        h@.len() <= usize::MAX,
    ensures
        r == contains_at(h@, i as int, n@),
{
    let nl = n.unicode_len();
    let mut j: usize = 0;
    while j < nl
        invariant
            j <= nl,
            nl == n@.len(),
            i + nl <= h@.len(),
            h@.len() <= usize::MAX,
            forall|t: int| 0 <= t < j ==> h@[i + t] == n@[t],
        decreases nl - j,
    {
        if h.get_char(i + j) != n.get_char(j) {
            proof {
                assert(h@.subrange(i as int, i + nl as int)[j as int] == h@[i + j]);
            }
            return false;
        }
        j += 1;
    }
    proof {
        assert(h@.subrange(i as int, i + nl as int) =~= n@);
    }
    true
}

/// Whether the needle occurs anywhere in the haystack, by characters.
pub fn str_contains(h: &str, n: &str) -> (r: bool)
    ensures
        r == contains_seq(h@, n@),
{
    let hl = h.unicode_len();
    let nl = n.unicode_len();
    if nl > hl {
        return false;
    }
    if nl == 0 {
        proof {
            assert(contains_at(h@, 0, n@)) by {
                assert(h@.subrange(0, 0) =~= n@);
            }
        }
        return true;
    }
    let mut i: usize = 0;
    while i <= hl - nl
        invariant
            1 <= nl <= hl,
            hl == h@.len(),
            nl == n@.len(),
            i <= hl - nl + 1,
            forall|k: int| 0 <= k < i ==> !contains_at(h@, k, n@),
        decreases hl - nl + 1 - i,
    {
        if match_at(h, n, i) {
            proof {
                assert(contains_at(h@, i as int, n@));
            }
            return true;
        }
        i += 1;
    }
    false
}

} // verus!
