//! Dates known to a year, a month or a day, as written in the reviews file:
//! `YYYY`, `YYYY-MM` or `YYYY-MM-DD`.

use vstd::prelude::*;
use vstd::string::*;
use crate::template::{find_char, find_in};

verus! {

/// A date with some precision. Months and days count from one.
#[derive(Debug, Clone, Copy, PartialEq, Eq, Structural)]
pub enum PrecisionDate {
    Year(u32),
    Month(u32, u8),
    Day(u32, u8, u8),
}

/// Why a date was refused.
#[derive(Debug, Clone, Copy, PartialEq, Eq, Structural)]
pub enum DateError {
    /// The year is not four digits.
    YearDigits,
    /// The month is not two digits.
    MonthDigits,
    /// The month, two digits, is not from 1 to 12.
    MonthRange(u8),
    /// The day is not two digits.
    DayDigits,
    /// The day does not exist in that month.
    NotReal(u32, u8, u8),
}

pub open spec fn is_leap(y: int) -> bool {
    y % 4 == 0 && (y % 100 != 0 || y % 400 == 0)
}

/// The number of days of month `m` of year `y` in the Gregorian calendar.
pub open spec fn days_in_month(y: int, m: int) -> int {
    if m == 2 {
        if is_leap(y) {
            29
        } else {
            28
        }
    } else if m == 4 || m == 6 || m == 9 || m == 11 {
        30
    } else {
        31
    }
}

pub open spec fn is_digit(c: char) -> bool {
    '0' <= c && c <= '9'
}

/// `s` is `n` decimal digits.
pub open spec fn all_digits(s: Seq<char>, n: nat) -> bool {
    s.len() == n && forall|i: int| 0 <= i < s.len() ==> is_digit(#[trigger] s[i])
}

/// The number that the decimal digits `s` spell.
pub open spec fn digits_value(s: Seq<char>) -> nat
    decreases s.len(),
{
    if s.len() == 0 {
        0
    } else {
        digits_value(s.drop_last()) * 10 + ((s.last() as u32) - ('0' as u32)) as nat
    }
}

/// What the text `s` means as a date.
pub open spec fn parse_date(s: Seq<char>) -> Result<PrecisionDate, DateError> {
    let a = find_char(s, '-', 0);
    let year = s.subrange(0, a);
    if !all_digits(year, 4) {
        Err(DateError::YearDigits)
    } else if a >= s.len() {
        Ok(PrecisionDate::Year(digits_value(year) as u32))
    } else {
        let b = find_char(s, '-', a + 1);
        let month = s.subrange(a + 1, b);
        if !all_digits(month, 2) {
            Err(DateError::MonthDigits)
        } else if !(1 <= digits_value(month) <= 12) {
            Err(DateError::MonthRange(digits_value(month) as u8))
        } else if b >= s.len() {
            Ok(PrecisionDate::Month(digits_value(year) as u32, digits_value(month) as u8))
        } else {
            let day = s.subrange(b + 1, s.len() as int);
            if !all_digits(day, 2) {
                Err(DateError::DayDigits)
            } else if !(1 <= digits_value(day) <= days_in_month(
                digits_value(year) as int,
                digits_value(month) as int,
            )) {
                Err(
                    DateError::NotReal(
                        digits_value(year) as u32,
                        digits_value(month) as u8,
                        digits_value(day) as u8,
                    ),
                )
            } else {
                Ok(
                    PrecisionDate::Day(
                        digits_value(year) as u32,
                        digits_value(month) as u8,
                        digits_value(day) as u8,
                    ),
                )
            }
        }
    }
}

/// The value of the `n` characters of `s` from `from` on, when they are all
/// digits.
fn read_digits(s: &str, from: usize, to: usize, n: usize) -> (r: Option<u32>)
    requires
        from <= to <= s@.len(),
        n <= 4,
    ensures
        r is Some <==> all_digits(s@.subrange(from as int, to as int), n as nat),
        r is Some ==> r->Some_0 as nat == digits_value(s@.subrange(from as int, to as int)),
        r is Some ==> r->Some_0 < 10000,
{
    if to - from != n {
        return None;
    }
    let ghost sub = s@.subrange(from as int, to as int);
    let mut v: u32 = 0;
    let mut k: usize = 0;
    let ghost mut bound: nat = 1;
    while k < n
        invariant
            from <= to <= s@.len(),
            to - from == n,
            n <= 4,
            0 <= k <= n,
            sub == s@.subrange(from as int, to as int),
            forall|i: int| 0 <= i < k ==> is_digit(#[trigger] sub[i]),
            v as nat == digits_value(sub.take(k as int)),
            bound == (if k == 0 { 1nat } else if k == 1 { 10nat } else if k == 2 { 100nat } else if k == 3 { 1000nat } else { 10000nat }),
            v < bound,
        decreases n - k,
    {
        let c = s.get_char(from + k);
        assert(c == sub[k as int]);
        if !('0' <= c && c <= '9') {
            return None;
        }
        let d = (c as u32) - ('0' as u32);
        assert(sub.take(k + 1).drop_last() =~= sub.take(k as int));
        assert(d < 10);
        assert(v * 10 + d < bound * 10) by (nonlinear_arith)
            requires
                v < bound,
                d < 10,
        ;
        v = v * 10 + d;
        proof {
            bound = bound * 10;
        }
        k += 1;
    }
    assert(sub.take(n as int) =~= sub);
    Some(v)
}

impl PrecisionDate {
    /// The year of the date.
    pub fn year(self) -> (r: u32)
        ensures
            r == self.year_of(),
    {
        match self {
            PrecisionDate::Year(y) | PrecisionDate::Month(y, _) | PrecisionDate::Day(y, _, _) => y,
        }
    }

    /// Reads a date written `YYYY`, `YYYY-MM` or `YYYY-MM-DD`.
    pub fn from_str(s: &str) -> (r: Result<PrecisionDate, DateError>)
        ensures
            r == parse_date(s@),
    {
        let n = s.unicode_len();
        let a = find_in(s, '-', 0);
        let year = match read_digits(s, 0, a, 4) {
            Some(y) => y,
            None => return Err(DateError::YearDigits),
        };
        if a == n {
            return Ok(PrecisionDate::Year(year));
        }
        let b = find_in(s, '-', a + 1);
        let month = match read_digits(s, a + 1, b, 2) {
            Some(m) => m,
            None => return Err(DateError::MonthDigits),
        };
        if month < 1 || month > 12 {
            return Err(DateError::MonthRange(month as u8));
        }
        if b == n {
            return Ok(PrecisionDate::Month(year, month as u8));
        }
        let day = match read_digits(s, b + 1, n, 2) {
            Some(d) => d,
            None => return Err(DateError::DayDigits),
        };
        let leap = year % 4 == 0 && (year % 100 != 0 || year % 400 == 0);
        let days: u32 = if month == 2 {
            if leap {
                29
            } else {
                28
            }
        } else if month == 4 || month == 6 || month == 9 || month == 11 {
            30
        } else {
            31
        };
        if day < 1 || day > days {
            return Err(DateError::NotReal(year, month as u8, day as u8));
        }
        Ok(PrecisionDate::Day(year, month as u8, day as u8))
    }
}

/// The character of a decimal digit.
pub open spec fn digit_char(d: nat) -> char {
    if d == 0 {
        '0'
    } else if d == 1 {
        '1'
    } else if d == 2 {
        '2'
    } else if d == 3 {
        '3'
    } else if d == 4 {
        '4'
    } else if d == 5 {
        '5'
    } else if d == 6 {
        '6'
    } else if d == 7 {
        '7'
    } else if d == 8 {
        '8'
    } else {
        '9'
    }
}

/// `n` in decimal, with no leading zero.
pub open spec fn decimal(n: nat) -> Seq<char>
    decreases n,
{
    if n < 10 {
        seq![digit_char(n)]
    } else {
        decimal(n / 10) + seq![digit_char(n % 10)]
    }
}

/// `n` in decimal, with zeros in front up to `w` characters.
pub open spec fn padded(n: nat, w: nat) -> Seq<char> {
    let d = decimal(n);
    if d.len() < w {
        Seq::new((w - d.len()) as nat, |i: int| '0') + d
    } else {
        d
    }
}

/// How a date is written: `YYYY`, `YYYY-MM` or `YYYY-MM-DD`; in the alternate
/// form, the year alone.
pub open spec fn date_text(d: PrecisionDate, alternate: bool) -> Seq<char> {
    if alternate {
        padded(d.year_of() as nat, 4)
    } else {
        match d {
            PrecisionDate::Year(y) => padded(y as nat, 4),
            PrecisionDate::Month(y, m) => padded(y as nat, 4) + seq!['-'] + padded(m as nat, 2),
            PrecisionDate::Day(y, m, dd) => padded(y as nat, 4) + seq!['-'] + padded(m as nat, 2)
                + seq!['-'] + padded(dd as nat, 2),
        }
    }
}

fn digit_str(d: u32) -> (r: &'static str)
    requires
        d < 10,
    ensures
        r@ == seq![digit_char(d as nat)],
{
    proof {
        reveal_strlit("0");
        reveal_strlit("1");
        reveal_strlit("2");
        reveal_strlit("3");
        reveal_strlit("4");
        reveal_strlit("5");
        reveal_strlit("6");
        reveal_strlit("7");
        reveal_strlit("8");
        reveal_strlit("9");
    }
    let r = match d {
        0 => "0",
        1 => "1",
        2 => "2",
        3 => "3",
        4 => "4",
        5 => "5",
        6 => "6",
        7 => "7",
        8 => "8",
        _ => "9",
    };
    assert(r@ =~= seq![digit_char(d as nat)]);
    r
}

fn decimal_len(n: u32) -> (r: u64)
    ensures
        r == decimal(n as nat).len(),
        r <= n as u64 + 1,
    decreases n,
{
    if n < 10 {
        1
    } else {
        decimal_len(n / 10) + 1
    }
}

fn push_decimal(out: &mut String, n: u32)
    ensures
        final(out)@ == old(out)@ + decimal(n as nat),
    decreases n,
{
    if n >= 10 {
        push_decimal(out, n / 10);
    }
    out.append(digit_str(n % 10));
    assert(final(out)@ =~= old(out)@ + decimal(n as nat));
}

fn push_padded(out: &mut String, n: u32, w: usize)
    ensures
        final(out)@ == old(out)@ + padded(n as nat, w as nat),
{
    let len = decimal_len(n);
    let ghost start = out@;
    let w = w as u64;
    let mut k: u64 = len;
    while k < w
        invariant
            len == decimal(n as nat).len(),
            len <= k <= w || (k == len && len >= w),
            out@ == start + Seq::new((k - len) as nat, |i: int| '0'),
        decreases w - k,
    {
        out.append("0");
        proof {
            reveal_strlit("0");
        }
        assert(out@ =~= start + Seq::new((k + 1 - len) as nat, |i: int| '0'));
        k += 1;
    }
    let ghost mid = out@;
    push_decimal(out, n);
    if len < w {
        assert(k == w);
        assert(out@ =~= start + padded(n as nat, w as nat));
    } else {
        assert(out@ =~= start + padded(n as nat, w as nat));
    }
}

impl PrecisionDate {
    pub open spec fn year_of(self) -> u32 {
        match self {
            PrecisionDate::Year(y) => y,
            PrecisionDate::Month(y, _) => y,
            PrecisionDate::Day(y, _, _) => y,
        }
    }

    /// The date as text: `YYYY`, `YYYY-MM` or `YYYY-MM-DD`, each number padded
    /// with zeros; in the alternate form, the year alone.
    pub fn to_text(self, alternate: bool) -> (r: String)
        ensures
            r@ == date_text(self, alternate),
    {
        let mut out = String::new();
        if alternate {
            push_padded(&mut out, self.year(), 4);
            return out;
        }
        match self {
            PrecisionDate::Year(y) => {
                push_padded(&mut out, y, 4);
            },
            PrecisionDate::Month(y, m) => {
                push_padded(&mut out, y, 4);
                out.append("-");
                push_padded(&mut out, m as u32, 2);
            },
            PrecisionDate::Day(y, m, d) => {
                push_padded(&mut out, y, 4);
                out.append("-");
                push_padded(&mut out, m as u32, 2);
                out.append("-");
                push_padded(&mut out, d as u32, 2);
            },
        }
        proof {
            reveal_strlit("-");
        }
        assert(out@ =~= date_text(self, alternate));
        out
    }
}

} // verus!
