//! The calendar date that a Makefile is stamped with, and how it is written.

use chrono::Datelike;
use vstd::prelude::*;

verus! {

/// What a [`Date`] holds, as plain numbers.
pub struct DateView {
    pub year: int,
    pub month: int,
    pub day: int,
}

impl DateView {
    /// Whether the month is one of the twelve and the day one of at most 31.
    /// Whether that month has that day is not asked.
    pub open spec fn is_valid(self) -> bool {
        1 <= self.month <= 12 && 1 <= self.day <= 31
    }
}

/// A day, a month and a year, as read off a calendar. The month is always 1 to
/// 12 and the day 1 to 31.
#[derive(Debug, Clone, Copy, PartialEq, Eq)]
pub struct Date {
    year: i32,
    month: u8,
    day: u8,
}

impl View for Date {
    type V = DateView;

    closed spec fn view(&self) -> DateView {
        DateView { year: self.year as int, month: self.month as int, day: self.day as int }
    }
}

/// The character that stands for `n`, a number from 0 to 9.
pub open spec fn digit(n: int) -> char {
    ((n + 0x30) as u8) as char
}

/// `n` in decimal, with zeros in front until there are `width` digits. A number
/// that needs more digits than that has them all.
pub open spec fn padded(n: nat, width: nat) -> Seq<char>
    decreases n + width,
{
    if n < 10 && width <= 1 {
        seq![digit(n as int)]
    } else {
        padded(
            n / 10,
            if width > 0 {
                (width - 1) as nat
            } else {
                0
            },
        ).push(digit((n % 10) as int))
    }
}

/// How a year is written: with four digits from 0 to 9999; before that with
/// `-`, after that with `+`, in front of four digits or more.
pub open spec fn year_text(year: int) -> Seq<char> {
    if 0 <= year <= 9999 {
        padded(year as nat, 4)
    } else if year < 0 {
        "-"@ + padded((-year) as nat, 4)
    } else {
        "+"@ + padded(year as nat, 4)
    }
}

/// How a date is written: day, month and year with `/` between them, the day
/// and the month with two digits each.
pub open spec fn stamp_text(date: DateView) -> Seq<char> {
    padded(date.day as nat, 2) + "/"@ + padded(date.month as nat, 2) + "/"@ + year_text(date.year)
}

/// Whether `c` is one of the ten digits.
pub open spec fn is_digit(c: char) -> bool {
    '0' <= c <= '9'
}

/// A number below a hundred is written with two digits where two are asked
/// for, and one below ten thousand with four where four are.
pub proof fn lemma_padded_digits(n: nat)
    ensures
        n < 100 ==> padded(n, 2) == seq![digit((n / 10) as int), digit((n % 10) as int)],
        n < 10000 ==> padded(n, 4) == seq![
            digit((n / 1000) as int),
            digit((n / 100 % 10) as int),
            digit((n / 10 % 10) as int),
            digit((n % 10) as int),
        ],
{
    reveal_with_fuel(padded, 5);
    if n < 100 {
        assert(padded(n, 2) =~= seq![digit((n / 10) as int), digit((n % 10) as int)]);
    }
    if n < 10000 {
        assert(n / 10 / 10 == n / 100);
        assert(n / 10 / 10 / 10 == n / 1000);
        assert(padded(n, 4) =~= seq![
            digit((n / 1000) as int),
            digit((n / 100 % 10) as int),
            digit((n / 10 % 10) as int),
            digit((n % 10) as int),
        ]);
    }
}

/// From the year 0 to the year 9999 a date is written in ten characters: two
/// digits, `/`, two digits, `/`, four digits.
pub proof fn lemma_stamp_shape(date: DateView)
    requires
        date.is_valid(),
        0 <= date.year <= 9999,
    ensures
        stamp_text(date).len() == 10,
        stamp_text(date)[2] == '/',
        stamp_text(date)[5] == '/',
        forall|i: int| 0 <= i < 10 && i != 2 && i != 5 ==> is_digit(#[trigger] stamp_text(date)[i]),
        stamp_text(date)[0] == digit(date.day / 10),
        stamp_text(date)[1] == digit(date.day % 10),
        stamp_text(date)[3] == digit(date.month / 10),
        stamp_text(date)[4] == digit(date.month % 10),
        stamp_text(date)[6] == digit(date.year / 1000),
        stamp_text(date)[7] == digit(date.year / 100 % 10),
        stamp_text(date)[8] == digit(date.year / 10 % 10),
        stamp_text(date)[9] == digit(date.year % 10),
{
    reveal_strlit("/");
    lemma_padded_digits(date.day as nat);
    lemma_padded_digits(date.month as nat);
    lemma_padded_digits(date.year as nat);
    let text = stamp_text(date);
    assert(text.len() == 10);
    assert forall|i: int| 0 <= i < 10 && i != 2 && i != 5 implies is_digit(#[trigger] text[i]) by {
        lemma_digit_is_digit(date.day / 10);
        lemma_digit_is_digit(date.day % 10);
        lemma_digit_is_digit(date.month / 10);
        lemma_digit_is_digit(date.month % 10);
        lemma_digit_is_digit(date.year / 1000);
        lemma_digit_is_digit(date.year / 100 % 10);
        lemma_digit_is_digit(date.year / 10 % 10);
        lemma_digit_is_digit(date.year % 10);
    }
}

/// The character of a number from 0 to 9 is a digit.
proof fn lemma_digit_is_digit(n: int)
    requires
        0 <= n <= 9,
    ensures
        is_digit(digit(n)),
        digit(n) as int == n + 0x30,
{
}

/// The date that the system clock shows in the local time zone, as year, month
/// and day: what `year`, `month` and `day` of `chrono::Datelike` give for
/// `chrono::Local::now()`. chrono documents the month as 1 to 12 and the day
/// as 1 to 31, and that is all that is claimed here. Where the clock is set
/// before 1970, or no offset can be found for the local time zone, chrono
/// panics and nothing is given.
#[verifier::external_body]
fn clock_date() -> (date: (i32, u32, u32))
    ensures
        1 <= date.1 <= 12,
        1 <= date.2 <= 31,
{
    let now = chrono::Local::now();
    (now.year(), now.month(), now.day())
}

/// The one character that stands for `n`, as a text.
fn digit_text(n: u32) -> (r: &'static str)
    requires
        n < 10,
    ensures
        r@ == seq![digit(n as int)],
{
    proof {
        reveal_strlit("0");
        reveal_strlit("1");
        reveal_strlit("2");
        reveal_strlit("3");
        reveal_strlit("4");
        reveal_strlit("5");
        reveal_strlit("6");
        reveal_strlit("7");
        reveal_strlit("8");
        reveal_strlit("9");
    }
    let r = if n == 0 {
        "0"
    } else if n == 1 {
        "1"
    } else if n == 2 {
        "2"
    } else if n == 3 {
        "3"
    } else if n == 4 {
        "4"
    } else if n == 5 {
        "5"
    } else if n == 6 {
        "6"
    } else if n == 7 {
        "7"
    } else if n == 8 {
        "8"
    } else {
        "9"
    };
    assert(r@ =~= seq![digit(n as int)]);
    r
}

/// Writes `n` behind `out`, with at least `width` digits.
fn append_padded(out: &mut String, n: u32, width: u32)
    ensures
        final(out)@ == old(out)@ + padded(n as nat, width as nat),
    decreases n + width,
{
    if n < 10 && width <= 1 {
        out.append(digit_text(n));
    } else {
        let rest: u32 = if width > 0 {
            width - 1
        } else {
            0
        };
        append_padded(out, n / 10, rest);
        out.append(digit_text(n % 10));
        assert(final(out)@ =~= old(out)@ + padded(n as nat, width as nat));
    }
}

impl Date {
    #[verifier::type_invariant]
    spec fn valid(&self) -> bool {
        self@.is_valid()
    }

    /// The date of this year, month and day: `None` where the month is not 1
    /// to 12 or the day not 1 to 31.
    pub fn new(year: i32, month: u32, day: u32) -> (date: Option<Date>)
        ensures
            date is Some <==> 1 <= month <= 12 && 1 <= day <= 31,
            date is Some ==> date->0@ == (DateView {
                year: year as int,
                month: month as int,
                day: day as int,
            }),
    {
        if 1 <= month && month <= 12 && 1 <= day && day <= 31 {
            Some(Date { year, month: month as u8, day: day as u8 })
        } else {
            None
        }
    }

    /// The date that the system clock shows in the local time zone.
    pub fn today() -> (date: Date)
        ensures
            date@.is_valid(),
    {
        let (year, month, day) = clock_date();
        Date { year, month: month as u8, day: day as u8 }
    }

    /// The year. Like every date, this one is valid.
    pub fn year(&self) -> (r: i32)
        ensures
            r == self@.year,
            self@.is_valid(),
    {
        proof {
            use_type_invariant(self);
        }
        self.year
    }

    /// The month, 1 to 12.
    pub fn month(&self) -> (r: u32)
        ensures
            r == self@.month,
            1 <= r <= 12,
    {
        proof {
            use_type_invariant(self);
        }
        self.month as u32
    }

    /// The day of the month, 1 to 31.
    pub fn day(&self) -> (r: u32)
        ensures
            r == self@.day,
            1 <= r <= 31,
    {
        proof {
            use_type_invariant(self);
        }
        self.day as u32
    }

    /// The date as it is stamped on a Makefile: `DD/MM/YYYY`.
    pub fn stamp(&self) -> (out: String)
        ensures
            out@ == stamp_text(self@),
    {
        let mut out = String::new();
        append_padded(&mut out, self.day as u32, 2);
        out.append("/");
        append_padded(&mut out, self.month as u32, 2);
        out.append("/");
        if 0 <= self.year && self.year <= 9999 {
            append_padded(&mut out, self.year as u32, 4);
        } else if self.year < 0 {
            out.append("-");
            let size: i64 = -(self.year as i64);
            append_padded(&mut out, size as u32, 4);
        } else {
            out.append("+");
            append_padded(&mut out, self.year as u32, 4);
        }
        proof {
            assert(out@ =~= stamp_text(self@));
        }
        out
    }
}

} // verus!
