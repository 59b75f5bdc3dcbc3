//! Calendar dates as plain values: validity, ordering, parsing from
//! YYYY-MM-DD and rendering back.  The publish-date filter and file naming
//! work on these.

use vstd::prelude::*;

use crate::digits::{
    all_digits, dec_seq, digit_val, lemma_dec_seq_digits, lemma_seq_val_nonneg, parse_u64_range,
    seq_val, u64_digits,
};
use crate::error::PullError;
use crate::text::chars_string;

verus! {

/// A calendar date.  Only dates accepted by `date_valid` are meaningful.
#[derive(Clone, Copy, Debug, PartialEq, Eq, Structural)]
pub struct Date {
    pub year: u32,
    pub month: u8,
    pub day: u8,
}

/// Gregorian leap-year rule.
pub open spec fn leap_year(y: int) -> bool {
    (y % 4 == 0 && y % 100 != 0) || y % 400 == 0
}

/// Number of days in the given month of the given year.
pub open spec fn days_in_month_spec(y: int, m: int) -> int
    recommends
        1 <= m <= 12,
{
    if m == 2 {
        if leap_year(y) {
            29
        } else {
            28
        }
    } else if m == 4 || m == 6 || m == 9 || m == 11 {
        30
    } else {
        31
    }
}

/// A real calendar date with a four-digit year.
pub open spec fn date_valid(d: Date) -> bool {
    &&& d.year <= 9999
    &&& 1 <= d.month <= 12
    &&& 1 <= d.day <= days_in_month_spec(d.year as int, d.month as int)
}

/// Strict calendar order: `a` is an earlier date than `b`.
pub open spec fn date_lt(a: Date, b: Date) -> bool {
    ||| a.year < b.year
    ||| (a.year == b.year && a.month < b.month)
    ||| (a.year == b.year && a.month == b.month && a.day < b.day)
}

/// `n` in decimal, left-padded with zeros to at least `w` characters.
pub open spec fn pad_seq(n: nat, w: nat) -> Seq<char> {
    if dec_seq(n).len() >= w {
        dec_seq(n)
    } else {
        Seq::new((w - dec_seq(n).len()) as nat, |i: int| '0') + dec_seq(n)
    }
}

/// The YYYY-MM-DD rendering of a date.
pub open spec fn date_str_spec(d: Date) -> Seq<char> {
    pad_seq(d.year as nat, 4) + seq!['-'] + pad_seq(d.month as nat, 2) + seq!['-'] + pad_seq(
        d.day as nat,
        2,
    )
}

/// How a YYYY-MM-DD string is read: exactly ten characters, dashes at
/// positions four and seven, digits elsewhere, and the three numbers must
/// form a valid calendar date.
pub open spec fn parse_date_spec(s: Seq<char>) -> Option<Date> {
    if s.len() == 10 && s[4] == '-' && s[7] == '-' && all_digits(s.subrange(0, 4)) && all_digits(
        s.subrange(5, 7),
    ) && all_digits(s.subrange(8, 10)) {
        let y = seq_val(s.subrange(0, 4));
        let m = seq_val(s.subrange(5, 7));
        let d = seq_val(s.subrange(8, 10));
        if 0 <= y <= 9999 && 0 <= m <= 99 && 0 <= d <= 99 {
            let date = Date { year: y as u32, month: m as u8, day: d as u8 };
            if date_valid(date) {
                Some(date)
            } else {
                None
            }
        } else {
            None
        }
    } else {
        None
    }
}

/// Ten to the `n`.
pub open spec fn pow10(n: nat) -> int
    decreases n,
{
    if n == 0 {
        1
    } else {
        10 * pow10((n - 1) as nat)
    }
}

/// An all-digit sequence reads as a number below ten to its length.
pub proof fn lemma_seq_val_bound(s: Seq<char>)
    requires
        all_digits(s),
    ensures
        0 <= seq_val(s) < pow10(s.len()),
    decreases s.len(),
{
    if s.len() > 0 {
        let d = s.drop_last();
        assert(all_digits(d)) by {
            assert(forall|j: int| 0 <= j < d.len() ==> d[j] == #[trigger] s[j]);
        }
        lemma_seq_val_bound(d);
        assert(seq_val(s) == seq_val(d) * 10 + digit_val(s.last()));
        assert(digit_val(s.last()) <= 9);
        assert(seq_val(d) * 10 <= (pow10(d.len()) - 1) * 10) by (nonlinear_arith)
            requires
                seq_val(d) <= pow10(d.len()) - 1,
        ;
        assert(pow10(s.len()) == 10 * pow10(d.len()));
    }
}

/// The value of an all-digit sequence of at most four digits is below
/// ten thousand; of at most two, below one hundred.
pub proof fn lemma_seq_val_four_digits(s: Seq<char>)
    requires
        all_digits(s),
        s.len() <= 4,
    ensures
        seq_val(s) < 10000,
        s.len() <= 2 ==> seq_val(s) < 100,
    decreases s.len(),
{
    lemma_seq_val_bound(s);
    assert(pow10(0) == 1);
    assert(pow10(1) == 10);
    assert(pow10(2) == 100);
    assert(pow10(3) == 1000);
    assert(pow10(4) == 10000);
    assert(pow10(s.len()) <= 10000);
    if s.len() <= 2 {
        assert(pow10(s.len()) <= 100);
    }
}

impl Date {
    /// Whether this is a real calendar date.
    pub fn valid(&self) -> (r: bool)
        ensures
            r == date_valid(*self),
    {
        if self.year > 9999 || self.month < 1 || self.month > 12 || self.day < 1 {
            return false;
        }
        self.day <= days_in_month(self.year, self.month)
    }

    /// Strict calendar order.
    pub fn lt(&self, other: &Date) -> (r: bool)
        ensures
            r == date_lt(*self, *other),
    {
        self.year < other.year || (self.year == other.year && (self.month < other.month || (
        self.month == other.month && self.day < other.day)))
    }
}

/// Number of days in the given month.
pub fn days_in_month(year: u32, month: u8) -> (d: u8)
    requires
        1 <= month <= 12,
    ensures
        d == days_in_month_spec(year as int, month as int),
{
    if month == 2 {
        if (year % 4 == 0 && year % 100 != 0) || year % 400 == 0 {
            29
        } else {
            28
        }
    } else if month == 4 || month == 6 || month == 9 || month == 11 {
        30
    } else {
        31
    }
}

/// Renders `n` in decimal, left-padded with zeros to at least `w`
/// characters.
pub fn pad_digits(n: u64, w: usize) -> (v: Vec<char>)
    ensures
        v@ == pad_seq(n as nat, w as nat),
{
    let mut digs = u64_digits(n);
    let mut v: Vec<char> = Vec::new();
    let mut k: usize = digs.len();
    proof {
        lemma_dec_seq_digits(n as nat);
    }
    while k < w
        invariant
            digs@ == dec_seq(n as nat),
            k == digs@.len() + v@.len(),
            k <= w || k == digs@.len(),
            v@ =~= Seq::new(v@.len() as nat, |i: int| '0'),
        decreases w - k,
    {
        v.push('0');
        k = k + 1;
    }
    v.append(&mut digs);
    proof {
        assert(v@ =~= pad_seq(n as nat, w as nat));
    }
    v
}

/// Renders a date as YYYY-MM-DD.
pub fn date_string(d: &Date) -> (s: String)
    requires
        date_valid(*d),
    ensures
        s@ == date_str_spec(*d),
{
    let mut v = pad_digits(d.year as u64, 4);
    v.push('-');
    let mut m = pad_digits(d.month as u64, 2);
    v.append(&mut m);
    v.push('-');
    let mut dd = pad_digits(d.day as u64, 2);
    v.append(&mut dd);
    proof {
        assert(v@ =~= date_str_spec(*d));
    }
    chars_string(&v)
}

/// Parses a YYYY-MM-DD date bound, exactly as `parse_date_spec` reads it;
/// anything else is an invalid-date error.
pub fn parse_date(s: &str) -> (r: Result<Date, PullError>)
    ensures
        match r {
            Ok(d) => parse_date_spec(s@) == Some(d),
            Err(e) => parse_date_spec(s@) is None && (e matches PullError::InvalidDate(m) && m@
                == "Expected YYYY-MM-DD, got: "@ + s@),
        },
{
    let n = s.unicode_len();
    if n != 10 {
        return Err(invalid_date(s));
    }
    if !(s.get_char(4) == '-' && s.get_char(7) == '-') {
        return Err(invalid_date(s));
    }
    let y = parse_u64_range(s, 0, 4);
    let m = parse_u64_range(s, 5, 7);
    let d = parse_u64_range(s, 8, 10);
    proof {
        if all_digits(s@.subrange(0, 4)) {
            lemma_seq_val_four_digits(s@.subrange(0, 4));
            lemma_seq_val_nonneg(s@.subrange(0, 4));
        }
        if all_digits(s@.subrange(5, 7)) {
            lemma_seq_val_four_digits(s@.subrange(5, 7));
            lemma_seq_val_nonneg(s@.subrange(5, 7));
        }
        if all_digits(s@.subrange(8, 10)) {
            lemma_seq_val_four_digits(s@.subrange(8, 10));
            lemma_seq_val_nonneg(s@.subrange(8, 10));
        }
    }
    match (y, m, d) {
        (Some(y), Some(m), Some(d)) => {
            let date = Date { year: y as u32, month: m as u8, day: d as u8 };
            if date.valid() {
                Ok(date)
            } else {
                Err(invalid_date(s))
            }
        },
        _ => Err(invalid_date(s)),
    }
}

/// The error reported for an unparseable date bound.
fn invalid_date(s: &str) -> (e: PullError)
    ensures
        e matches PullError::InvalidDate(m) && m@ == "Expected YYYY-MM-DD, got: "@ + s@,
{
    PullError::InvalidDate(String::from_str("Expected YYYY-MM-DD, got: ").concat(s))
}

} // verus!
