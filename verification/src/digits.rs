//! Decimal digit sequences: rendering unsigned integers to strings and
//! parsing them back.  These are the building blocks for date formatting,
//! state-document encoding and HTTP status messages.

use vstd::prelude::*;

verus! {

/// The character for a single decimal digit value.
pub open spec fn digit_char_spec(d: int) -> char
    recommends
        0 <= d <= 9,
{
    if d == 0 {
        '0'
    } else if d == 1 {
        '1'
    } else if d == 2 {
        '2'
    } else if d == 3 {
        '3'
    } else if d == 4 {
        '4'
    } else if d == 5 {
        '5'
    } else if d == 6 {
        '6'
    } else if d == 7 {
        '7'
    } else if d == 8 {
        '8'
    } else {
        '9'
    }
}

/// True when `c` is an ASCII decimal digit.
pub open spec fn is_digit(c: char) -> bool {
    '0' <= c && c <= '9'
}

/// The numeric value of an ASCII decimal digit character.
pub open spec fn digit_val(c: char) -> int
    recommends
        is_digit(c),
{
    c as int - '0' as int
}

/// The decimal digit sequence of `n`, most significant digit first, with no
/// leading zeros (`0` renders as `"0"`).
pub open spec fn dec_seq(n: nat) -> Seq<char>
    decreases n,
{
    if n < 10 {
        seq![digit_char_spec(n as int)]
    } else {
        dec_seq(n / 10) + seq![digit_char_spec((n % 10) as int)]
    }
}

/// The value of a digit sequence read as a decimal number, most significant
/// digit first.
pub open spec fn seq_val(s: Seq<char>) -> int
    decreases s.len(),
{
    if s.len() == 0 {
        0
    } else {
        seq_val(s.drop_last()) * 10 + digit_val(s.last())
    }
}

/// True when every character of `s` is a decimal digit.
pub open spec fn all_digits(s: Seq<char>) -> bool {
    forall|i: int| 0 <= i < s.len() ==> is_digit(#[trigger] s[i])
}

pub proof fn lemma_digit_char_val(d: int)
    requires
        0 <= d <= 9,
    ensures
        is_digit(digit_char_spec(d)),
        digit_val(digit_char_spec(d)) == d,
{
}

/// Every character that `dec_seq` produces is a digit, and the sequence is
/// non-empty.
pub proof fn lemma_dec_seq_digits(n: nat)
    ensures
        dec_seq(n).len() >= 1,
        all_digits(dec_seq(n)),
    decreases n,
{
    if n < 10 {
        lemma_digit_char_val(n as int);
    } else {
        lemma_dec_seq_digits(n / 10);
        lemma_digit_char_val((n % 10) as int);
        assert forall|i: int| 0 <= i < dec_seq(n).len() implies is_digit(#[trigger] dec_seq(n)[i]) by {
            if i < dec_seq(n / 10).len() {
                assert(dec_seq(n)[i] == dec_seq(n / 10)[i]);
            } else {
                assert(dec_seq(n)[i] == digit_char_spec((n % 10) as int));
            }
        }
    }
}

/// Reading the digits of `n` back as a number gives `n`.
pub proof fn lemma_dec_seq_val(n: nat)
    ensures
        seq_val(dec_seq(n)) == n,
    decreases n,
{
    if n < 10 {
        lemma_digit_char_val(n as int);
        let s = dec_seq(n);
        assert(s =~= seq![digit_char_spec(n as int)]);
        assert(s.drop_last() =~= Seq::<char>::empty());
        assert(s.last() == digit_char_spec(n as int));
        assert(seq_val(s) == seq_val(s.drop_last()) * 10 + digit_val(s.last()));
        assert(seq_val(s.drop_last()) == 0);
    } else {
        lemma_dec_seq_val(n / 10);
        lemma_digit_char_val((n % 10) as int);
        let c = digit_char_spec((n % 10) as int);
        let s = dec_seq(n);
        assert(s == dec_seq(n / 10) + seq![c]);
        assert(s.drop_last() =~= dec_seq(n / 10));
        assert(s.last() == c);
        assert(seq_val(s) == seq_val(s.drop_last()) * 10 + digit_val(s.last()));
        assert(seq_val(s) == (n / 10) * 10 + (n % 10));
    }
}

/// The exec counterpart of `digit_char_spec`.
pub fn digit_char(d: u64) -> (c: char)
    requires
        d <= 9,
    ensures
        c == digit_char_spec(d as int),
{
    if d == 0 {
        '0'
    } else if d == 1 {
        '1'
    } else if d == 2 {
        '2'
    } else if d == 3 {
        '3'
    } else if d == 4 {
        '4'
    } else if d == 5 {
        '5'
    } else if d == 6 {
        '6'
    } else if d == 7 {
        '7'
    } else if d == 8 {
        '8'
    } else {
        '9'
    }
}

/// Renders `n` in decimal, most significant digit first.
pub fn u64_digits(n: u64) -> (v: Vec<char>)
    ensures
        v@ == dec_seq(n as nat),
    decreases n,
{
    if n < 10 {
        let mut v: Vec<char> = Vec::new();
        v.push(digit_char(n));
        proof {
            assert(v@ =~= dec_seq(n as nat));
        }
        v
    } else {
        let mut v = u64_digits(n / 10);
        let c = digit_char(n % 10);
        v.push(c);
        proof {
            assert(v@ =~= dec_seq((n / 10) as nat) + seq![digit_char_spec((n % 10) as int)]);
        }
        v
    }
}

/// Parses a non-empty, all-digit character slice as a decimal number.
/// Returns `None` on empty input, a non-digit character, or overflow past
/// `u64::MAX`.
pub open spec fn parse_u64_spec(s: Seq<char>) -> Option<u64> {
    if s.len() >= 1 && all_digits(s) && seq_val(s) <= u64::MAX {
        Some(seq_val(s) as u64)
    } else {
        None
    }
}

/// `seq_val` of an all-digit sequence is non-negative and grows with the
/// sequence.
pub proof fn lemma_seq_val_nonneg(s: Seq<char>)
    requires
        all_digits(s),
    ensures
        seq_val(s) >= 0,
    decreases s.len(),
{
    if s.len() > 0 {
        assert(all_digits(s.drop_last())) by {
            assert(forall|i: int|
                0 <= i < s.drop_last().len() ==> s.drop_last()[i] == #[trigger] s[i]);
        }
        lemma_seq_val_nonneg(s.drop_last());
    }
}

/// A digit prefix never reads as a larger number than the whole sequence.
pub proof fn lemma_seq_val_prefix(s: Seq<char>, i: int)
    requires
        all_digits(s),
        0 <= i <= s.len(),
    ensures
        seq_val(s.take(i)) <= seq_val(s),
    decreases s.len(),
{
    if i == s.len() {
        assert(s.take(i) =~= s);
    } else {
        let d = s.drop_last();
        assert(all_digits(d)) by {
            assert(forall|j: int| 0 <= j < d.len() ==> d[j] == #[trigger] s[j]);
        }
        lemma_seq_val_prefix(d, i);
        assert(d.take(i) =~= s.take(i));
        lemma_seq_val_nonneg(d);
        assert(seq_val(s) == seq_val(d) * 10 + digit_val(s.last()));
        assert(seq_val(d) * 10 >= seq_val(d));
        assert(digit_val(s.last()) >= 0);
    }
}

/// Parses the character range `[from, to)` of `s` as a decimal number,
/// exactly as `parse_u64_spec` reads it.
pub fn parse_u64_range(s: &str, from: usize, to: usize) -> (r: Option<u64>)
    requires
        from <= to <= s@.len(),
    ensures
        r == parse_u64_spec(s@.subrange(from as int, to as int)),
{
    let ghost sub = s@.subrange(from as int, to as int);
    if from == to {
        return None;
    }
    let mut acc: u64 = 0;
    let mut i: usize = from;
    while i < to
        invariant
            from <= i <= to <= s@.len(),
            sub == s@.subrange(from as int, to as int),
            all_digits(sub.take(i - from)),
            acc == seq_val(sub.take(i - from)),
        decreases to - i,
    {
        let c = s.get_char(i);
        proof {
            assert(sub[i - from] == s@[i as int]);
        }
        if !(c >= '0' && c <= '9') {
            proof {
                assert(!is_digit(sub[i - from]));
            }
            return None;
        }
        let d: u64 = (c as u32 - 48) as u64;
        proof {
            assert(d == digit_val(sub[i - from]));
            assert(sub.take(i - from + 1).drop_last() =~= sub.take(i - from));
            assert(sub.take(i - from + 1).last() == sub[i - from]);
            assert(forall|j: int|
                0 <= j < sub.take(i - from + 1).len() ==> is_digit(
                    #[trigger] sub.take(i - from + 1)[j],
                ));
        }
        if acc > (u64::MAX - d) / 10 {
            proof {
                assert(seq_val(sub.take(i - from + 1)) == acc * 10 + d);
                assert(acc * 10 + d > u64::MAX);
                if all_digits(sub) {
                    lemma_seq_val_prefix(sub, i - from + 1);
                    assert(seq_val(sub) > u64::MAX);
                }
            }
            return None;
        }
        acc = acc * 10 + d;
        i = i + 1;
    }
    proof {
        assert(sub.take(to - from) =~= sub);
    }
    Some(acc)
}

/// Parses a whole string slice as a decimal number.
pub fn parse_u64_str(s: &str) -> (r: Option<u64>)
    ensures
        r == parse_u64_spec(s@),
{
    let n = s.unicode_len();
    let r = parse_u64_range(s, 0, n);
    proof {
        assert(s@.subrange(0, n as int) =~= s@);
    }
    r
}

} // verus!
