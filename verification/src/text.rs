//! Small text helpers: the one trusted lowercase conversion and verified
//! string building on top of vstd's string support.

use vstd::prelude::*;

verus! {

/// The Unicode lowercase conversion of a character sequence.  The result is
/// a function of the characters alone, so it carries a name rather than a
/// definition; `lowercase` below is the one way to compute it.
pub uninterp spec fn lower_of(s: Seq<char>) -> Seq<char>;

/// True when every character of `s` is ASCII.
pub open spec fn is_ascii_seq(s: Seq<char>) -> bool {
    forall|i: int| #![trigger s[i]] 0 <= i < s.len() ==> (s[i] as int) < 128
}

/// The ASCII case mapping of one character: `A` to `Z` map to `a` to `z`,
/// everything else is unchanged.
pub open spec fn ascii_lower_char(c: char) -> char {
    if 'A' <= c && c <= 'Z' {
        (((c as int) + 32) as u8) as char
    } else {
        c
    }
}

/// The ASCII case mapping, character by character.
pub open spec fn ascii_lower_seq(s: Seq<char>) -> Seq<char> {
    s.map_values(|c: char| ascii_lower_char(c))
}

/// Applying the ASCII case mapping to ASCII text gives ASCII text with no
/// uppercase letters left, so applying it twice is the same as once.
pub proof fn lemma_ascii_lower_idempotent(s: Seq<char>)
    requires
        is_ascii_seq(s),
    ensures
        is_ascii_seq(ascii_lower_seq(s)),
        ascii_lower_seq(ascii_lower_seq(s)) == ascii_lower_seq(s),
{
    let low = ascii_lower_seq(s);
    assert forall|i: int| #![trigger low[i]] 0 <= i < low.len() implies (low[i] as int) < 128 by {
        assert(low[i] == ascii_lower_char(s[i]));
    }
    assert forall|i: int| 0 <= i < low.len() implies #[trigger] ascii_lower_seq(low)[i]
        == low[i] by {
        assert(ascii_lower_seq(low)[i] == ascii_lower_char(low[i]));
        assert(low[i] == ascii_lower_char(s[i]));
        if 'A' <= s[i] && s[i] <= 'Z' {
            assert(low[i] as int == s[i] as int + 32);
            assert(!('A' <= low[i] && low[i] <= 'Z'));
        }
    }
    assert(ascii_lower_seq(low) =~= low);
}

/// Relies on `str::to_lowercase`: the Unicode lowercase conversion of the
/// slice, a deterministic function of its characters alone.  On ASCII text
/// it is exactly the documented ASCII case mapping.
#[verifier::external_body]
pub fn lowercase(s: &str) -> (r: String)
    ensures
        r@ == lower_of(s@),
        is_ascii_seq(s@) ==> r@ == ascii_lower_seq(s@),
{
    s.to_lowercase()
}

/// Relies on `String::push`: appends exactly the given character.
#[verifier::external_body]
pub fn push_char(s: &mut String, c: char)
    ensures
        final(s)@ == old(s)@.push(c),
{
    s.push(c);
}

/// Character-for-character equality of two string slices.
pub fn str_eq(a: &str, b: &str) -> (r: bool)
    ensures
        r == (a@ == b@),
{
    let n = a.unicode_len();
    if n != b.unicode_len() {
        proof {
            assert(a@ != b@);
        }
        return false;
    }
    let mut i: usize = 0;
    while i < n
        invariant
            n == a@.len() && n == b@.len(),
            i <= n,
            forall|j: int| 0 <= j < i ==> a@[j] == b@[j],
        decreases n - i,
    {
        if a.get_char(i) != b.get_char(i) {
            return false;
        }
        i = i + 1;
    }
    proof {
        assert(a@ =~= b@);
    }
    true
}

/// Builds a `String` whose characters are exactly those of `v`.
pub fn chars_string(v: &Vec<char>) -> (s: String)
    ensures
        s@ == v@,
{
    let mut s = String::new();
    let mut i: usize = 0;
    while i < v.len()
        invariant
            i <= v.len(),
            s@ == v@.take(i as int),
        decreases v.len() - i,
    {
        push_char(&mut s, v[i]);
        proof {
            assert(v@.take(i + 1) =~= v@.take(i as int).push(v@[i as int]));
        }
        i = i + 1;
    }
    proof {
        assert(v@.take(v@.len() as int) =~= v@);
    }
    s
}

} // verus!
