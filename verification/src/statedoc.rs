//! The state document: a deterministic, self-contained text encoding of
//! the sync state, written back in full on every save.  Each entry is a
//! length-prefixed key and path plus a decimal timestamp, so arbitrary key
//! and path contents round-trip without escaping.

use vstd::prelude::*;

use crate::digits::{all_digits, dec_seq, is_digit, lemma_dec_seq_digits, lemma_dec_seq_val,
    parse_u64_range, parse_u64_spec, seq_val, u64_digits};
use crate::error::PullError;
use crate::state::{distinct_keys, lemma_seq_to_map_contains, lemma_upsert_absent,
    EntryView, PulledEntry, PullState};
use crate::text::chars_string;

verus! {

/// A possibly-negative integer in decimal.
pub open spec fn sdec_seq(t: int) -> Seq<char> {
    if t >= 0 {
        dec_seq(t as nat)
    } else {
        seq!['-'] + dec_seq((-t) as nat)
    }
}

/// One rendered entry: `<keylen>:<key>,<pathlen>:<path>,<timestamp>`
/// terminated by a newline.
pub open spec fn render_entry(k: Seq<char>, e: EntryView) -> Seq<char> {
    dec_seq(k.len()) + ":"@ + k + ","@ + dec_seq(e.local_path.len()) + ":"@ + e.local_path + ","@
        + sdec_seq(e.pulled_at as int) + "\n"@
}

/// The rendered document: every entry in order.
pub open spec fn render_doc(es: Seq<(Seq<char>, EntryView)>) -> Seq<char>
    decreases es.len(),
{
    if es.len() == 0 {
        Seq::empty()
    } else {
        render_entry(es[0].0, es[0].1) + render_doc(es.skip(1))
    }
}

/// Index of the first occurrence of `c` in `s`, or -1.
pub open spec fn find_char(s: Seq<char>, c: char) -> int
    decreases s.len(),
{
    if s.len() == 0 {
        -1
    } else if s[0] == c {
        0
    } else {
        let r = find_char(s.skip(1), c);
        if r < 0 {
            -1
        } else {
            1 + r
        }
    }
}

/// When `c` first occurs at position `k`, `find_char` says so.
pub proof fn lemma_find_char_at(s: Seq<char>, c: char, k: int)
    requires
        0 <= k < s.len(),
        s[k] == c,
        forall|j: int| 0 <= j < k ==> s[j] != c,
    ensures
        find_char(s, c) == k,
    decreases k,
{
    if k > 0 {
        assert(forall|j: int| 0 <= j < k - 1 ==> s.skip(1)[j] == s[j + 1]);
        lemma_find_char_at(s.skip(1), c, k - 1);
    }
}

/// When `c` does not occur, `find_char` reports -1.
pub proof fn lemma_find_char_none(s: Seq<char>, c: char)
    requires
        forall|j: int| 0 <= j < s.len() ==> s[j] != c,
    ensures
        find_char(s, c) == -1,
    decreases s.len(),
{
    if s.len() > 0 {
        assert(forall|j: int| 0 <= j < s.skip(1).len() ==> s.skip(1)[j] == s[j + 1]);
        lemma_find_char_none(s.skip(1), c);
    }
}

/// Reads `<digits>:<that many characters>` and returns the characters and
/// the remainder.
pub open spec fn parse_len_field(s: Seq<char>) -> Option<(Seq<char>, Seq<char>)> {
    let j = find_char(s, ':');
    if j >= 1 && all_digits(s.take(j)) {
        let l = seq_val(s.take(j));
        if j + 1 + l <= s.len() {
            Some((s.subrange(j + 1, j + 1 + l), s.skip(j + 1 + l)))
        } else {
            None
        }
    } else {
        None
    }
}

/// Reads a possibly-negative decimal timestamp.
pub open spec fn parse_i64_field(s: Seq<char>) -> Option<i64> {
    if s.len() >= 2 && s[0] == '-' {
        let rest = s.skip(1);
        if all_digits(rest) && seq_val(rest) <= 9223372036854775808 {
            Some((-seq_val(rest)) as i64)
        } else {
            None
        }
    } else if s.len() >= 1 && all_digits(s) && seq_val(s) <= i64::MAX {
        Some(seq_val(s) as i64)
    } else {
        None
    }
}

/// Reads one rendered entry and returns it with the remainder.
pub open spec fn parse_entry(s: Seq<char>) -> Option<((Seq<char>, EntryView), Seq<char>)> {
    match parse_len_field(s) {
        None => None,
        Some((key, r1)) => if r1.len() >= 1 && r1[0] == ',' {
            match parse_len_field(r1.skip(1)) {
                None => None,
                Some((path, r2)) => if r2.len() >= 1 && r2[0] == ',' {
                    let r3 = r2.skip(1);
                    let j = find_char(r3, '\n');
                    if j >= 1 {
                        match parse_i64_field(r3.take(j)) {
                            None => None,
                            Some(t) => Some(
                                ((key, EntryView { local_path: path, pulled_at: t }), r3.skip(j + 1)),
                            ),
                        }
                    } else {
                        None
                    }
                } else {
                    None
                },
            }
        } else {
            None
        },
    }
}

/// Reads a whole document: entries until the input is exhausted.
pub open spec fn parse_doc(s: Seq<char>) -> Option<Seq<(Seq<char>, EntryView)>>
    decreases s.len(),
{
    if s.len() == 0 {
        Some(Seq::empty())
    } else {
        match parse_entry(s) {
            None => None,
            Some((kv, rest)) => if rest.len() < s.len() {
                match parse_doc(rest) {
                    None => None,
                    Some(tail) => Some(seq![kv] + tail),
                }
            } else {
                None
            },
        }
    }
}

/// A length-prefixed field parses back to exactly what was rendered.
pub proof fn lemma_parse_len_field_roundtrip(content: Seq<char>, tail: Seq<char>)
    ensures
        parse_len_field(dec_seq(content.len()) + ":"@ + content + tail) == Some((content, tail)),
{
    reveal_strlit(":");
    let d = dec_seq(content.len());
    let s = d + ":"@ + content + tail;
    lemma_dec_seq_digits(content.len());
    lemma_dec_seq_val(content.len());
    assert(s[d.len() as int] == ':');
    assert forall|j: int| 0 <= j < d.len() implies s[j] != ':' by {
        assert(s[j] == d[j]);
        assert(is_digit(d[j]));
    }
    lemma_find_char_at(s, ':', d.len() as int);
    assert(s.take(d.len() as int) =~= d);
    let j = d.len() as int;
    let l = content.len() as int;
    assert(j + 1 + l <= s.len());
    assert(s.subrange(j + 1, j + 1 + l) =~= content);
    assert(s.skip(j + 1 + l) =~= tail);
}

/// Every character of a rendered timestamp is a digit or a leading minus,
/// and the rendering parses back to the value.
pub proof fn lemma_parse_i64_roundtrip(t: i64)
    ensures
        parse_i64_field(sdec_seq(t as int)) == Some(t),
        sdec_seq(t as int).len() >= 1,
        forall|j: int|
            0 <= j < sdec_seq(t as int).len() ==> sdec_seq(t as int)[j] != '\n',
{
    let s = sdec_seq(t as int);
    if t >= 0 {
        lemma_dec_seq_digits(t as nat);
        lemma_dec_seq_val(t as nat);
        assert(is_digit(s[0]));
        assert(s[0] != '-');
        assert(forall|j: int| 0 <= j < s.len() ==> is_digit(#[trigger] s[j]));
    } else {
        let m = (-(t as int)) as nat;
        lemma_dec_seq_digits(m);
        lemma_dec_seq_val(m);
        let d = dec_seq(m);
        assert(s == seq!['-'] + d);
        assert(s.len() >= 2);
        assert(s[0] == '-');
        assert(s.skip(1) =~= d);
        assert(all_digits(d));
        assert(seq_val(d) == m);
        assert(m <= 9223372036854775808);
        assert(forall|j: int| 1 <= j < s.len() ==> is_digit(#[trigger] s[j]));
    }
}

/// A rendered entry followed by anything parses back to the entry and that
/// remainder.
pub proof fn lemma_parse_entry_roundtrip(k: Seq<char>, e: EntryView, tail: Seq<char>)
    ensures
        parse_entry(render_entry(k, e) + tail) == Some(((k, e), tail)),
        render_entry(k, e).len() >= 1,
{
    reveal_strlit(":");
    reveal_strlit(",");
    reveal_strlit("\n");
    let p = e.local_path;
    let sd = sdec_seq(e.pulled_at as int);
    let s = render_entry(k, e) + tail;
    let tail1 = ","@ + dec_seq(p.len()) + ":"@ + p + ","@ + sd + "\n"@ + tail;
    assert(s =~= dec_seq(k.len()) + ":"@ + k + tail1);
    lemma_parse_len_field_roundtrip(k, tail1);
    assert(parse_len_field(s) == Some((k, tail1)));
    assert(tail1[0] == ',');
    let tail2 = tail1.skip(1);
    let tail3 = ","@ + sd + "\n"@ + tail;
    assert(tail2 =~= dec_seq(p.len()) + ":"@ + p + tail3);
    lemma_parse_len_field_roundtrip(p, tail3);
    assert(parse_len_field(tail2) == Some((p, tail3)));
    assert(tail3[0] == ',');
    let r3 = tail3.skip(1);
    assert(r3 =~= sd + "\n"@ + tail);
    lemma_parse_i64_roundtrip(e.pulled_at);
    assert(r3[sd.len() as int] == '\n');
    assert forall|j: int| 0 <= j < sd.len() implies r3[j] != '\n' by {
        assert(r3[j] == sd[j]);
    }
    lemma_find_char_at(r3, '\n', sd.len() as int);
    assert(r3.take(sd.len() as int) =~= sd);
    assert(r3.skip(sd.len() as int + 1) =~= tail);
}

/// A rendered document parses back to exactly its entries.
pub proof fn lemma_parse_doc_roundtrip(es: Seq<(Seq<char>, EntryView)>)
    ensures
        parse_doc(render_doc(es)) == Some(es),
    decreases es.len(),
{
    reveal_strlit("\n");
    if es.len() == 0 {
        assert(render_doc(es).len() == 0);
    } else {
        let rest = es.skip(1);
        let s = render_doc(es);
        lemma_parse_entry_roundtrip(es[0].0, es[0].1, render_doc(rest));
        lemma_parse_doc_roundtrip(rest);
        assert(s == render_entry(es[0].0, es[0].1) + render_doc(rest));
        assert(parse_entry(s) == Some((es[0], render_doc(rest))));
        assert(render_doc(rest).len() < s.len());
        assert(seq![es[0]] + rest =~= es);
    }
}

/// Rendering one more entry appends its rendering.
pub proof fn lemma_render_doc_snoc(es: Seq<(Seq<char>, EntryView)>, x: (Seq<char>, EntryView))
    ensures
        render_doc(es.push(x)) == render_doc(es) + render_entry(x.0, x.1),
    decreases es.len(),
{
    if es.len() == 0 {
        let q = es.push(x);
        assert(q[0] == x);
        assert(q.skip(1) =~= Seq::<(Seq<char>, EntryView)>::empty());
        assert(render_doc(q) == render_entry(q[0].0, q[0].1) + render_doc(q.skip(1)));
        assert(render_doc(q.skip(1)) == Seq::<char>::empty());
        assert(render_doc(es) == Seq::<char>::empty());
        assert(render_doc(q) =~= render_doc(es) + render_entry(x.0, x.1));
    } else {
        assert(es.push(x).skip(1) =~= es.skip(1).push(x));
        lemma_render_doc_snoc(es.skip(1), x);
        assert(es.push(x)[0] == es[0]);
        assert(render_doc(es.push(x)) == render_entry(es[0].0, es[0].1) + (render_doc(es.skip(1))
            + render_entry(x.0, x.1)));
        assert(render_entry(es[0].0, es[0].1) + (render_doc(es.skip(1)) + render_entry(x.0, x.1))
            =~= (render_entry(es[0].0, es[0].1) + render_doc(es.skip(1))) + render_entry(x.0, x.1));
    }
}

/// Renders a possibly-negative integer in decimal.
pub fn i64_digits(t: i64) -> (v: Vec<char>)
    ensures
        v@ == sdec_seq(t as int),
{
    if t >= 0 {
        u64_digits(t as u64)
    } else {
        let m: u64 = if t == i64::MIN {
            9223372036854775808u64
        } else {
            (-t) as u64
        };
        let mut v: Vec<char> = Vec::new();
        v.push('-');
        let mut d = u64_digits(m);
        v.append(&mut d);
        proof {
            assert(v@ =~= seq!['-'] + dec_seq((-(t as int)) as nat));
        }
        v
    }
}

/// Reads the character range `[from, to)` as a possibly-negative decimal
/// timestamp, exactly as `parse_i64_field` does.
pub fn parse_i64_range(s: &str, from: usize, to: usize) -> (r: Option<i64>)
    requires
        from <= to <= s@.len(),
    ensures
        r == parse_i64_field(s@.subrange(from as int, to as int)),
{
    let ghost sub = s@.subrange(from as int, to as int);
    if to - from >= 2 && s.get_char(from) == '-' {
        proof {
            assert(sub[0] == s@[from as int]);
            assert(sub.skip(1) =~= s@.subrange(from as int + 1, to as int));
        }
        match parse_u64_range(s, from + 1, to) {
            Some(v) => {
                proof {
                    let rest = sub.skip(1);
                    assert(parse_u64_spec(rest) == Some(v));
                    assert(all_digits(rest));
                    crate::digits::lemma_seq_val_nonneg(rest);
                    assert(seq_val(rest) == v);
                }
                if v <= 9223372036854775807u64 {
                    Some(-(v as i64))
                } else if v == 9223372036854775808u64 {
                    Some(i64::MIN)
                } else {
                    None
                }
            },
            None => {
                proof {
                    let rest = sub.skip(1);
                    if all_digits(rest) && seq_val(rest) <= 9223372036854775808 {
                        crate::digits::lemma_seq_val_nonneg(rest);
                        assert(parse_u64_spec(rest) is Some);
                    }
                }
                None
            },
        }
    } else {
        proof {
            if sub.len() >= 2 && sub[0] == '-' {
                assert(s@[from as int] == sub[0]);
            }
        }
        match parse_u64_range(s, from, to) {
            Some(v) => {
                proof {
                    assert(parse_u64_spec(sub) == Some(v));
                    assert(all_digits(sub));
                    crate::digits::lemma_seq_val_nonneg(sub);
                    assert(seq_val(sub) == v);
                }
                if v <= i64::MAX as u64 {
                    Some(v as i64)
                } else {
                    None
                }
            },
            None => {
                proof {
                    if sub.len() >= 1 && all_digits(sub) && seq_val(sub) <= i64::MAX {
                        crate::digits::lemma_seq_val_nonneg(sub);
                        assert(parse_u64_spec(sub) is Some);
                    }
                }
                None
            },
        }
    }
}

/// Scans for the first `c` at or after `from`, reporting its absolute
/// position and what `find_char` says of the suffix.
fn scan_char(s: &str, from: usize, n: usize, c: char) -> (r: Option<usize>)
    requires
        from <= n,
        n == s@.len(),
    ensures
        match r {
            Some(j) => from <= j < n && s@[j as int] == c && find_char(s@.skip(from as int), c) == j
                - from,
            None => find_char(s@.skip(from as int), c) == -1,
        },
{
    let mut j: usize = from;
    while j < n
        invariant
            from <= j <= n,
            n == s@.len(),
            forall|x: int| from <= x < j ==> s@[x] != c,
        decreases n - j,
    {
        if s.get_char(j) == c {
            proof {
                let suf = s@.skip(from as int);
                assert(suf[j - from] == s@[j as int]);
                assert(forall|x: int| 0 <= x < j - from ==> suf[x] == s@[x + from]);
                lemma_find_char_at(suf, c, j - from);
            }
            return Some(j);
        }
        j = j + 1;
    }
    proof {
        let suf = s@.skip(from as int);
        assert(forall|x: int| 0 <= x < suf.len() ==> suf[x] == s@[x + from]);
        lemma_find_char_none(suf, c);
    }
    None
}

/// Reads a length-prefixed field starting at `i`, exactly as
/// `parse_len_field` reads the suffix.
fn parse_len_at(s: &str, i: usize, n: usize) -> (r: Option<(String, usize)>)
    requires
        i <= n,
        n == s@.len(),
    ensures
        match r {
            Some((content, next)) => i < next <= n && parse_len_field(s@.skip(i as int)) == Some(
                (content@, s@.skip(next as int)),
            ),
            None => parse_len_field(s@.skip(i as int)) is None,
        },
{
    let ghost suf = s@.skip(i as int);
    match scan_char(s, i, n, ':') {
        None => None,
        Some(j) => {
            proof {
                assert(suf.take(j - i) =~= s@.subrange(i as int, j as int));
            }
            if j == i {
                return None;
            }
            match parse_u64_range(s, i, j) {
                None => {
                    proof {
                        let jj = j - i;
                        if all_digits(suf.take(jj)) {
                            crate::digits::lemma_seq_val_nonneg(suf.take(jj));
                            if seq_val(suf.take(jj)) + jj + 1 <= suf.len() {
                                assert(seq_val(suf.take(jj)) <= u64::MAX);
                                assert(parse_u64_spec(suf.take(jj)) is Some);
                            }
                        }
                    }
                    None
                },
                Some(l) => {
                    proof {
                        let jj = j - i;
                        assert(parse_u64_spec(suf.take(jj)) == Some(l));
                        assert(all_digits(suf.take(jj)));
                        crate::digits::lemma_seq_val_nonneg(suf.take(jj));
                        assert(seq_val(suf.take(jj)) == l);
                    }
                    if l <= (n - j - 1) as u64 {
                        let lu = l as usize;
                        let content = s.substring_char(j + 1, j + 1 + lu).to_owned();
                        let next = j + 1 + lu;
                        proof {
                            let jj = j - i;
                            assert(suf.subrange(jj + 1, jj + 1 + l) =~= s@.subrange(
                                j as int + 1,
                                j as int + 1 + l,
                            ));
                            assert(suf.skip(jj + 1 + l) =~= s@.skip(next as int));
                        }
                        Some((content, next))
                    } else {
                        proof {
                            let jj = j - i;
                            assert(seq_val(suf.take(jj)) == l);
                            assert(jj + 1 + l > suf.len());
                        }
                        None
                    }
                },
            }
        },
    }
}

/// Reads one entry starting at `i`, exactly as `parse_entry` reads the
/// suffix.
fn parse_entry_at(s: &str, i: usize, n: usize) -> (r: Option<((String, PulledEntry), usize)>)
    requires
        i <= n,
        n == s@.len(),
    ensures
        match r {
            Some(((k, e), next)) => i < next <= n && parse_entry(s@.skip(i as int)) == Some(
                ((k@, e@), s@.skip(next as int)),
            ),
            None => parse_entry(s@.skip(i as int)) is None,
        },
{
    let ghost suf = s@.skip(i as int);
    let (key, i2) = match parse_len_at(s, i, n) {
        None => {
            return None;
        },
        Some(kv) => kv,
    };
    if i2 >= n {
        proof {
            assert(s@.skip(i2 as int).len() == 0);
        }
        return None;
    }
    if s.get_char(i2) != ',' {
        proof {
            assert(s@.skip(i2 as int)[0] == s@[i2 as int]);
        }
        return None;
    }
    proof {
        assert(s@.skip(i2 as int)[0] == s@[i2 as int]);
        assert(s@.skip(i2 as int).skip(1) =~= s@.skip(i2 as int + 1));
    }
    let (path, i3) = match parse_len_at(s, i2 + 1, n) {
        None => {
            return None;
        },
        Some(pv) => pv,
    };
    if i3 >= n {
        proof {
            assert(s@.skip(i3 as int).len() == 0);
        }
        return None;
    }
    if s.get_char(i3) != ',' {
        proof {
            assert(s@.skip(i3 as int)[0] == s@[i3 as int]);
        }
        return None;
    }
    proof {
        assert(s@.skip(i3 as int)[0] == s@[i3 as int]);
        assert(s@.skip(i3 as int).skip(1) =~= s@.skip(i3 as int + 1));
    }
    let i4 = i3 + 1;
    let j2 = match scan_char(s, i4, n, '\n') {
        None => {
            return None;
        },
        Some(j2) => j2,
    };
    if j2 == i4 {
        return None;
    }
    proof {
        assert(s@.skip(i4 as int).take(j2 - i4) =~= s@.subrange(i4 as int, j2 as int));
    }
    let t = match parse_i64_range(s, i4, j2) {
        None => {
            return None;
        },
        Some(t) => t,
    };
    let next = j2 + 1;
    proof {
        assert(s@.skip(i4 as int).skip(j2 - i4 + 1) =~= s@.skip(next as int));
    }
    Some(((key, PulledEntry { local_path: path, pulled_at: t }), next))
}

impl PullState {
    /// Renders this state as the state document.
    pub fn render(&self) -> (r: String)
        ensures
            r@ == render_doc(self.entry_seq()),
    {
        let mut out = String::new();
        let mut i: usize = 0;
        let n = self.len();
        proof {
            assert(self.entry_seq().take(0) =~= Seq::<(Seq<char>, EntryView)>::empty());
        }
        while i < n
            invariant
                i <= n,
                n == self.entry_seq().len(),
                out@ == render_doc(self.entry_seq().take(i as int)),
            decreases n - i,
        {
            let (key, entry) = self.entry_at(i);
            let klen = key.as_str().unicode_len();
            let mut piece = chars_string(&u64_digits(klen as u64));
            piece.append(":");
            piece.append(key.as_str());
            piece.append(",");
            let plen = entry.local_path.as_str().unicode_len();
            piece.append(chars_string(&u64_digits(plen as u64)).as_str());
            piece.append(":");
            piece.append(entry.local_path.as_str());
            piece.append(",");
            piece.append(chars_string(&i64_digits(entry.pulled_at)).as_str());
            piece.append("\n");
            proof {
                let es = self.entry_seq();
                assert(piece@ =~= render_entry(es[i as int].0, es[i as int].1));
                lemma_render_doc_snoc(es.take(i as int), es[i as int]);
                assert(es.take(i as int).push(es[i as int]) =~= es.take(i + 1));
            }
            out.append(piece.as_str());
            i = i + 1;
        }
        proof {
            assert(self.entry_seq().take(n as int) =~= self.entry_seq());
        }
        out
    }

    /// The entry at a position, cloned out.
    fn entry_at(&self, i: usize) -> (r: (String, PulledEntry))
        requires
            i < self.entry_seq().len(),
        ensures
            (r.0@, r.1@) == self.entry_seq()[i as int],
    {
        let pair = self.entry_ref(i);
        let key = pair.0.clone();
        let entry = PulledEntry { local_path: pair.1.local_path.clone(), pulled_at: pair.1.pulled_at };
        (key, entry)
    }

    /// Parses a state document, exactly as `parse_doc` reads it; a
    /// duplicated key is corrupt.
    pub fn parse(s: &str) -> (r: Result<PullState, PullError>)
        ensures
            match r {
                Ok(st) => st.wf() && parse_doc(s@) == Some(st.entry_seq()),
                Err(e) => (e matches PullError::Json(_)) && (parse_doc(s@) is None || (parse_doc(
                    s@,
                ) matches Some(es) && !distinct_keys(es))),
            },
    {
        let n = s.unicode_len();
        let mut st = PullState::default();
        let mut i: usize = 0;
        proof {
            assert(s@.skip(0) =~= s@);
            match parse_doc(s@) {
                Some(t) => {
                    assert(st.entry_seq() + t =~= t);
                },
                None => {},
            }
        }
        while i < n
            invariant
                i <= n,
                n == s@.len(),
                st.wf(),
                match parse_doc(s@.skip(i as int)) {
                    None => parse_doc(s@) is None,
                    Some(t) => parse_doc(s@) == Some(st.entry_seq() + t),
                },
            decreases n - i,
        {
            let ghost suf = s@.skip(i as int);
            match parse_entry_at(s, i, n) {
                None => {
                    return Err(PullError::Json(String::from_str("unreadable state entry")));
                },
                Some(((key, entry), next)) => {
                    let ghost kv = (key@, entry@);
                    let ghost rest = s@.skip(next as int);
                    proof {
                        assert(rest.len() < suf.len());
                    }
                    if st.is_pulled(key.as_str()) {
                        proof {
                            lemma_seq_to_map_contains(st.entry_seq(), key@);
                            let acc = st.entry_seq();
                            let a = choose|a: int|
                                0 <= a < acc.len() && (#[trigger] acc[a]).0 == key@;
                            match parse_doc(rest) {
                                None => {
                                    assert(parse_doc(suf) is None);
                                },
                                Some(t2) => {
                                    assert(parse_doc(suf) == Some(seq![kv] + t2));
                                    let es = acc + (seq![kv] + t2);
                                    assert(es[a].0 == key@);
                                    assert(es[acc.len() as int].0 == key@);
                                    assert(!distinct_keys(es));
                                },
                            }
                        }
                        return Err(
                            PullError::Json(String::from_str("duplicate identity in state")),
                        );
                    }
                    proof {
                        lemma_seq_to_map_contains(st.entry_seq(), key@);
                        lemma_upsert_absent(st.entry_seq(), key@, entry@);
                    }
                    let ghost old_acc = st.entry_seq();
                    st.mark_pulled(key, entry.local_path, entry.pulled_at);
                    proof {
                        assert(st.entry_seq() =~= old_acc.push(kv));
                        match parse_doc(rest) {
                            None => {
                                assert(parse_doc(suf) is None);
                            },
                            Some(t2) => {
                                assert(parse_doc(suf) == Some(seq![kv] + t2));
                                assert(old_acc + (seq![kv] + t2) =~= old_acc.push(kv) + t2);
                            },
                        }
                    }
                    i = next;
                },
            }
        }
        proof {
            assert(s@.skip(n as int).len() == 0);
            assert(st.entry_seq() + Seq::<(Seq<char>, EntryView)>::empty() =~= st.entry_seq());
        }
        Ok(st)
    }
}

/// Durable storage for the state document.  `stored` is the document text
/// the next load would see; a successful save replaces it whole, a failed
/// save leaves the previous document intact (no partial record is ever
/// readable).
pub trait StateStore {
    /// The document text currently persisted.  A store that does not say
    /// what it holds is modelled by an arbitrary document.
    open spec fn stored(&self) -> Seq<char> {
        arbitrary()
    }

    /// Atomically replaces the persisted document with this state's
    /// rendering.
    fn save(&mut self, state: &PullState) -> (r: Result<(), PullError>)
        ensures
            r matches Ok(_) ==> final (self).stored() == render_doc(state.entry_seq()),
            r matches Err(_) ==> final (self).stored() == old(self).stored(),
    ;
}

} // verus!
