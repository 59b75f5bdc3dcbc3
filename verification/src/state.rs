//! The sync state: a persistent mapping from article identity to the local
//! path and time of its last pull.  Created empty when no prior record
//! exists, mutated in memory during a run, and written back through the
//! state-document codec.

use vstd::prelude::*;

use crate::text::str_eq;

verus! {

/// One entry per pulled article identity: where it was stored and when the
/// pull completed (seconds since the Unix epoch, UTC).
#[derive(Debug, Clone)]
pub struct PulledEntry {
    pub local_path: String,
    pub pulled_at: i64,
}

/// The mathematical model of a state entry.
pub struct EntryView {
    pub local_path: Seq<char>,
    pub pulled_at: i64,
}

impl View for PulledEntry {
    type V = EntryView;

    open spec fn view(&self) -> EntryView {
        EntryView { local_path: self.local_path@, pulled_at: self.pulled_at }
    }
}

/// Keys of an entry sequence are pairwise distinct.
pub open spec fn distinct_keys(es: Seq<(Seq<char>, EntryView)>) -> bool {
    forall|i: int, j: int| 0 <= i < j < es.len() ==> (#[trigger] es[i]).0 != (#[trigger] es[j]).0
}

/// The mapping an entry sequence denotes; later entries win, though a
/// well-formed state never repeats a key.
pub open spec fn seq_to_map(es: Seq<(Seq<char>, EntryView)>) -> Map<Seq<char>, EntryView>
    decreases es.len(),
{
    if es.len() == 0 {
        Map::empty()
    } else {
        seq_to_map(es.drop_last()).insert(es.last().0, es.last().1)
    }
}

/// Replaces the entry with the given key in place, or appends one.
pub open spec fn upsert_seq(es: Seq<(Seq<char>, EntryView)>, k: Seq<char>, v: EntryView) -> Seq<
    (Seq<char>, EntryView),
>
    decreases es.len(),
{
    if es.len() == 0 {
        seq![(k, v)]
    } else if es[0].0 == k {
        seq![(k, v)] + es.skip(1)
    } else {
        seq![es[0]] + upsert_seq(es.skip(1), k, v)
    }
}

/// A key is in the denoted map exactly when some entry carries it.
pub proof fn lemma_seq_to_map_contains(es: Seq<(Seq<char>, EntryView)>, k: Seq<char>)
    ensures
        seq_to_map(es).contains_key(k) <==> exists|i: int| 0 <= i < es.len() && (#[trigger] es[i]).0
            == k,
    decreases es.len(),
{
    if es.len() > 0 {
        lemma_seq_to_map_contains(es.drop_last(), k);
        if es.last().0 == k {
            assert(es[es.len() - 1].0 == k);
        } else if seq_to_map(es).contains_key(k) {
            let i = choose|i: int| 0 <= i < es.drop_last().len() && (#[trigger] es.drop_last()[i]).0
                == k;
            assert(es[i].0 == k);
        } else {
            assert(forall|i: int|
                0 <= i < es.len() - 1 ==> (#[trigger] es[i]).0 == es.drop_last()[i].0);
        }
    }
}

/// With distinct keys, the entry carrying a key gives the map's value.
pub proof fn lemma_seq_to_map_index(es: Seq<(Seq<char>, EntryView)>, i: int)
    requires
        distinct_keys(es),
        0 <= i < es.len(),
    ensures
        seq_to_map(es).contains_key(es[i].0),
        seq_to_map(es)[es[i].0] == es[i].1,
    decreases es.len(),
{
    lemma_seq_to_map_contains(es, es[i].0);
    if i == es.len() - 1 {
    } else {
        let d = es.drop_last();
        assert(distinct_keys(d)) by {
            assert(forall|a: int, b: int|
                0 <= a < b < d.len() ==> (#[trigger] d[a]).0 == es[a].0 && (#[trigger] d[b]).0
                    == es[b].0);
        }
        lemma_seq_to_map_index(d, i);
        assert(es.last().0 != es[i].0);
    }
}

/// Upserting preserves key distinctness.
pub proof fn lemma_upsert_distinct(es: Seq<(Seq<char>, EntryView)>, k: Seq<char>, v: EntryView)
    requires
        distinct_keys(es),
    ensures
        distinct_keys(upsert_seq(es, k, v)),
    decreases es.len(),
{
    lemma_upsert_entries(es, k, v);
}

/// What the entries of an upserted sequence are: the new pair is present,
/// every other entry is one of the originals, and every original with a
/// different key survives.
#[verifier::rlimit(90)]
#[verifier::spinoff_prover]
pub proof fn lemma_upsert_entries(es: Seq<(Seq<char>, EntryView)>, k: Seq<char>, v: EntryView)
    requires
        distinct_keys(es),
    ensures
        distinct_keys(upsert_seq(es, k, v)),
        exists|i: int|
            0 <= i < upsert_seq(es, k, v).len() && #[trigger] upsert_seq(es, k, v)[i] == (k, v),
        forall|i: int|
            0 <= i < upsert_seq(es, k, v).len() && (#[trigger] upsert_seq(es, k, v)[i]).0 != k
                ==> exists|j: int| 0 <= j < es.len() && #[trigger] es[j] == upsert_seq(es, k, v)[i],
        forall|j: int|
            0 <= j < es.len() && (#[trigger] es[j]).0 != k ==> exists|i: int|
                0 <= i < upsert_seq(es, k, v).len() && #[trigger] upsert_seq(es, k, v)[i] == es[j],
    decreases es.len(),
{
    let u = upsert_seq(es, k, v);
    if es.len() == 0 {
        assert(u[0] == (k, v));
    } else if es[0].0 == k {
        assert(u == seq![(k, v)] + es.skip(1));
        assert(u[0] == (k, v));
        assert forall|i: int| 0 <= i < u.len() && (#[trigger] u[i]).0 != k implies exists|j: int|
            0 <= j < es.len() && #[trigger] es[j] == u[i] by {
            assert(i != 0);
            assert(es[i] == u[i]);
        }
        assert forall|j: int| 0 <= j < es.len() && (#[trigger] es[j]).0 != k implies exists|i: int|
            0 <= i < u.len() && #[trigger] u[i] == es[j] by {
            assert(j != 0);
            assert(u[j] == es[j]);
        }
        assert forall|a: int, b: int| 0 <= a < b < u.len() implies (#[trigger] u[a]).0 != (
        #[trigger] u[b]).0 by {
            if a == 0 {
                assert(u[b] == es[b]);
                assert(es[0].0 != es[b].0);
            } else {
                assert(u[a] == es[a] && u[b] == es[b]);
            }
        }
    } else {
        let t = es.skip(1);
        assert(distinct_keys(t)) by {
            assert(forall|a: int, b: int|
                0 <= a < b < t.len() ==> (#[trigger] t[a]).0 == es[a + 1].0 && (#[trigger] t[b]).0
                    == es[b + 1].0);
        }
        lemma_upsert_entries(t, k, v);
        let ut = upsert_seq(t, k, v);
        assert(u == seq![es[0]] + ut);
        assert(forall|i: int| 0 <= i < ut.len() ==> #[trigger] u[i + 1] == ut[i]);
        let w = choose|i: int| 0 <= i < ut.len() && #[trigger] ut[i] == (k, v);
        assert(u[w + 1] == (k, v));
        assert forall|i: int| 0 <= i < u.len() && (#[trigger] u[i]).0 != k implies exists|j: int|
            0 <= j < es.len() && #[trigger] es[j] == u[i] by {
            if i == 0 {
                assert(es[0] == u[0]);
            } else {
                assert(u[i] == ut[i - 1]);
                let j = choose|j: int| 0 <= j < t.len() && #[trigger] t[j] == ut[i - 1];
                assert(es[j + 1] == t[j]);
            }
        }
        assert forall|j: int| 0 <= j < es.len() && (#[trigger] es[j]).0 != k implies exists|i: int|
            0 <= i < u.len() && #[trigger] u[i] == es[j] by {
            if j == 0 {
                assert(u[0] == es[0]);
            } else {
                assert(t[j - 1] == es[j]);
                let i = choose|i: int| 0 <= i < ut.len() && #[trigger] ut[i] == t[j - 1];
                assert(u[i + 1] == es[j]);
            }
        }
        assert forall|a: int, b: int| 0 <= a < b < u.len() implies (#[trigger] u[a]).0 != (
        #[trigger] u[b]).0 by {
            if a == 0 {
                assert(u[b] == ut[b - 1]);
                if ut[b - 1].0 == k {
                    assert(es[0].0 != k);
                } else {
                    let j = choose|j: int| 0 <= j < t.len() && #[trigger] t[j] == ut[b - 1];
                    assert(es[0].0 != es[j + 1].0);
                }
            } else {
                assert(u[a] == ut[a - 1] && u[b] == ut[b - 1]);
            }
        }
    }
}

/// Upserting an entry sequence denotes inserting into its map.
pub proof fn lemma_upsert_map(es: Seq<(Seq<char>, EntryView)>, k: Seq<char>, v: EntryView)
    requires
        distinct_keys(es),
    ensures
        seq_to_map(upsert_seq(es, k, v)) == seq_to_map(es).insert(k, v),
{
    let u = upsert_seq(es, k, v);
    lemma_upsert_entries(es, k, v);
    let m1 = seq_to_map(u);
    let m2 = seq_to_map(es).insert(k, v);
    assert forall|key: Seq<char>| #[trigger] m1.contains_key(key) implies m2.contains_key(key)
        && m1[key] == m2[key] by {
        lemma_seq_to_map_contains(u, key);
        let i = choose|i: int| 0 <= i < u.len() && (#[trigger] u[i]).0 == key;
        lemma_seq_to_map_index(u, i);
        if key == k {
            let w = choose|w: int| 0 <= w < u.len() && #[trigger] u[w] == (k, v);
            assert(u[i] == u[w]) by {
                if i != w {
                    assert(u[i].0 != u[w].0);
                }
            }
            assert(m1[key] == v);
        } else {
            assert(u[i].0 != k);
            let j = choose|j: int| 0 <= j < es.len() && #[trigger] es[j] == u[i];
            lemma_seq_to_map_index(es, j);
            lemma_seq_to_map_contains(es, key);
            assert(m1[key] == es[j].1);
        }
    }
    assert forall|key: Seq<char>| #[trigger] m2.contains_key(key) implies m1.contains_key(key) by {
        if key == k {
            let w = choose|w: int| 0 <= w < u.len() && #[trigger] u[w] == (k, v);
            lemma_seq_to_map_contains(u, key);
            assert(u[w].0 == key);
        } else {
            lemma_seq_to_map_contains(es, key);
            let j = choose|j: int| 0 <= j < es.len() && (#[trigger] es[j]).0 == key;
            let i = choose|i: int| 0 <= i < u.len() && #[trigger] u[i] == es[j];
            lemma_seq_to_map_contains(u, key);
            assert(u[i].0 == key);
        }
    }
    assert(m1 =~= m2);
}

/// The full article-identity-to-entry mapping of an archive location.
#[derive(Debug)]
pub struct PullState {
    entries: Vec<(String, PulledEntry)>,
}

impl View for PullState {
    type V = Map<Seq<char>, EntryView>;

    open spec fn view(&self) -> Map<Seq<char>, EntryView> {
        seq_to_map(self.entry_seq())
    }
}

impl PullState {
    /// The entries in insertion order, as the codec sees them.
    pub closed spec fn entry_seq(&self) -> Seq<(Seq<char>, EntryView)> {
        self.entries@.map_values(|p: (String, PulledEntry)| (p.0@, p.1@))
    }

    /// Well-formed: no key occurs twice.
    pub open spec fn wf(&self) -> bool {
        distinct_keys(self.entry_seq())
    }

    /// The number of recorded identities.
    pub fn len(&self) -> (n: usize)
        ensures
            n == self.entry_seq().len(),
    {
        self.entries.len()
    }

    /// True when nothing has been recorded.
    pub fn is_empty(&self) -> (r: bool)
        ensures
            r == (self.entry_seq().len() == 0),
            r == (self@ =~= Map::<Seq<char>, EntryView>::empty()),
    {
        proof {
            if self.entry_seq().len() != 0 {
                lemma_seq_to_map_contains(self.entry_seq(), self.entry_seq()[0].0);
                assert(self@.contains_key(self.entry_seq()[0].0));
            }
        }
        self.entries.len() == 0
    }

    /// Builds a state from parsed entries.  Used by the document codec.
    pub(crate) fn from_entries(entries: Vec<(String, PulledEntry)>) -> (r: PullState)
        ensures
            r.entry_seq() == entries@.map_values(|p: (String, PulledEntry)| (p.0@, p.1@)),
    {
        PullState { entries }
    }

    /// A reference to the entry at a position.
    pub(crate) fn entry_ref(&self, i: usize) -> (r: &(String, PulledEntry))
        requires
            i < self.entry_seq().len(),
        ensures
            (r.0@, r.1@) == self.entry_seq()[i as int],
    {
        &self.entries[i]
    }

    /// Index of the entry carrying the given identity, if any.
    fn find_key(&self, platform_id: &str) -> (r: Option<usize>)
        ensures
            match r {
                Some(i) => i < self.entry_seq().len() && self.entry_seq()[i as int].0
                    == platform_id@,
                None => forall|i: int|
                    0 <= i < self.entry_seq().len() ==> (#[trigger] self.entry_seq()[i]).0
                        != platform_id@,
            },
    {
        let mut i: usize = 0;
        while i < self.entries.len()
            invariant
                i <= self.entries.len(),
                forall|j: int|
                    0 <= j < i ==> (#[trigger] self.entry_seq()[j]).0 != platform_id@,
            decreases self.entries.len() - i,
        {
            if str_eq(self.entries[i].0.as_str(), platform_id) {
                return Some(i);
            }
            i = i + 1;
        }
        None
    }

    /// True when the given identity was already pulled.
    pub fn is_pulled(&self, platform_id: &str) -> (r: bool)
        ensures
            r == self@.contains_key(platform_id@),
    {
        proof {
            lemma_seq_to_map_contains(self.entry_seq(), platform_id@);
        }
        match self.find_key(platform_id) {
            Some(_) => true,
            None => false,
        }
    }

    /// The local path the given identity was stored under, if any.
    pub fn get_local_path(&self, platform_id: &str) -> (r: Option<String>)
        requires
            self.wf(),
        ensures
            match r {
                Some(p) => self@.contains_key(platform_id@) && p@
                    == self@[platform_id@].local_path,
                None => !self@.contains_key(platform_id@),
            },
    {
        proof {
            lemma_seq_to_map_contains(self.entry_seq(), platform_id@);
        }
        match self.find_key(platform_id) {
            Some(i) => {
                proof {
                    lemma_seq_to_map_index(self.entry_seq(), i as int);
                }
                Some(self.entries[i].1.local_path.clone())
            },
            None => None,
        }
    }

    /// The instant the given identity was last pulled, if any.
    pub fn get_pulled_at(&self, platform_id: &str) -> (r: Option<i64>)
        requires
            self.wf(),
        ensures
            match r {
                Some(t) => self@.contains_key(platform_id@) && t == self@[platform_id@].pulled_at,
                None => !self@.contains_key(platform_id@),
            },
    {
        proof {
            lemma_seq_to_map_contains(self.entry_seq(), platform_id@);
        }
        match self.find_key(platform_id) {
            Some(i) => {
                proof {
                    lemma_seq_to_map_index(self.entry_seq(), i as int);
                }
                Some(self.entries[i].1.pulled_at)
            },
            None => None,
        }
    }

    /// Records (or overwrites) the entry for an identity: the path it was
    /// stored under and the time the pull completed.
    pub fn mark_pulled(&mut self, platform_id: String, local_path: String, pulled_at: i64)
        requires
            old(self).wf(),
        ensures
            final (self).wf(),
            final (self).entry_seq() == upsert_seq(
                old(self).entry_seq(),
                platform_id@,
                EntryView { local_path: local_path@, pulled_at },
            ),
            final (self)@ == old(self)@.insert(
                platform_id@,
                EntryView { local_path: local_path@, pulled_at },
            ),
    {
        proof {
            lemma_upsert_distinct(
                old(self).entry_seq(),
                platform_id@,
                EntryView { local_path: local_path@, pulled_at },
            );
            lemma_upsert_map(
                old(self).entry_seq(),
                platform_id@,
                EntryView { local_path: local_path@, pulled_at },
            );
        }
        let entry = PulledEntry { local_path, pulled_at };
        match self.find_key(platform_id.as_str()) {
            Some(i) => {
                self.entries.set(i, (platform_id, entry));
                proof {
                    lemma_upsert_at(
                        old(self).entry_seq(),
                        i as int,
                        platform_id@,
                        entry@,
                    );
                    assert(self.entry_seq() =~= upsert_seq(
                        old(self).entry_seq(),
                        platform_id@,
                        entry@,
                    ));
                }
            },
            None => {
                self.entries.push((platform_id, entry));
                proof {
                    lemma_upsert_absent(old(self).entry_seq(), platform_id@, entry@);
                    assert(self.entry_seq() =~= old(self).entry_seq().push((platform_id@, entry@)));
                    assert(self.entry_seq() =~= upsert_seq(
                        old(self).entry_seq(),
                        platform_id@,
                        entry@,
                    ));
                }
            },
        }
    }
}

/// When the key sits at index `i` of a distinct-key sequence, upserting
/// replaces exactly that index.
proof fn lemma_upsert_at(es: Seq<(Seq<char>, EntryView)>, i: int, k: Seq<char>, v: EntryView)
    requires
        distinct_keys(es),
        0 <= i < es.len(),
        es[i].0 == k,
    ensures
        upsert_seq(es, k, v) =~= es.update(i, (k, v)),
    decreases es.len(),
{
    if i == 0 {
        assert(upsert_seq(es, k, v) == seq![(k, v)] + es.skip(1));
    } else {
        let t = es.skip(1);
        assert(distinct_keys(t)) by {
            assert(forall|a: int, b: int|
                0 <= a < b < t.len() ==> (#[trigger] t[a]).0 == es[a + 1].0 && (#[trigger] t[b]).0
                    == es[b + 1].0);
        }
        assert(es[0].0 != k);
        assert(t[i - 1] == es[i]);
        lemma_upsert_at(t, i - 1, k, v);
        assert(upsert_seq(es, k, v) == seq![es[0]] + upsert_seq(t, k, v));
    }
}

/// When no entry carries the key, upserting appends.
pub proof fn lemma_upsert_absent(es: Seq<(Seq<char>, EntryView)>, k: Seq<char>, v: EntryView)
    requires
        forall|i: int| 0 <= i < es.len() ==> (#[trigger] es[i]).0 != k,
    ensures
        upsert_seq(es, k, v) =~= es.push((k, v)),
    decreases es.len(),
{
    if es.len() > 0 {
        let t = es.skip(1);
        assert(forall|i: int| 0 <= i < t.len() ==> (#[trigger] t[i]).0 == es[i + 1].0);
        lemma_upsert_absent(t, k, v);
        assert(upsert_seq(es, k, v) == seq![es[0]] + upsert_seq(t, k, v));
    }
}

impl Default for PullState {
    /// The empty state: no identity has been pulled.
    fn default() -> (r: Self)
        ensures
            r.wf(),
            r.entry_seq().len() == 0,
            r@ =~= Map::<Seq<char>, EntryView>::empty(),
    {
        PullState { entries: Vec::new() }
    }
}

} // verus!
