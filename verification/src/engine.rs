//! The synchronization engine: list, filter, dedup against the sync state,
//! fetch, persist, record — with incremental state saves so that no
//! completed work is ever forgotten by a later failure.

use vstd::prelude::*;

use crate::adapter::{meta_pid, meta_seq, page_slice, ArticleMetadata, MetaView, PullOptions,
    Puller, PER_PAGE};
use crate::article::ArticleView;
use crate::date::date_lt;
use crate::error::PullError;
use crate::state::{distinct_keys, lemma_upsert_distinct, lemma_upsert_map, seq_to_map, upsert_seq,
    EntryView, PullState};
use crate::statedoc::{render_doc, StateStore};
use crate::writer::Sink;

verus! {

/// Whether a listing record survives the filter: its publish date, when
/// present, must not lie strictly before the filter's minimum (dateless
/// records always pass), and drafts pass only when asked for.
pub open spec fn passes_filter(m: MetaView, f: PullOptions) -> bool {
    (match (f.since, m.published_at) {
        (Some(min), Some(d)) => !date_lt(d, min),
        _ => true,
    }) && (!m.is_draft || f.include_drafts)
}

/// The records that survive the filter, in listing order.
pub open spec fn surviving(arts: Seq<MetaView>, f: PullOptions) -> Seq<MetaView>
    decreases arts.len(),
{
    if arts.len() == 0 {
        Seq::empty()
    } else {
        (if passes_filter(arts[0], f) {
            seq![arts[0]]
        } else {
            Seq::empty()
        }) + surviving(arts.skip(1), f)
    }
}

/// Whether a surviving record is fetched: always under force, otherwise
/// only when its identity is not already in the state.
pub open spec fn needs_fetch(m: MetaView, st0: Map<Seq<char>, EntryView>, force: bool) -> bool {
    force || !st0.contains_key(meta_pid(m))
}

/// The records the run fetches, in canonical order.
pub open spec fn fetch_list(
    surv: Seq<MetaView>,
    st0: Map<Seq<char>, EntryView>,
    force: bool,
) -> Seq<MetaView>
    decreases surv.len(),
{
    if surv.len() == 0 {
        Seq::empty()
    } else {
        (if needs_fetch(surv[0], st0, force) {
            seq![surv[0]]
        } else {
            Seq::empty()
        }) + fetch_list(surv.skip(1), st0, force)
    }
}

/// Identities of a listing are pairwise distinct.
pub open spec fn distinct_pids(arts: Seq<MetaView>) -> bool {
    forall|i: int, j: int|
        0 <= i < j < arts.len() ==> meta_pid(#[trigger] arts[i]) != meta_pid(#[trigger] arts[j])
}

/// Filtering one more record appends it when it passes.
pub proof fn lemma_surviving_snoc(arts: Seq<MetaView>, f: PullOptions, x: MetaView)
    ensures
        surviving(arts.push(x), f) == if passes_filter(x, f) {
            surviving(arts, f).push(x)
        } else {
            surviving(arts, f)
        },
    decreases arts.len(),
{
    let p = arts.push(x);
    if arts.len() == 0 {
        assert(p[0] == x);
        assert(p.skip(1) =~= Seq::<MetaView>::empty());
        assert(surviving(Seq::<MetaView>::empty(), f) == Seq::<MetaView>::empty());
        assert(surviving(p.skip(1), f) == Seq::<MetaView>::empty());
        if passes_filter(x, f) {
            assert(surviving(p, f) =~= surviving(arts, f).push(x));
        } else {
            assert(surviving(p, f) =~= surviving(arts, f));
        }
    } else {
        assert(p[0] == arts[0]);
        assert(p.skip(1) =~= arts.skip(1).push(x));
        lemma_surviving_snoc(arts.skip(1), f, x);
        if passes_filter(x, f) {
            assert(surviving(p, f) =~= surviving(arts, f).push(x));
        } else {
            assert(surviving(p, f) =~= surviving(arts, f));
        }
    }
}

/// Planning one more record appends it when it needs a fetch.
pub proof fn lemma_fetch_list_snoc(
    surv: Seq<MetaView>,
    st0: Map<Seq<char>, EntryView>,
    force: bool,
    x: MetaView,
)
    ensures
        fetch_list(surv.push(x), st0, force) == if needs_fetch(x, st0, force) {
            fetch_list(surv, st0, force).push(x)
        } else {
            fetch_list(surv, st0, force)
        },
    decreases surv.len(),
{
    let p = surv.push(x);
    if surv.len() == 0 {
        assert(p[0] == x);
        assert(p.skip(1) =~= Seq::<MetaView>::empty());
        assert(fetch_list(Seq::<MetaView>::empty(), st0, force) == Seq::<MetaView>::empty());
        assert(fetch_list(p.skip(1), st0, force) == Seq::<MetaView>::empty());
        if needs_fetch(x, st0, force) {
            assert(fetch_list(p, st0, force) =~= fetch_list(surv, st0, force).push(x));
        } else {
            assert(fetch_list(p, st0, force) =~= fetch_list(surv, st0, force));
        }
    } else {
        assert(p[0] == surv[0]);
        assert(p.skip(1) =~= surv.skip(1).push(x));
        lemma_fetch_list_snoc(surv.skip(1), st0, force, x);
        if needs_fetch(x, st0, force) {
            assert(fetch_list(p, st0, force) =~= fetch_list(surv, st0, force).push(x));
        } else {
            assert(fetch_list(p, st0, force) =~= fetch_list(surv, st0, force));
        }
    }
}

/// Every record that survives the filter is one of the listed records, and
/// it passes the filter.
pub proof fn lemma_surviving_sub(arts: Seq<MetaView>, f: PullOptions)
    ensures
        forall|j: int|
            0 <= j < surviving(arts, f).len() ==> passes_filter(
                #[trigger] surviving(arts, f)[j],
                f,
            ) && exists|i: int| 0 <= i < arts.len() && arts[i] == surviving(arts, f)[j],
    decreases arts.len(),
{
    if arts.len() > 0 {
        lemma_surviving_sub(arts.skip(1), f);
        let s = surviving(arts, f);
        let head: int = if passes_filter(arts[0], f) {
            1
        } else {
            0
        };
        assert forall|j: int| 0 <= j < s.len() implies passes_filter(#[trigger] s[j], f) && exists|
            i: int,
        | 0 <= i < arts.len() && arts[i] == s[j] by {
            if j < head {
                assert(s[j] == arts[0]);
            } else {
                assert(s[j] == surviving(arts.skip(1), f)[j - head]);
                let i = choose|i: int|
                    0 <= i < arts.skip(1).len() && arts.skip(1)[i] == surviving(arts.skip(1), f)[j
                        - head];
                assert(arts[i + 1] == s[j]);
            }
        }
    }
}

/// Every planned record needs its fetch, is one of the surviving records,
/// and every surviving record that needs a fetch is planned.
pub proof fn lemma_fetch_list_sub(
    surv: Seq<MetaView>,
    st0: Map<Seq<char>, EntryView>,
    force: bool,
)
    ensures
        forall|j: int|
            0 <= j < fetch_list(surv, st0, force).len() ==> needs_fetch(
                #[trigger] fetch_list(surv, st0, force)[j],
                st0,
                force,
            ) && exists|i: int| 0 <= i < surv.len() && surv[i] == fetch_list(surv, st0, force)[j],
        forall|i: int|
            0 <= i < surv.len() && needs_fetch(#[trigger] surv[i], st0, force) ==> exists|j: int|
                0 <= j < fetch_list(surv, st0, force).len() && fetch_list(surv, st0, force)[j]
                    == surv[i],
    decreases surv.len(),
{
    if surv.len() > 0 {
        lemma_fetch_list_sub(surv.skip(1), st0, force);
        let fl = fetch_list(surv, st0, force);
        let tl = fetch_list(surv.skip(1), st0, force);
        let head: int = if needs_fetch(surv[0], st0, force) {
            1
        } else {
            0
        };
        assert forall|j: int| 0 <= j < fl.len() implies needs_fetch(#[trigger] fl[j], st0, force)
            && exists|i: int| 0 <= i < surv.len() && surv[i] == fl[j] by {
            if j < head {
                assert(fl[j] == surv[0]);
            } else {
                assert(fl[j] == tl[j - head]);
                let i = choose|i: int| 0 <= i < surv.skip(1).len() && surv.skip(1)[i] == tl[j - head];
                assert(surv[i + 1] == fl[j]);
            }
        }
        assert forall|i: int|
            0 <= i < surv.len() && needs_fetch(#[trigger] surv[i], st0, force) implies exists|
            j: int,
        | 0 <= j < fl.len() && fl[j] == surv[i] by {
            if i == 0 {
                assert(fl[0] == surv[0]);
            } else {
                assert(surv.skip(1)[i - 1] == surv[i]);
                let j = choose|j: int| 0 <= j < tl.len() && tl[j] == surv.skip(1)[i - 1];
                assert(fl[j + head] == surv[i]);
            }
        }
    }
}

/// A filtered listing keeps identities pairwise distinct.
pub proof fn lemma_surviving_distinct(arts: Seq<MetaView>, f: PullOptions)
    requires
        distinct_pids(arts),
    ensures
        distinct_pids(surviving(arts, f)),
    decreases arts.len(),
{
    if arts.len() > 0 {
        let t = arts.skip(1);
        assert(distinct_pids(t)) by {
            assert(forall|i: int| 0 <= i < t.len() ==> #[trigger] t[i] == arts[i + 1]);
        }
        lemma_surviving_distinct(t, f);
        lemma_surviving_sub(t, f);
        let s = surviving(arts, f);
        let st = surviving(t, f);
        if passes_filter(arts[0], f) {
            assert(s == seq![arts[0]] + st);
            assert forall|a: int, b: int| 0 <= a < b < s.len() implies meta_pid(#[trigger] s[a])
                != meta_pid(#[trigger] s[b]) by {
                if a == 0 {
                    assert(s[b] == st[b - 1]);
                    let i = choose|i: int| 0 <= i < t.len() && t[i] == st[b - 1];
                    assert(arts[i + 1] == s[b]);
                    assert(meta_pid(arts[0]) != meta_pid(arts[i + 1]));
                } else {
                    assert(s[a] == st[a - 1] && s[b] == st[b - 1]);
                }
            }
        } else {
            assert(s =~= st);
        }
    }
}

/// A planned list keeps identities pairwise distinct.
pub proof fn lemma_fetch_list_distinct(
    surv: Seq<MetaView>,
    st0: Map<Seq<char>, EntryView>,
    force: bool,
)
    requires
        distinct_pids(surv),
    ensures
        distinct_pids(fetch_list(surv, st0, force)),
    decreases surv.len(),
{
    if surv.len() > 0 {
        let t = surv.skip(1);
        assert(distinct_pids(t)) by {
            assert(forall|i: int| 0 <= i < t.len() ==> #[trigger] t[i] == surv[i + 1]);
        }
        lemma_fetch_list_distinct(t, st0, force);
        lemma_fetch_list_sub(t, st0, force);
        let s = fetch_list(surv, st0, force);
        let st = fetch_list(t, st0, force);
        if needs_fetch(surv[0], st0, force) {
            assert(s == seq![surv[0]] + st);
            assert forall|a: int, b: int| 0 <= a < b < s.len() implies meta_pid(#[trigger] s[a])
                != meta_pid(#[trigger] s[b]) by {
                if a == 0 {
                    assert(s[b] == st[b - 1]);
                    let i = choose|i: int| 0 <= i < t.len() && t[i] == st[b - 1];
                    assert(surv[i + 1] == s[b]);
                    assert(meta_pid(surv[0]) != meta_pid(surv[i + 1]));
                } else {
                    assert(s[a] == st[a - 1] && s[b] == st[b - 1]);
                }
            }
        } else {
            assert(s =~= st);
        }
    }
}

/// Planning splits over concatenation.
pub proof fn lemma_fetch_list_concat(
    a: Seq<MetaView>,
    b: Seq<MetaView>,
    st0: Map<Seq<char>, EntryView>,
    force: bool,
)
    ensures
        fetch_list(a + b, st0, force) == fetch_list(a, st0, force) + fetch_list(b, st0, force),
    decreases a.len(),
{
    if a.len() == 0 {
        assert(a + b =~= b);
        assert(fetch_list(a, st0, force) + fetch_list(b, st0, force) =~= fetch_list(b, st0, force));
    } else {
        assert((a + b)[0] == a[0]);
        assert((a + b).skip(1) =~= a.skip(1) + b);
        lemma_fetch_list_concat(a.skip(1), b, st0, force);
        if needs_fetch(a[0], st0, force) {
            assert(fetch_list(a + b, st0, force) =~= fetch_list(a, st0, force) + fetch_list(
                b,
                st0,
                force,
            ));
        } else {
            assert(fetch_list(a + b, st0, force) =~= fetch_list(a, st0, force) + fetch_list(
                b,
                st0,
                force,
            ));
        }
    }
}

/// The exec filter decision.
pub fn passes_filter_exec(m: &ArticleMetadata, f: &PullOptions) -> (r: bool)
    ensures
        r == passes_filter(m@, *f),
{
    let date_ok = match (&f.since, &m.published_at) {
        (Some(min), Some(d)) => !d.lt(min),
        _ => true,
    };
    date_ok && (!m.is_draft || f.include_drafts)
}

/// Lists every page of the source in order, applying the filter to each,
/// until the source returns a short (final) page.  On success the result
/// is exactly the filter's survivors in canonical order, and the number of
/// pages requested is reported.
pub fn collect_articles<P: Puller>(source: &P, filter: &PullOptions) -> (r: Result<
    (Vec<ArticleMetadata>, usize),
    PullError,
>)
    requires
        source.articles().len() + PER_PAGE < usize::MAX,
    ensures
        r matches Ok(c) ==> meta_seq(c.0@) == surviving(source.articles(), *filter) && c.1
            == source.articles().len() as int / (PER_PAGE as int) + 1,
{
    let ghost arts = source.articles();
    let mut all: Vec<ArticleMetadata> = Vec::new();
    let mut page: usize = 0;
    proof {
        assert(arts.take(0) =~= Seq::<MetaView>::empty());
        assert(meta_seq(all@) =~= Seq::<MetaView>::empty());
    }
    loop
        invariant
            arts == source.articles(),
            arts.len() + PER_PAGE < usize::MAX,
            (page as int) * (PER_PAGE as int) <= arts.len(),
            meta_seq(all@) == surviving(arts.take((page as int) * (PER_PAGE as int)), *filter),
        decreases arts.len() - (page as int) * (PER_PAGE as int),
    {
        let ghost start = (page as int) * (PER_PAGE as int);
        let pg = match source.list_page(page) {
            Ok(v) => v,
            Err(e) => {
                return Err(e);
            },
        };
        let count = pg.len();
        proof {
            assert(meta_seq(pg@) == page_slice(arts, page as int));
            assert(page_slice(arts, page as int).len() == if start + PER_PAGE <= arts.len() {
                PER_PAGE as int
            } else {
                arts.len() - start
            });
            assert(meta_seq(pg@).len() == pg@.len());
        }
        let mut k: usize = 0;
        while k < count
            invariant
                arts == source.articles(),
                k <= count,
                count == pg@.len(),
                meta_seq(pg@) == page_slice(arts, page as int),
                start == (page as int) * (PER_PAGE as int),
                0 <= start <= arts.len(),
                start + count <= arts.len(),
                meta_seq(all@) == surviving(arts.take(start + k), *filter),
            decreases count - k,
        {
            proof {
                assert(meta_seq(pg@).len() == pg@.len());
                assert(page_slice(arts, page as int)[k as int] == arts[start + k]);
                assert(meta_seq(pg@)[k as int] == pg@[k as int]@);
                assert(arts.take(start + k + 1) =~= arts.take(start + k).push(arts[start + k]));
                lemma_surviving_snoc(arts.take(start + k), *filter, arts[start + k]);
            }
            if passes_filter_exec(&pg[k], filter) {
                let m = clone_meta(&pg[k]);
                all.push(m);
                proof {
                    assert(meta_seq(all@) =~= surviving(arts.take(start + k), *filter).push(
                        pg@[k as int]@,
                    ));
                }
            }
            k = k + 1;
        }
        if count < PER_PAGE {
            proof {
                assert(start + count == arts.len());
                assert(arts.take(start + count) =~= arts);
                assert(arts.len() == (page as int) * (PER_PAGE as int) + count);
                assert(arts.len() as int / (PER_PAGE as int) == page as int) by (nonlinear_arith)
                    requires
                        arts.len() == (page as int) * (PER_PAGE as int) + count,
                        0 <= count < (PER_PAGE as int),
                        PER_PAGE == 100,
                ;
            }
            return Ok((all, page + 1));
        }
        proof {
            assert(count == PER_PAGE);
            assert(start + PER_PAGE <= arts.len());
            assert((page + 1) as int * (PER_PAGE as int) == start + PER_PAGE) by (nonlinear_arith)
                requires
                    start == (page as int) * (PER_PAGE as int),
            ;
        }
        page = page + 1;
    }
}

/// The state entry recorded for a fetched record: the sink's path for the
/// fetched article, stamped with the run's time.
pub open spec fn entry_for<P: Puller, S: Sink>(source: &P, sink: &S, m: MetaView, now: i64) -> EntryView {
    EntryView { local_path: sink.path_of(source.content()[m.id]), pulled_at: now }
}

/// The entry sequence after recording the given records in order.
pub open spec fn seq_after<P: Puller, S: Sink>(
    source: &P,
    sink: &S,
    es: Seq<(Seq<char>, EntryView)>,
    items: Seq<MetaView>,
    now: i64,
) -> Seq<(Seq<char>, EntryView)>
    decreases items.len(),
{
    if items.len() == 0 {
        es
    } else {
        seq_after(
            source,
            sink,
            upsert_seq(es, meta_pid(items[0]), entry_for(source, sink, items[0], now)),
            items.skip(1),
            now,
        )
    }
}

/// The state mapping after recording the given records in order.
pub open spec fn map_after<P: Puller, S: Sink>(
    source: &P,
    sink: &S,
    st: Map<Seq<char>, EntryView>,
    items: Seq<MetaView>,
    now: i64,
) -> Map<Seq<char>, EntryView>
    decreases items.len(),
{
    if items.len() == 0 {
        st
    } else {
        map_after(
            source,
            sink,
            st.insert(meta_pid(items[0]), entry_for(source, sink, items[0], now)),
            items.skip(1),
            now,
        )
    }
}

/// The paths the sink stores the planned records under, in order.
pub open spec fn planned_paths<P: Puller, S: Sink>(
    source: &P,
    sink: &S,
    plan: Seq<MetaView>,
) -> Seq<Seq<char>> {
    plan.map_values(|m: MetaView| sink.path_of(source.content()[m.id]))
}

/// The surviving records a non-forced run leaves alone, in canonical
/// order: those whose identity the state already has.
pub open spec fn skipped_list(
    surv: Seq<MetaView>,
    st0: Map<Seq<char>, EntryView>,
    force: bool,
) -> Seq<MetaView>
    decreases surv.len(),
{
    if surv.len() == 0 {
        Seq::empty()
    } else {
        (if !needs_fetch(surv[0], st0, force) {
            seq![surv[0]]
        } else {
            Seq::empty()
        }) + skipped_list(surv.skip(1), st0, force)
    }
}

/// The existing local path of each skipped record, reported for
/// visibility.
pub open spec fn skipped_paths_spec(
    st0: Map<Seq<char>, EntryView>,
    sk: Seq<MetaView>,
) -> Seq<Seq<char>> {
    sk.map_values(|m: MetaView| st0[meta_pid(m)].local_path)
}

/// Skipping one more record appends it when it is already recorded.
pub proof fn lemma_skipped_snoc(
    surv: Seq<MetaView>,
    st0: Map<Seq<char>, EntryView>,
    force: bool,
    x: MetaView,
)
    ensures
        skipped_list(surv.push(x), st0, force) == if !needs_fetch(x, st0, force) {
            skipped_list(surv, st0, force).push(x)
        } else {
            skipped_list(surv, st0, force)
        },
    decreases surv.len(),
{
    let p = surv.push(x);
    if surv.len() == 0 {
        assert(p[0] == x);
        assert(p.skip(1) =~= Seq::<MetaView>::empty());
        assert(skipped_list(p.skip(1), st0, force) == Seq::<MetaView>::empty());
        if !needs_fetch(x, st0, force) {
            assert(skipped_list(p, st0, force) =~= skipped_list(surv, st0, force).push(x));
        } else {
            assert(skipped_list(p, st0, force) =~= skipped_list(surv, st0, force));
        }
    } else {
        assert(p[0] == surv[0]);
        assert(p.skip(1) =~= surv.skip(1).push(x));
        lemma_skipped_snoc(surv.skip(1), st0, force, x);
        if !needs_fetch(x, st0, force) {
            assert(skipped_list(p, st0, force) =~= skipped_list(surv, st0, force).push(x));
        } else {
            assert(skipped_list(p, st0, force) =~= skipped_list(surv, st0, force));
        }
    }
}

/// What one skipped survivor does to the plan and the reported paths.
pub proof fn lemma_skip_update(
    st0: Map<Seq<char>, EntryView>,
    surv: Seq<MetaView>,
    force: bool,
    i: int,
)
    requires
        0 <= i < surv.len(),
        !needs_fetch(surv[i], st0, force),
    ensures
        fetch_list(surv.take(i + 1), st0, force) == fetch_list(surv.take(i), st0, force),
        skipped_list(surv.take(i + 1), st0, force) == skipped_list(
            surv.take(i),
            st0,
            force,
        ).push(surv[i]),
        skipped_paths_spec(st0, skipped_list(surv.take(i + 1), st0, force))
            == skipped_paths_spec(st0, skipped_list(surv.take(i), st0, force)).push(
            st0[meta_pid(surv[i])].local_path,
        ),
{
    assert(surv.take(i + 1) =~= surv.take(i).push(surv[i]));
    lemma_fetch_list_snoc(surv.take(i), st0, force, surv[i]);
    lemma_skipped_snoc(surv.take(i), st0, force, surv[i]);
    let pre = skipped_list(surv.take(i), st0, force);
    let a = skipped_paths_spec(st0, pre.push(surv[i]));
    let b = skipped_paths_spec(st0, pre).push(st0[meta_pid(surv[i])].local_path);
    assert forall|j: int| 0 <= j < a.len() implies a[j] == b[j] by {
        if j < pre.len() {
            assert(pre.push(surv[i])[j] == pre[j]);
        } else {
            assert(pre.push(surv[i])[j] == surv[i]);
        }
    }
    assert(a =~= b);
}

/// Recording one more item upserts its entry.
pub proof fn lemma_seq_after_snoc<P: Puller, S: Sink>(
    source: &P,
    sink: &S,
    es: Seq<(Seq<char>, EntryView)>,
    items: Seq<MetaView>,
    x: MetaView,
    now: i64,
)
    ensures
        seq_after(source, sink, es, items.push(x), now) == upsert_seq(
            seq_after(source, sink, es, items, now),
            meta_pid(x),
            entry_for(source, sink, x, now),
        ),
    decreases items.len(),
{
    let p = items.push(x);
    if items.len() == 0 {
        assert(p[0] == x);
        assert(p.skip(1) =~= Seq::<MetaView>::empty());
        assert(seq_after(
            source,
            sink,
            upsert_seq(es, meta_pid(x), entry_for(source, sink, x, now)),
            p.skip(1),
            now,
        ) == upsert_seq(es, meta_pid(x), entry_for(source, sink, x, now)));
    } else {
        assert(p[0] == items[0]);
        assert(p.skip(1) =~= items.skip(1).push(x));
        lemma_seq_after_snoc(
            source,
            sink,
            upsert_seq(es, meta_pid(items[0]), entry_for(source, sink, items[0], now)),
            items.skip(1),
            x,
            now,
        );
    }
}

/// Recording keeps the entry keys distinct, and the recorded sequence
/// denotes the recorded map.
pub proof fn lemma_seq_after_wf<P: Puller, S: Sink>(
    source: &P,
    sink: &S,
    es: Seq<(Seq<char>, EntryView)>,
    items: Seq<MetaView>,
    now: i64,
)
    requires
        distinct_keys(es),
    ensures
        distinct_keys(seq_after(source, sink, es, items, now)),
        seq_to_map(seq_after(source, sink, es, items, now)) == map_after(
            source,
            sink,
            seq_to_map(es),
            items,
            now,
        ),
    decreases items.len(),
{
    if items.len() > 0 {
        let k = meta_pid(items[0]);
        let v = entry_for(source, sink, items[0], now);
        lemma_upsert_distinct(es, k, v);
        lemma_upsert_map(es, k, v);
        lemma_seq_after_wf(source, sink, upsert_seq(es, k, v), items.skip(1), now);
    }
}

/// A key is in the recorded map exactly when it was there before or one of
/// the recorded items carries it.
pub proof fn lemma_map_after_keys<P: Puller, S: Sink>(
    source: &P,
    sink: &S,
    st: Map<Seq<char>, EntryView>,
    items: Seq<MetaView>,
    now: i64,
    key: Seq<char>,
)
    ensures
        map_after(source, sink, st, items, now).contains_key(key) <==> (st.contains_key(key)
            || exists|i: int| 0 <= i < items.len() && meta_pid(#[trigger] items[i]) == key),
    decreases items.len(),
{
    if items.len() > 0 {
        let st1 = st.insert(meta_pid(items[0]), entry_for(source, sink, items[0], now));
        lemma_map_after_keys(source, sink, st1, items.skip(1), now, key);
        let t = items.skip(1);
        assert(forall|i: int| 0 <= i < t.len() ==> #[trigger] t[i] == items[i + 1]);
        if map_after(source, sink, st, items, now).contains_key(key) {
            if !st.contains_key(key) {
                if st1.contains_key(key) {
                    assert(meta_pid(items[0]) == key);
                } else {
                    let i = choose|i: int| 0 <= i < t.len() && meta_pid(#[trigger] t[i]) == key;
                    assert(meta_pid(items[i + 1]) == key);
                }
            }
        }
        if st.contains_key(key) {
            assert(st1.contains_key(key));
        }
        if exists|i: int| 0 <= i < items.len() && meta_pid(#[trigger] items[i]) == key {
            let i = choose|i: int| 0 <= i < items.len() && meta_pid(#[trigger] items[i]) == key;
            if i == 0 {
                assert(st1.contains_key(key));
            } else {
                assert(meta_pid(t[i - 1]) == key);
            }
        }
    }
}

/// A key no recorded item carries keeps its old presence and value.
pub proof fn lemma_map_after_frame<P: Puller, S: Sink>(
    source: &P,
    sink: &S,
    st: Map<Seq<char>, EntryView>,
    items: Seq<MetaView>,
    now: i64,
    key: Seq<char>,
)
    requires
        forall|i: int| 0 <= i < items.len() ==> meta_pid(#[trigger] items[i]) != key,
    ensures
        map_after(source, sink, st, items, now).contains_key(key) == st.contains_key(key),
        st.contains_key(key) ==> map_after(source, sink, st, items, now)[key] == st[key],
    decreases items.len(),
{
    if items.len() > 0 {
        let st1 = st.insert(meta_pid(items[0]), entry_for(source, sink, items[0], now));
        assert(forall|i: int|
            0 <= i < items.skip(1).len() ==> #[trigger] items.skip(1)[i] == items[i + 1]);
        lemma_map_after_frame(source, sink, st1, items.skip(1), now, key);
    }
}

/// With distinct identities, every recorded item's entry is in the final
/// map under its identity, with the run's timestamp and the sink's path.
pub proof fn lemma_map_after_value<P: Puller, S: Sink>(
    source: &P,
    sink: &S,
    st: Map<Seq<char>, EntryView>,
    items: Seq<MetaView>,
    now: i64,
    i: int,
)
    requires
        distinct_pids(items),
        0 <= i < items.len(),
    ensures
        map_after(source, sink, st, items, now).contains_key(meta_pid(items[i])),
        map_after(source, sink, st, items, now)[meta_pid(items[i])] == entry_for(
            source,
            sink,
            items[i],
            now,
        ),
    decreases items.len(),
{
    let st1 = st.insert(meta_pid(items[0]), entry_for(source, sink, items[0], now));
    let t = items.skip(1);
    assert(forall|a: int| 0 <= a < t.len() ==> #[trigger] t[a] == items[a + 1]);
    assert(distinct_pids(t));
    if i == 0 {
        assert(forall|a: int| 0 <= a < t.len() ==> meta_pid(#[trigger] t[a]) != meta_pid(items[0]));
        lemma_map_after_frame(source, sink, st1, t, now, meta_pid(items[0]));
    } else {
        lemma_map_after_value(source, sink, st1, t, now, i - 1);
    }
}

/// No record planned from the first `i` survivors carries the identity of
/// survivor `i`.
pub proof fn lemma_plan_prefix_fresh(
    surv: Seq<MetaView>,
    st0: Map<Seq<char>, EntryView>,
    force: bool,
    i: int,
)
    requires
        distinct_pids(surv),
        0 <= i < surv.len(),
    ensures
        forall|j: int|
            0 <= j < fetch_list(surv.take(i), st0, force).len() ==> meta_pid(
                #[trigger] fetch_list(surv.take(i), st0, force)[j],
            ) != meta_pid(surv[i]),
{
    lemma_fetch_list_sub(surv.take(i), st0, force);
    let pre = fetch_list(surv.take(i), st0, force);
    assert forall|j: int| 0 <= j < pre.len() implies meta_pid(#[trigger] pre[j]) != meta_pid(
        surv[i],
    ) by {
        let a = choose|a: int| 0 <= a < surv.take(i).len() && surv.take(i)[a] == pre[j];
        assert(surv[a] == pre[j]);
        assert(meta_pid(surv[a]) != meta_pid(surv[i]));
    }
}

/// Recording the plan of the first `i` survivors does not change whether
/// survivor `i`'s identity is in the state.
pub proof fn lemma_dedup_unchanged<P: Puller, S: Sink>(
    source: &P,
    sink: &S,
    st0: Map<Seq<char>, EntryView>,
    surv: Seq<MetaView>,
    force: bool,
    i: int,
    now: i64,
)
    requires
        distinct_pids(surv),
        0 <= i < surv.len(),
    ensures
        map_after(
            source,
            sink,
            st0,
            fetch_list(surv.take(i), st0, force),
            now,
        ).contains_key(meta_pid(surv[i])) == st0.contains_key(meta_pid(surv[i])),
        st0.contains_key(meta_pid(surv[i])) ==> map_after(
            source,
            sink,
            st0,
            fetch_list(surv.take(i), st0, force),
            now,
        )[meta_pid(surv[i])] == st0[meta_pid(surv[i])],
{
    lemma_plan_prefix_fresh(surv, st0, force, i);
    lemma_map_after_frame(
        source,
        sink,
        st0,
        fetch_list(surv.take(i), st0, force),
        now,
        meta_pid(surv[i]),
    );
}

/// Pushing a path onto the collected list pushes its view.
pub proof fn lemma_paths_push(v: Seq<String>, x: String)
    ensures
        v.push(x).map_values(|p: String| p@) == v.map_values(|p: String| p@).push(x@),
{
    let a = v.push(x).map_values(|p: String| p@);
    let b = v.map_values(|p: String| p@).push(x@);
    assert forall|j: int| 0 <= j < a.len() implies a[j] == b[j] by {
        if j < v.len() {
            assert(v.push(x)[j] == v[j]);
        } else {
            assert(v.push(x)[j] == x);
        }
    }
    assert(a =~= b);
}

/// What one fetched survivor does to the plan, the recorded entries and
/// the collected paths.
pub proof fn lemma_step_update<P: Puller, S: Sink>(
    source: &P,
    sink0: &S,
    st0: Map<Seq<char>, EntryView>,
    es0: Seq<(Seq<char>, EntryView)>,
    surv: Seq<MetaView>,
    force: bool,
    i: int,
    now: i64,
)
    requires
        0 <= i < surv.len(),
        needs_fetch(surv[i], st0, force),
    ensures
        fetch_list(surv.take(i + 1), st0, force) == fetch_list(surv.take(i), st0, force).push(
            surv[i],
        ),
        planned_paths(source, sink0, fetch_list(surv.take(i + 1), st0, force)) == planned_paths(
            source,
            sink0,
            fetch_list(surv.take(i), st0, force),
        ).push(sink0.path_of(source.content()[surv[i].id])),
        seq_after(source, sink0, es0, fetch_list(surv.take(i + 1), st0, force), now) == upsert_seq(
            seq_after(source, sink0, es0, fetch_list(surv.take(i), st0, force), now),
            meta_pid(surv[i]),
            entry_for(source, sink0, surv[i], now),
        ),
        skipped_list(surv.take(i + 1), st0, force) == skipped_list(surv.take(i), st0, force),
{
    assert(surv.take(i + 1) =~= surv.take(i).push(surv[i]));
    lemma_fetch_list_snoc(surv.take(i), st0, force, surv[i]);
    lemma_skipped_snoc(surv.take(i), st0, force, surv[i]);
    let pre = fetch_list(surv.take(i), st0, force);
    lemma_seq_after_snoc(source, sink0, es0, pre, surv[i], now);
    let a = planned_paths(source, sink0, pre.push(surv[i]));
    let b = planned_paths(source, sink0, pre).push(sink0.path_of(source.content()[surv[i].id]));
    assert forall|j: int| 0 <= j < a.len() implies a[j] == b[j] by {
        if j < pre.len() {
            assert(pre.push(surv[i])[j] == pre[j]);
        } else {
            assert(pre.push(surv[i])[j] == surv[i]);
        }
    }
    assert(a =~= b);
}

/// Every artifact the sink now holds was there before the run or sits at
/// the path of one of the given records.
pub open spec fn artifacts_bounded<P: Puller, S: Sink>(
    source: &P,
    sink0: &S,
    arts0: Set<Seq<char>>,
    arts1: Set<Seq<char>>,
    items: Seq<MetaView>,
) -> bool {
    forall|p: Seq<char>|
        #[trigger] arts1.contains(p) ==> arts0.contains(p) || exists|i: int|
            0 <= i < items.len() && p == sink0.path_of(
                source.content()[(#[trigger] items[i]).id],
            )
}

/// An artifact bound survives adding one more record's artifact and
/// widening the record list.
pub proof fn lemma_artifacts_extend<P: Puller, S: Sink>(
    source: &P,
    sink0: &S,
    arts0: Set<Seq<char>>,
    arts_mid: Set<Seq<char>>,
    arts1: Set<Seq<char>>,
    pre: Seq<MetaView>,
    full: Seq<MetaView>,
)
    requires
        artifacts_bounded(source, sink0, arts0, arts_mid, pre),
        pre.len() <= full.len(),
        forall|i: int| 0 <= i < pre.len() ==> #[trigger] full[i] == pre[i],
        arts1 == arts_mid || (pre.len() < full.len() && arts1 == arts_mid.insert(
            sink0.path_of(source.content()[full[pre.len() as int].id]),
        )),
    ensures
        artifacts_bounded(source, sink0, arts0, arts1, full),
{
    assert forall|p: Seq<char>| #[trigger] arts1.contains(p) implies arts0.contains(p) || exists|
        i: int,
    | 0 <= i < full.len() && p == sink0.path_of(source.content()[(#[trigger] full[i]).id]) by {
        if arts_mid.contains(p) {
            if !arts0.contains(p) {
                let i = choose|i: int|
                    0 <= i < pre.len() && p == sink0.path_of(
                        source.content()[(#[trigger] pre[i]).id],
                    );
                assert(full[i] == pre[i]);
            }
        } else {
            assert(p == sink0.path_of(source.content()[full[pre.len() as int].id]));
            assert(0 <= pre.len() < full.len());
        }
    }
}

/// How an aborted run may leave the state, the store and the sink: the
/// in-memory state has recorded exactly the first `k` planned items; the
/// stored document is untouched when no item was recorded, and otherwise
/// the rendering of the recorded state or of the state one item earlier
/// (when the very save of item `k` failed — for `k == 1` that leaves the
/// untouched pre-run document); and the sink holds at most its pre-run
/// artifacts plus those of the first `k` planned items and possibly a
/// partial one for the item that failed.
pub open spec fn abort_ok<P: Puller, S: Sink>(
    source: &P,
    sink0: &S,
    stored0: Seq<char>,
    stored1: Seq<char>,
    arts0: Set<Seq<char>>,
    arts1: Set<Seq<char>>,
    es0: Seq<(Seq<char>, EntryView)>,
    es1: Seq<(Seq<char>, EntryView)>,
    plan: Seq<MetaView>,
    now: i64,
    k: int,
) -> bool {
    &&& 0 <= k <= plan.len()
    &&& es1 == seq_after(source, sink0, es0, plan.take(k), now)
    &&& (if k == 0 {
        stored1 == stored0
    } else if k == 1 {
        stored1 == render_doc(seq_after(source, sink0, es0, plan.take(1), now)) || stored1
            == stored0
    } else {
        stored1 == render_doc(seq_after(source, sink0, es0, plan.take(k), now)) || stored1
            == render_doc(seq_after(source, sink0, es0, plan.take(k - 1), now))
    })
    &&& artifacts_bounded(
        source,
        sink0,
        arts0,
        arts1,
        plan.take(
            if k + 1 <= plan.len() {
                k + 1
            } else {
                k
            },
        ),
    )
}

/// What one run did: the surviving records, those fetched, those skipped,
/// the listing pages requested, the sink-relative path of each fetched
/// record in canonical order, and — for visibility — the existing local
/// path of each skipped record.
pub struct SyncReport {
    pub pulled: usize,
    pub skipped: usize,
    pub total: usize,
    pub pages: usize,
    pub paths: Vec<String>,
    pub skipped_paths: Vec<String>,
}

/// Runs one synchronization pass: list and filter every page, skip the
/// identities the state already has (unless forced), fetch and persist the
/// rest in canonical order, record each success, and save the state after
/// every recorded item as well as at the end.  A dry run touches neither
/// the state, nor the store, nor the sink's artifacts.
///
/// Every failure aborts the run at once: the error a listing, fetch,
/// persist or save call raised is returned as it came, with no retry (a
/// rate-limited response included), and `abort_ok` bounds what the run had
/// touched by then — in particular, a failure before the first fetch
/// leaves the state and the stored document exactly as they were.
#[verifier::rlimit(100)]
#[verifier::spinoff_prover]
#[verifier::loop_isolation(false)]
pub fn run<P: Puller, S: Sink, T: StateStore>(
    source: &P,
    sink: &mut S,
    store: &mut T,
    state: &mut PullState,
    filter: &PullOptions,
    force: bool,
    dry_run: bool,
    now: i64,
) -> (r: Result<SyncReport, PullError>)
    requires
        old(state).wf(),
        distinct_pids(source.articles()),
        source.articles().len() + PER_PAGE < usize::MAX,
        old(sink).is_dry() == dry_run,
    ensures
        final (state).wf(),
        forall|x: ArticleView| final (sink).path_of(x) == old(sink).path_of(x),
        final (sink).is_dry() == old(sink).is_dry(),
        dry_run ==> final (state).entry_seq() == old(state).entry_seq() && final (state)@ == old(
            state,
        )@,
        dry_run ==> final (store).stored() == old(store).stored(),
        dry_run ==> final (sink).artifacts() == old(sink).artifacts(),
        match r {
            Ok(rep) => {
                let surv = surviving(source.articles(), *filter);
                let plan = fetch_list(surv, old(state)@, force);
                &&& rep.total == surv.len()
                &&& rep.pulled == plan.len()
                &&& rep.skipped == surv.len() - plan.len()
                &&& rep.pages == source.articles().len() as int / (PER_PAGE as int) + 1
                &&& rep.paths@.map_values(|p: String| p@) == planned_paths(source, old(sink), plan)
                &&& rep.skipped_paths@.map_values(|p: String| p@) == skipped_paths_spec(
                    old(state)@,
                    skipped_list(surv, old(state)@, force),
                )
                &&& forall|i: int|
                    0 <= i < plan.len() ==> source.content().contains_key(
                        meta_pid_id(#[trigger] plan[i]),
                    )
                &&& !dry_run ==> final (state).entry_seq() == seq_after(
                    source,
                    old(sink),
                    old(state).entry_seq(),
                    plan,
                    now,
                )
                &&& !dry_run ==> final (state)@ == map_after(
                    source,
                    old(sink),
                    old(state)@,
                    plan,
                    now,
                )
                &&& !dry_run ==> final (store).stored() == render_doc(final (state).entry_seq())
                &&& !dry_run ==> artifacts_bounded(
                    source,
                    old(sink),
                    old(sink).artifacts(),
                    final (sink).artifacts(),
                    plan,
                )
            },
            Err(_) => !dry_run ==> exists|k: int|
                abort_ok(
                    source,
                    old(sink),
                    old(store).stored(),
                    final (store).stored(),
                    old(sink).artifacts(),
                    final (sink).artifacts(),
                    old(state).entry_seq(),
                    final (state).entry_seq(),
                    fetch_list(surviving(source.articles(), *filter), old(state)@, force),
                    now,
                    k,
                ),
        },
{
    let ghost arts = source.articles();
    let ghost surv = surviving(arts, *filter);
    let ghost st0 = old(state)@;
    let ghost es0 = old(state).entry_seq();
    let ghost plan = fetch_list(surv, st0, force);
    proof {
        lemma_surviving_distinct(arts, *filter);
    }
    let collected = match collect_articles(source, filter) {
        Ok(c) => c,
        Err(e) => {
            proof {
                if !dry_run {
                    assert(plan.take(0) =~= Seq::<MetaView>::empty());
                    assert(seq_after(source, old(sink), es0, plan.take(0), now) == es0);
                    assert(sink.artifacts() == old(sink).artifacts());
                    assert(abort_ok(
                        source,
                        old(sink),
                        old(store).stored(),
                        store.stored(),
                        old(sink).artifacts(),
                        sink.artifacts(),
                        es0,
                        state.entry_seq(),
                        plan,
                        now,
                        0,
                    ));
                }
            }
            return Err(e);
        },
    };
    let (all, pages) = collected;
    let total = all.len();
    proof {
        assert(meta_seq(all@).len() == all@.len());
    }
    match fetch_phase(source, sink, store, state, &all, force, dry_run, now) {
        Ok(out) => {
            let (pulled, skipped, paths, skipped_paths) = out;
            Ok(SyncReport { pulled, skipped, total, pages, paths, skipped_paths })
        },
        Err(e) => Err(e),
    }
}

/// The fetch-and-persist phase: for each record of the filtered listing in
/// canonical order, skip it when its identity is already recorded (unless
/// forced), otherwise fetch it, hand it to the sink, record the returned
/// path, and save the state; the state is saved once more at the end.
/// Returns the pulled count, the skipped count and the paths in order.
#[verifier::rlimit(100)]
#[verifier::spinoff_prover]
fn fetch_phase<P: Puller, S: Sink, T: StateStore>(
    source: &P,
    sink: &mut S,
    store: &mut T,
    state: &mut PullState,
    all: &Vec<ArticleMetadata>,
    force: bool,
    dry_run: bool,
    now: i64,
) -> (r: Result<(usize, usize, Vec<String>, Vec<String>), PullError>)
    requires
        old(state).wf(),
        distinct_pids(meta_seq(all@)),
        old(sink).is_dry() == dry_run,
    ensures
        final (state).wf(),
        forall|x: ArticleView| final (sink).path_of(x) == old(sink).path_of(x),
        final (sink).is_dry() == old(sink).is_dry(),
        dry_run ==> final (state).entry_seq() == old(state).entry_seq() && final (state)@ == old(
            state,
        )@,
        dry_run ==> final (store).stored() == old(store).stored(),
        dry_run ==> final (sink).artifacts() == old(sink).artifacts(),
        match r {
            Ok(out) => {
                let surv = meta_seq(all@);
                let plan = fetch_list(surv, old(state)@, force);
                &&& out.0 == plan.len()
                &&& out.1 == surv.len() - plan.len()
                &&& out.2@.map_values(|p: String| p@) == planned_paths(source, old(sink), plan)
                &&& out.3@.map_values(|p: String| p@) == skipped_paths_spec(
                    old(state)@,
                    skipped_list(surv, old(state)@, force),
                )
                &&& forall|i: int|
                    0 <= i < plan.len() ==> source.content().contains_key(
                        meta_pid_id(#[trigger] plan[i]),
                    )
                &&& !dry_run ==> final (state).entry_seq() == seq_after(
                    source,
                    old(sink),
                    old(state).entry_seq(),
                    plan,
                    now,
                )
                &&& !dry_run ==> final (state)@ == map_after(
                    source,
                    old(sink),
                    old(state)@,
                    plan,
                    now,
                )
                &&& !dry_run ==> final (store).stored() == render_doc(final (state).entry_seq())
                &&& !dry_run ==> artifacts_bounded(
                    source,
                    old(sink),
                    old(sink).artifacts(),
                    final (sink).artifacts(),
                    plan,
                )
            },
            Err(_) => !dry_run ==> exists|k: int|
                abort_ok(
                    source,
                    old(sink),
                    old(store).stored(),
                    final (store).stored(),
                    old(sink).artifacts(),
                    final (sink).artifacts(),
                    old(state).entry_seq(),
                    final (state).entry_seq(),
                    fetch_list(meta_seq(all@), old(state)@, force),
                    now,
                    k,
                ),
        },
{
    let ghost surv = meta_seq(all@);
    let ghost st0 = old(state)@;
    let ghost es0 = old(state).entry_seq();
    let ghost plan = fetch_list(surv, st0, force);
    proof {
        lemma_fetch_list_distinct(surv, st0, force);
        lemma_fetch_list_sub(surv, st0, force);
    }
    let total = all.len();
    let mut pulled: usize = 0;
    let mut skipped: usize = 0;
    let mut paths: Vec<String> = Vec::new();
    let mut spaths: Vec<String> = Vec::new();
    let mut i: usize = 0;
    proof {
        assert(surv.take(0) =~= Seq::<MetaView>::empty());
        assert(fetch_list(surv.take(0), st0, force) =~= Seq::<MetaView>::empty());
        assert(skipped_list(surv.take(0), st0, force) =~= Seq::<MetaView>::empty());
        assert(paths@.map_values(|p: String| p@) =~= planned_paths(
            source,
            old(sink),
            fetch_list(surv.take(0), st0, force),
        ));
        assert(spaths@.map_values(|p: String| p@) =~= skipped_paths_spec(
            st0,
            skipped_list(surv.take(0), st0, force),
        ));
        assert(sink.artifacts() == old(sink).artifacts());
    }
    while i < total
        invariant
            total == all@.len(),
            surv == meta_seq(all@),
            old(sink).is_dry() == dry_run,
            st0 == old(state)@,
            es0 == old(state).entry_seq(),
            plan == fetch_list(surv, st0, force),
            distinct_pids(surv),
            distinct_keys(es0),
            i <= total,
            pulled == fetch_list(surv.take(i as int), st0, force).len(),
            pulled + skipped == i,
            spaths@.map_values(|p: String| p@) == skipped_paths_spec(
                st0,
                skipped_list(surv.take(i as int), st0, force),
            ),
            forall|x: ArticleView| sink.path_of(x) == old(sink).path_of(x),
            sink.is_dry() == dry_run,
            state.wf(),
            paths@.map_values(|p: String| p@) == planned_paths(
                source,
                old(sink),
                fetch_list(surv.take(i as int), st0, force),
            ),
            forall|j: int|
                0 <= j < fetch_list(surv.take(i as int), st0, force).len()
                    ==> source.content().contains_key(
                    meta_pid_id(#[trigger] fetch_list(surv.take(i as int), st0, force)[j]),
                ),
            dry_run ==> state.entry_seq() == es0 && state@ == st0,
            dry_run ==> store.stored() == old(store).stored(),
            dry_run ==> sink.artifacts() == old(sink).artifacts(),
            !dry_run ==> state.entry_seq() == seq_after(
                source,
                old(sink),
                es0,
                fetch_list(surv.take(i as int), st0, force),
                now,
            ),
            !dry_run ==> (pulled >= 1 ==> store.stored() == render_doc(state.entry_seq())),
            !dry_run ==> (pulled == 0 ==> store.stored() == old(store).stored()),
            !dry_run ==> artifacts_bounded(
                source,
                old(sink),
                old(sink).artifacts(),
                sink.artifacts(),
                fetch_list(surv.take(i as int), st0, force),
            ),
        decreases total - i,
    {
        let ghost plan_i = fetch_list(surv.take(i as int), st0, force);
        let ghost m_v = surv[i as int];
        proof {
            assert(meta_seq(all@)[i as int] == all@[i as int]@);
            assert(surv.take(i as int).push(m_v) =~= surv.take(i + 1));
            lemma_fetch_list_snoc(surv.take(i as int), st0, force, m_v);
            lemma_fetch_list_sub(surv.take(i as int), st0, force);
            lemma_fetch_list_concat(surv.take(i as int), surv.skip(i as int), st0, force);
            assert(surv.take(i as int) + surv.skip(i as int) =~= surv);
        }
        let m = &all[i];
        let pid = m.platform_id();
        let already = if force {
            false
        } else {
            state.is_pulled(pid.as_str())
        };
        proof {
            if !force {
                if dry_run {
                    assert(state@ == st0);
                } else {
                    lemma_seq_after_wf(source, old(sink), es0, plan_i, now);
                    lemma_dedup_unchanged(source, old(sink), st0, surv, force, i as int, now);
                }
                assert(state@.contains_key(meta_pid(m_v)) == st0.contains_key(meta_pid(m_v)));
            }
            assert(already == !needs_fetch(m_v, st0, force));
        }
        if already {
            let ghost prev_spaths = spaths@;
            let existing = match state.get_local_path(pid.as_str()) {
                Some(p) => p,
                // A skipped identity was just found in the state, so a
                // missing path is impossible.
                None => {
                    proof {
                        assert(false);
                    }
                    String::new()
                },
            };
            proof {
                assert(m@ == m_v);
                lemma_skip_update(st0, surv, force, i as int);
                lemma_paths_push(prev_spaths, existing);
                if dry_run {
                    assert(state@[meta_pid(m_v)] == st0[meta_pid(m_v)]);
                }
                assert(existing@ == st0[meta_pid(m_v)].local_path);
            }
            spaths.push(existing);
            skipped = skipped + 1;
        } else {
            let ghost pre_es = state.entry_seq();
            let ghost prev_paths = paths@;
            let ghost pre_arts = sink.artifacts();
            proof {
                assert(m@ == m_v);
            }
            let path = match pull_one(source, sink, store, state, m, dry_run, now) {
                Ok(p) => p,
                Err(e) => {
                    proof {
                        if !dry_run {
                            let k0 = plan_i.len() as int;
                            assert(plan.take(k0) =~= plan_i);
                            assert(fetch_list(surv.skip(i as int), st0, force)[0] == m_v);
                            assert(plan[k0] == m_v);
                            assert(plan.take(k0 + 1)[k0] == m_v);
                            assert(forall|j: int|
                                0 <= j < k0 ==> #[trigger] plan.take(k0 + 1)[j] == plan_i[j]);
                            lemma_artifacts_extend(
                                source,
                                old(sink),
                                old(sink).artifacts(),
                                pre_arts,
                                sink.artifacts(),
                                plan_i,
                                plan.take(k0 + 1),
                            );
                            if k0 + 2 <= plan.len() {
                                assert(forall|j: int|
                                    0 <= j < k0 + 1 ==> #[trigger] plan.take(k0 + 2)[j]
                                        == plan.take(k0 + 1)[j]);
                                lemma_artifacts_extend(
                                    source,
                                    old(sink),
                                    old(sink).artifacts(),
                                    sink.artifacts(),
                                    sink.artifacts(),
                                    plan.take(k0 + 1),
                                    plan.take(k0 + 2),
                                );
                            }
                            if state.entry_seq() == pre_es {
                                assert(abort_ok(
                                    source,
                                    old(sink),
                                    old(store).stored(),
                                    store.stored(),
                                    old(sink).artifacts(),
                                    sink.artifacts(),
                                    es0,
                                    state.entry_seq(),
                                    plan,
                                    now,
                                    k0,
                                ));
                            } else {
                                lemma_seq_after_snoc(source, old(sink), es0, plan_i, m_v, now);
                                assert(plan.take(k0 + 1) =~= plan_i.push(m_v));
                                assert(abort_ok(
                                    source,
                                    old(sink),
                                    old(store).stored(),
                                    store.stored(),
                                    old(sink).artifacts(),
                                    sink.artifacts(),
                                    es0,
                                    state.entry_seq(),
                                    plan,
                                    now,
                                    k0 + 1,
                                ));
                            }
                        }
                    }
                    return Err(e);
                },
            };
            proof {
                lemma_step_update(source, old(sink), st0, es0, surv, force, i as int, now);
                lemma_paths_push(prev_paths, path);
                assert(path@ == old(sink).path_of(source.content()[m_v.id]));
                if !dry_run {
                    assert(plan_i.push(m_v)[plan_i.len() as int] == m_v);
                    assert(forall|j: int|
                        0 <= j < plan_i.len() ==> #[trigger] plan_i.push(m_v)[j] == plan_i[j]);
                    lemma_artifacts_extend(
                        source,
                        old(sink),
                        old(sink).artifacts(),
                        pre_arts,
                        sink.artifacts(),
                        plan_i,
                        plan_i.push(m_v),
                    );
                }
            }
            paths.push(path);
            pulled = pulled + 1;
            proof {
                assert forall|j: int|
                    0 <= j < plan_i.push(m_v).len() implies source.content().contains_key(
                    meta_pid_id(#[trigger] plan_i.push(m_v)[j]),
                ) by {
                    if j < plan_i.len() {
                        assert(plan_i.push(m_v)[j] == plan_i[j]);
                    } else {
                        assert(plan_i.push(m_v)[j] == m_v);
                    }
                }
            }
        }
        i = i + 1;
    }
    proof {
        assert(surv.take(total as int) =~= surv);
        if !dry_run {
            lemma_seq_after_wf(source, old(sink), es0, plan, now);
        }
    }
    if !dry_run {
        match store.save(state) {
            Ok(_) => {},
            Err(e) => {
                proof {
                    let k = plan.len() as int;
                    assert(plan.take(k) =~= plan);
                    assert(abort_ok(
                        source,
                        old(sink),
                        old(store).stored(),
                        store.stored(),
                        old(sink).artifacts(),
                        sink.artifacts(),
                        es0,
                        state.entry_seq(),
                        plan,
                        now,
                        k,
                    ));
                }
                return Err(e);
            },
        }
    }
    Ok((pulled, skipped, paths, spaths))
}

/// Fetches one record, persists it, and (outside a dry run) records and
/// saves the state.  On failure the failing call's error is returned as it
/// came and nothing is recorded, except that a failed save leaves the
/// in-memory record without its saved document.
fn pull_one<P: Puller, S: Sink, T: StateStore>(
    source: &P,
    sink: &mut S,
    store: &mut T,
    state: &mut PullState,
    m: &ArticleMetadata,
    dry_run: bool,
    now: i64,
) -> (r: Result<String, PullError>)
    requires
        old(state).wf(),
        old(sink).is_dry() == dry_run,
    ensures
        final (state).wf(),
        forall|x: ArticleView| final (sink).path_of(x) == old(sink).path_of(x),
        final (sink).is_dry() == old(sink).is_dry(),
        dry_run ==> final (state).entry_seq() == old(state).entry_seq() && final (state)@ == old(
            state,
        )@ && final (store).stored() == old(store).stored() && final (sink).artifacts() == old(
            sink,
        ).artifacts(),
        match r {
            Ok(p) => {
                &&& source.content().contains_key(m@.id)
                &&& p@ == old(sink).path_of(source.content()[m@.id])
                &&& !dry_run ==> final (state).entry_seq() == upsert_seq(
                    old(state).entry_seq(),
                    meta_pid(m@),
                    entry_for(source, old(sink), m@, now),
                )
                &&& !dry_run ==> final (state)@ == old(state)@.insert(
                    meta_pid(m@),
                    entry_for(source, old(sink), m@, now),
                )
                &&& !dry_run ==> final (store).stored() == render_doc(final (state).entry_seq())
            },
            Err(_) => !dry_run ==> ((final (state).entry_seq() == old(state).entry_seq()
                && final (state)@ == old(state)@ && final (store).stored() == old(store).stored())
                || (final (state).entry_seq() == upsert_seq(
                old(state).entry_seq(),
                meta_pid(m@),
                entry_for(source, old(sink), m@, now),
            ) && final (store).stored() == old(store).stored())),
        },
        !dry_run && (r matches Ok(_)) ==> final (sink).artifacts() == old(
            sink,
        ).artifacts().insert(old(sink).path_of(source.content()[m@.id])),
        !dry_run && (r matches Err(_)) ==> (final (sink).artifacts() == old(sink).artifacts()
            || final (sink).artifacts() == old(sink).artifacts().insert(
            old(sink).path_of(source.content()[m@.id]),
        )),
{
    let article = match source.fetch_article(m.id.as_str()) {
        Ok(a) => a,
        Err(e) => {
            return Err(e);
        },
    };
    let path = match sink.persist(&article) {
        Ok(p) => p,
        Err(e) => {
            return Err(e);
        },
    };
    if !dry_run {
        let pid = m.platform_id();
        let path_copy = path.clone();
        state.mark_pulled(pid, path_copy, now);
        match store.save(state) {
            Ok(_) => {},
            Err(e) => {
                return Err(e);
            },
        }
    }
    Ok(path)
}

/// The platform-local id of a record (what a fetch is keyed by).
pub open spec fn meta_pid_id(m: MetaView) -> Seq<char> {
    m.id
}

/// Clones a listing record field by field.
fn clone_meta(m: &ArticleMetadata) -> (r: ArticleMetadata)
    ensures
        r@ == m@,
{
    ArticleMetadata {
        id: m.id.clone(),
        platform: clone_platform(&m.platform),
        title: m.title.clone(),
        published_at: m.published_at,
        url: match &m.url {
            Some(u) => Some(u.clone()),
            None => None,
        },
        is_draft: m.is_draft,
    }
}

/// Clones a platform value with its view intact.
fn clone_platform(p: &crate::platform::Platform) -> (r: crate::platform::Platform)
    ensures
        r@ == p@,
{
    match p {
        crate::platform::Platform::Forem(instance) => crate::platform::Platform::Forem(
            clone_forem(instance),
        ),
    }
}

/// Clones a Forem instance with its view intact.
fn clone_forem(i: &crate::forem::ForemInstance) -> (r: crate::forem::ForemInstance)
    ensures
        r@ == i@,
{
    match i {
        crate::forem::ForemInstance::DevTo => crate::forem::ForemInstance::DevTo,
        crate::forem::ForemInstance::Vibe => crate::forem::ForemInstance::Vibe,
        crate::forem::ForemInstance::Open => crate::forem::ForemInstance::Open,
        crate::forem::ForemInstance::Future => crate::forem::ForemInstance::Future,
        crate::forem::ForemInstance::Gg => crate::forem::ForemInstance::Gg,
        crate::forem::ForemInstance::Music => crate::forem::ForemInstance::Music,
        crate::forem::ForemInstance::Popcorn => crate::forem::ForemInstance::Popcorn,
        crate::forem::ForemInstance::Design => crate::forem::ForemInstance::Design,
        crate::forem::ForemInstance::Zeroday => crate::forem::ForemInstance::Zeroday,
        crate::forem::ForemInstance::Golf => crate::forem::ForemInstance::Golf,
        crate::forem::ForemInstance::Crypto => crate::forem::ForemInstance::Crypto,
        crate::forem::ForemInstance::Parenting => crate::forem::ForemInstance::Parenting,
        crate::forem::ForemInstance::Core => crate::forem::ForemInstance::Core,
        crate::forem::ForemInstance::Maker => crate::forem::ForemInstance::Maker,
        crate::forem::ForemInstance::Hmpljs => crate::forem::ForemInstance::Hmpljs,
        crate::forem::ForemInstance::DumbDev => crate::forem::ForemInstance::DumbDev,
        crate::forem::ForemInstance::Custom { domain } => crate::forem::ForemInstance::Custom {
            domain: domain.clone(),
        },
    }
}

} // verus!
