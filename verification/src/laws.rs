//! The laws of the synchronization engine, each proved from the engine's
//! own specification functions.

use vstd::prelude::*;

use crate::adapter::{meta_pid, MetaView, PullOptions, Puller};
use crate::date::{date_lt, Date};
use crate::engine::{entry_for, fetch_list, lemma_fetch_list_sub, lemma_map_after_keys,
    lemma_map_after_value, lemma_surviving_sub, map_after, needs_fetch, passes_filter, surviving,
    distinct_pids};
use crate::forem::parse_forem_view;
use crate::platform::parse_platform_view;
use crate::state::EntryView;
use crate::text::{ascii_lower_seq, is_ascii_seq, lemma_ascii_lower_idempotent};
use crate::writer::Sink;

verus! {

/// Nothing is planned from a listing whose every survivor is already
/// recorded.
proof fn lemma_fetch_list_empty(surv: Seq<MetaView>, st: Map<Seq<char>, EntryView>)
    requires
        forall|i: int| 0 <= i < surv.len() ==> !needs_fetch(#[trigger] surv[i], st, false),
    ensures
        fetch_list(surv, st, false).len() == 0,
    decreases surv.len(),
{
    if surv.len() > 0 {
        let t = surv.skip(1);
        assert(forall|i: int| 0 <= i < t.len() ==> #[trigger] t[i] == surv[i + 1]);
        lemma_fetch_list_empty(t, st);
    }
}

/// Idempotence: a run with `force` off records every article it fetched,
/// so a second run over the same listing and filter, starting from the
/// state the first run left, plans zero fetches — every surviving article
/// is skipped.
pub proof fn lemma_idempotent<P: Puller, S: Sink>(
    source: &P,
    sink: &S,
    st0: Map<Seq<char>, EntryView>,
    f: PullOptions,
    now: i64,
)
    ensures
        ({
            let surv = surviving(source.articles(), f);
            let st1 = map_after(source, sink, st0, fetch_list(surv, st0, false), now);
            fetch_list(surv, st1, false).len() == 0
        }),
{
    let surv = surviving(source.articles(), f);
    let plan1 = fetch_list(surv, st0, false);
    let st1 = map_after(source, sink, st0, plan1, now);
    lemma_fetch_list_sub(surv, st0, false);
    assert forall|i: int| 0 <= i < surv.len() implies !needs_fetch(
        #[trigger] surv[i],
        st1,
        false,
    ) by {
        lemma_map_after_keys(source, sink, st0, plan1, now, meta_pid(surv[i]));
        if !st0.contains_key(meta_pid(surv[i])) {
            let j = choose|j: int| 0 <= j < plan1.len() && plan1[j] == surv[i];
            assert(meta_pid(plan1[j]) == meta_pid(surv[i]));
        }
    }
    lemma_fetch_list_empty(surv, st1);
}

/// Dedup correctness: no identity already present in the state is ever
/// planned for fetching by a non-forced run.
pub proof fn lemma_dedup(
    surv: Seq<MetaView>,
    st0: Map<Seq<char>, EntryView>,
    j: int,
)
    requires
        0 <= j < fetch_list(surv, st0, false).len(),
    ensures
        !st0.contains_key(meta_pid(fetch_list(surv, st0, false)[j])),
{
    lemma_fetch_list_sub(surv, st0, false);
}

/// Force override, first half: with `force` on, every surviving article is
/// planned for fetching, whatever the state holds.
pub proof fn lemma_force_fetches_all(surv: Seq<MetaView>, st0: Map<Seq<char>, EntryView>)
    ensures
        fetch_list(surv, st0, true) == surv,
    decreases surv.len(),
{
    if surv.len() == 0 {
        assert(fetch_list(surv, st0, true) =~= surv);
    } else {
        lemma_force_fetches_all(surv.skip(1), st0);
        assert(fetch_list(surv, st0, true) =~= surv);
    }
}

/// Force override, second half: after a forced run, every surviving
/// article's record carries the run's timestamp and the sink's path for
/// the freshly fetched article — the old record is overwritten.
pub proof fn lemma_force_overwrites<P: Puller, S: Sink>(
    source: &P,
    sink: &S,
    st0: Map<Seq<char>, EntryView>,
    surv: Seq<MetaView>,
    now: i64,
    i: int,
)
    requires
        distinct_pids(surv),
        0 <= i < surv.len(),
    ensures
        map_after(source, sink, st0, fetch_list(surv, st0, true), now).contains_key(
            meta_pid(surv[i]),
        ),
        map_after(source, sink, st0, fetch_list(surv, st0, true), now)[meta_pid(surv[i])]
            == entry_for(source, sink, surv[i], now),
        map_after(source, sink, st0, fetch_list(surv, st0, true), now)[meta_pid(
            surv[i],
        )].pulled_at == now,
{
    lemma_force_fetches_all(surv, st0);
    lemma_map_after_value(source, sink, st0, surv, now, i);
}

/// Date filter boundary: an article published exactly on the filter's
/// minimum date is not excluded by the date test, one published any
/// earlier day is excluded outright, and an article with no publish date
/// is never excluded by the date test.
pub proof fn lemma_date_filter_boundary(m: MetaView, f: PullOptions, min: Date)
    requires
        f.since == Some(min),
    ensures
        m.published_at == Some(min) ==> passes_filter(m, f) == (!m.is_draft
            || f.include_drafts),
        (m.published_at matches Some(d) && date_lt(d, min)) ==> !passes_filter(m, f),
        m.published_at is None ==> passes_filter(m, f) == (!m.is_draft || f.include_drafts),
{
    assert(!date_lt(min, min));
}

/// Draft filter: with drafts excluded, no draft survives the filter, so
/// none is ever pulled or skipped.
pub proof fn lemma_draft_filter(arts: Seq<MetaView>, f: PullOptions, j: int)
    requires
        !f.include_drafts,
        0 <= j < surviving(arts, f).len(),
    ensures
        !surviving(arts, f)[j].is_draft,
{
    lemma_surviving_sub(arts, f);
}

/// Case-insensitivity over ASCII names: the ASCII case mapping is
/// idempotent, so a name and its lowercase read as the same lowered text
/// and parse to the same platform or instance.  (The parse contracts pin
/// each result through the lowered text of the input.)
pub proof fn lemma_parse_case_insensitive(s: Seq<char>)
    requires
        is_ascii_seq(s),
    ensures
        is_ascii_seq(ascii_lower_seq(s)),
        parse_forem_view(ascii_lower_seq(ascii_lower_seq(s))) == parse_forem_view(
            ascii_lower_seq(s),
        ),
        parse_platform_view(ascii_lower_seq(ascii_lower_seq(s))) == parse_platform_view(
            ascii_lower_seq(s),
        ),
{
    lemma_ascii_lower_idempotent(s);
}

/// Crash safety: when a run aborts after recording and saving its first
/// `k` planned articles, each of those `k` is present in the recovered
/// state, so a later non-forced run does not fetch it again.
pub proof fn lemma_crash_recovery<P: Puller, S: Sink>(
    source: &P,
    sink: &S,
    st0: Map<Seq<char>, EntryView>,
    surv: Seq<MetaView>,
    force: bool,
    now: i64,
    k: int,
    i: int,
)
    requires
        0 <= i < k <= fetch_list(surv, st0, force).len(),
    ensures
        ({
            let plan = fetch_list(surv, st0, force);
            let st_rec = map_after(source, sink, st0, plan.take(k), now);
            !needs_fetch(plan[i], st_rec, false)
        }),
{
    let plan = fetch_list(surv, st0, force);
    let st_rec = map_after(source, sink, st0, plan.take(k), now);
    lemma_map_after_keys(source, sink, st0, plan.take(k), now, meta_pid(plan[i]));
    assert(plan.take(k)[i] == plan[i]);
}

} // verus!
