use vstd::prelude::*;

use crate::engine::{Action, CoreModel, FrameEvent, KeyInput, spec_action, spec_apply, spec_step_frame};
use crate::frame::FrameRecord;
use crate::table::{AggEntry, find_key, insert_by_id, lemma_find_key, sat_sub64, sort_by_id, spec_record};

verus! {

/// The table contents after a sequence of timed frames has been folded,
/// in order, into a table that already holds `s0`.
pub open spec fn spec_process_from(
    s0: Seq<((u32, usize), AggEntry)>,
    frames: Seq<(FrameRecord, u64)>,
) -> Seq<((u32, usize), AggEntry)>
    decreases frames.len(),
{
    if frames.len() == 0 {
        s0
    } else {
        spec_record(spec_process_from(s0, frames.drop_last()), frames.last().0, frames.last().1)
    }
}

/// The table contents after a sequence of timed frames, replayed in order
/// into an initially empty table.
pub open spec fn spec_process(frames: Seq<(FrameRecord, u64)>) -> Seq<((u32, usize), AggEntry)> {
    spec_process_from(Seq::empty(), frames)
}

/// The timestamps at which one key occurred, in arrival order.
pub open spec fn spec_times_of_key(frames: Seq<(FrameRecord, u64)>, k: (u32, usize)) -> Seq<u64>
    decreases frames.len(),
{
    if frames.len() == 0 {
        Seq::empty()
    } else {
        let rest = spec_times_of_key(frames.drop_last(), k);
        if frames.last().0.spec_key() == k {
            rest.push(frames.last().1)
        } else {
            rest
        }
    }
}

/// The frame timestamps never decrease: what a monotonic session clock
/// delivers.
pub open spec fn times_nondecreasing(frames: Seq<(FrameRecord, u64)>) -> bool {
    forall|i: int, j: int| 0 <= i <= j < frames.len() ==> frames[i].1 <= frames[j].1
}

proof fn lemma_find_key_push(
    s: Seq<((u32, usize), AggEntry)>,
    x: ((u32, usize), AggEntry),
    k: (u32, usize),
)
    ensures
        find_key(s.push(x), k) == if find_key(s, k) >= 0 {
            find_key(s, k)
        } else if x.0 == k {
            s.len() as int
        } else {
            -1
        },
    decreases s.len(),
{
    lemma_find_key(s, k);
    let t = s.push(x);
    if s.len() == 0 {
        assert(t[0] == x);
        if x.0 != k {
            assert(t.subrange(1, 1) =~= Seq::<((u32, usize), AggEntry)>::empty());
            assert(find_key(t.subrange(1, 1), k) == -1);
        }
    } else {
        assert(t[0] == s[0]);
        if s[0].0 == k {
            assert(find_key(t, k) == 0);
            assert(find_key(s, k) == 0);
        } else {
            let ssub = s.subrange(1, s.len() as int);
            assert(t.subrange(1, t.len() as int) =~= ssub.push(x));
            lemma_find_key_push(ssub, x, k);
            lemma_find_key(ssub, k);
            assert(find_key(s, k) == if find_key(ssub, k) == -1 {
                -1int
            } else {
                find_key(ssub, k) + 1
            });
            assert(find_key(t, k) == ({
                let r = find_key(t.subrange(1, t.len() as int), k);
                if r == -1 {
                    -1int
                } else {
                    r + 1
                }
            }));
        }
    }
}

proof fn lemma_find_key_same_keys(
    s1: Seq<((u32, usize), AggEntry)>,
    s2: Seq<((u32, usize), AggEntry)>,
    k: (u32, usize),
)
    requires
        s1.len() == s2.len(),
        forall|i: int| 0 <= i < s1.len() ==> s1[i].0 == s2[i].0,
    ensures
        find_key(s1, k) == find_key(s2, k),
    decreases s1.len(),
{
    if s1.len() > 0 && s1[0].0 != k {
        let r1 = s1.subrange(1, s1.len() as int);
        let r2 = s2.subrange(1, s2.len() as int);
        assert(forall|i: int| 0 <= i < r1.len() ==> r1[i].0 == r2[i].0);
        lemma_find_key_same_keys(r1, r2, k);
    }
}

proof fn lemma_times_len(frames: Seq<(FrameRecord, u64)>, k: (u32, usize))
    ensures
        spec_times_of_key(frames, k).len() <= frames.len(),
    decreases frames.len(),
{
    if frames.len() > 0 {
        lemma_times_len(frames.drop_last(), k);
    }
}

/// After any frame sequence is replayed into an empty table, a key has an
/// entry exactly when it occurred, the entry's count equals the number of
/// occurrences of that key, its last-seen time is the time of the latest
/// occurrence, and its interval is the (clamped) gap between the two latest
/// occurrences — zero on a sole occurrence.
pub proof fn lemma_process_entry(frames: Seq<(FrameRecord, u64)>, k: (u32, usize))
    requires
        frames.len() < u64::MAX,
    ensures
        ({
            let s = spec_process(frames);
            let ts = spec_times_of_key(frames, k);
            let i = find_key(s, k);
            &&& (i == -1 <==> ts.len() == 0)
            &&& (i >= 0 ==> s[i].0 == k && s[i].1.count == ts.len() && s[i].1.last_seen_micros
                == ts.last() && s[i].1.interval_micros == (if ts.len() >= 2 {
                sat_sub64(ts.last(), ts[ts.len() - 2])
            } else {
                0u64
            }))
        }),
    decreases frames.len(),
{
    let s = spec_process(frames);
    let ts = spec_times_of_key(frames, k);
    lemma_find_key(s, k);
    if frames.len() == 0 {
    } else {
        let fs0 = frames.drop_last();
        let f = frames.last().0;
        let t = frames.last().1;
        let s0 = spec_process(fs0);
        let ts0 = spec_times_of_key(fs0, k);
        let kf = f.spec_key();
        lemma_process_entry(fs0, k);
        lemma_process_entry(fs0, kf);
        lemma_times_len(fs0, k);
        lemma_find_key(s0, k);
        lemma_find_key(s0, kf);
        let i0f = find_key(s0, kf);
        assert(s == spec_record(s0, f, t));
        if i0f == -1 {
            let x = (
                kf,
                AggEntry { count: 1, last_seen_micros: t, interval_micros: 0, last_frame: f },
            );
            assert(s == s0.push(x));
            lemma_find_key_push(s0, x, k);
        } else {
            let e0 = s0[i0f].1;
            let x = (
                kf,
                AggEntry {
                    count: crate::table::sat_inc64(e0.count),
                    last_seen_micros: t,
                    interval_micros: sat_sub64(t, e0.last_seen_micros),
                    last_frame: f,
                },
            );
            assert(s == s0.update(i0f, x));
            assert(forall|j: int| 0 <= j < s0.len() ==> s0[j].0 == s[j].0);
            lemma_find_key_same_keys(s0, s, k);
            if kf == k {
                assert(ts == ts0.push(t));
                assert(e0.count == ts0.len());
                assert(ts0.len() <= fs0.len());
                assert(e0.count < u64::MAX);
                assert(ts[ts.len() - 2] == ts0[ts0.len() - 1]);
            }
        }
    }
}

/// Under a monotonic clock, the occurrence times of a key arrive in
/// nondecreasing order, and none exceeds the latest frame time.
proof fn lemma_times_of_key_ordered(frames: Seq<(FrameRecord, u64)>, k: (u32, usize))
    requires
        times_nondecreasing(frames),
    ensures
        ({
            let ts = spec_times_of_key(frames, k);
            &&& (forall|a: int, b: int| 0 <= a <= b < ts.len() ==> ts[a] <= ts[b])
            &&& (frames.len() > 0 ==> forall|a: int|
                0 <= a < ts.len() ==> ts[a] <= frames.last().1)
        }),
    decreases frames.len(),
{
    if frames.len() > 0 {
        let fs0 = frames.drop_last();
        assert(forall|i: int, j: int| 0 <= i <= j < fs0.len() ==> fs0[i].1 <= fs0[j].1);
        lemma_times_of_key_ordered(fs0, k);
        let ts0 = spec_times_of_key(fs0, k);
        let t = frames.last().1;
        if fs0.len() > 0 {
            assert(fs0.last().1 == frames[frames.len() - 2].1);
            assert(fs0.last().1 <= t);
            assert(forall|a: int| 0 <= a < ts0.len() ==> ts0[a] <= t);
        }
    }
}

/// `last_interval` on the Nth occurrence of a key (N at least two) equals
/// the difference of the two latest occurrence timestamps, exactly, when
/// timestamps never decrease; on a sole occurrence it is zero.
pub proof fn lemma_interval_is_time_difference(frames: Seq<(FrameRecord, u64)>, k: (u32, usize))
    requires
        frames.len() < u64::MAX,
        times_nondecreasing(frames),
    ensures
        ({
            let s = spec_process(frames);
            let ts = spec_times_of_key(frames, k);
            let i = find_key(s, k);
            i >= 0 ==> s[i].1.last_seen_micros == ts.last() && (ts.len() >= 2
                ==> s[i].1.interval_micros == ts.last() - ts[ts.len() - 2]) && (ts.len() == 1
                ==> s[i].1.interval_micros == 0)
        }),
{
    lemma_process_entry(frames, k);
    lemma_times_of_key_ordered(frames, k);
}

/// What a clear leaves behind: nothing.
pub open spec fn spec_cleared(s: Seq<((u32, usize), AggEntry)>) -> Seq<((u32, usize), AggEntry)> {
    Seq::empty()
}

/// Clearing erases all history: replaying a frame sequence into a cleared
/// table yields the same aggregate state whatever the table held before the
/// clear — the state a fresh table reaches on the same sequence.
pub proof fn lemma_clear_erases_history(
    before1: Seq<((u32, usize), AggEntry)>,
    before2: Seq<((u32, usize), AggEntry)>,
    frames: Seq<(FrameRecord, u64)>,
)
    ensures
        spec_process_from(spec_cleared(before1), frames) == spec_process_from(
            spec_cleared(before2),
            frames,
        ),
        spec_process_from(spec_cleared(before1), frames) == spec_process(frames),
{
}

/// While the dashboard is paused, no frame-source event changes anything:
/// neither a received frame (it is dropped, never counted later) nor a
/// transport failure.
pub proof fn lemma_paused_is_frozen(m: CoreModel, ev: FrameEvent, now_micros: u64)
    requires
        m.paused,
    ensures
        spec_step_frame(m, ev, now_micros) == m,
{
}

/// The standing invariants of the aggregation table: at most one entry per
/// key, every count at least one, and each entry's stored frame carrying the
/// entry's own key.
pub open spec fn table_wf(s: Seq<((u32, usize), AggEntry)>) -> bool {
    &&& forall|i: int, j: int| 0 <= i < j < s.len() ==> s[i].0 != s[j].0
    &&& forall|i: int|
        0 <= i < s.len() ==> (#[trigger] s[i]).1.count >= 1 && s[i].1.last_frame.spec_key()
            == s[i].0
}

/// Recording one frame keeps the table invariants.
pub proof fn lemma_record_preserves_wf(
    s: Seq<((u32, usize), AggEntry)>,
    f: FrameRecord,
    now_micros: u64,
)
    requires
        table_wf(s),
    ensures
        table_wf(spec_record(s, f, now_micros)),
{
    let k = f.spec_key();
    lemma_find_key(s, k);
    let t = spec_record(s, f, now_micros);
    let i = find_key(s, k);
    if i == -1 {
        assert(forall|a: int| 0 <= a < s.len() ==> t[a] == s[a]);
        assert(t[s.len() as int].0 == k);
    } else {
        assert(forall|a: int| 0 <= a < t.len() && a != i ==> t[a] == s[a]);
        assert(t[i].0 == s[i].0);
        assert(s[i].1.count >= 1);
    }
}

/// An empty table, which is what a clear leaves, satisfies the invariants,
/// and so does the state reached from it by any frame sequence.
pub proof fn lemma_process_wf(frames: Seq<(FrameRecord, u64)>)
    ensures
        table_wf(spec_process(frames)),
    decreases frames.len(),
{
    if frames.len() == 0 {
    } else {
        lemma_process_wf(frames.drop_last());
        lemma_record_preserves_wf(
            spec_process(frames.drop_last()),
            frames.last().0,
            frames.last().1,
        );
    }
}

proof fn lemma_insert_by_id_distinct(s: Seq<((u32, usize), AggEntry)>, x: ((u32, usize), AggEntry))
    requires
        forall|i: int, j: int| 0 <= i < j < s.len() ==> s[i].0 != s[j].0,
        forall|j: int| 0 <= j < s.len() ==> (#[trigger] s[j]).0 != x.0,
    ensures
        forall|i: int, j: int|
            0 <= i < j < insert_by_id(s, x).len() ==> insert_by_id(s, x)[i].0 != insert_by_id(
                s,
                x,
            )[j].0,
    decreases s.len(),
{
    let ins = insert_by_id(s, x);
    if s.len() == 0 {
        assert(ins == seq![x]);
    } else if s.last().0.0 <= x.0.0 {
        assert(ins == s.push(x));
        assert(forall|a: int| 0 <= a < s.len() ==> ins[a] == s[a]);
        assert(ins[s.len() as int] == x);
    } else {
        let dl = s.drop_last();
        assert(forall|j: int| 0 <= j < dl.len() ==> dl[j] == s[j]);
        lemma_insert_by_id_distinct(dl, x);
        lemma_insert_by_id_props(dl, x);
        let ins0 = insert_by_id(dl, x);
        assert(ins == ins0.push(s.last()));
        assert(forall|a: int| 0 <= a < ins0.len() ==> ins[a] == ins0[a]);
        assert(ins[ins0.len() as int] == s.last());
        assert(s.last() == s[s.len() - 1]);
        assert forall|a: int| 0 <= a < ins0.len() implies ins0[a].0 != s.last().0 by {
            if ins0[a] == x {
                assert(s.last().0 != x.0);
            } else {
                let j = choose|j: int| 0 <= j < dl.len() && ins0[a] == dl[j];
                assert(dl[j] == s[j]);
                assert(s[j].0 != s[s.len() - 1].0);
            }
        }
    }
}

proof fn lemma_sort_by_id_membership(s: Seq<((u32, usize), AggEntry)>)
    ensures
        sort_by_id(s).len() == s.len(),
        forall|i: int|
            0 <= i < s.len() ==> exists|j: int|
                0 <= j < s.len() && #[trigger] sort_by_id(s)[i] == s[j],
    decreases s.len(),
{
    if s.len() > 0 {
        let dl = s.drop_last();
        lemma_sort_by_id_membership(dl);
        lemma_insert_by_id_props(sort_by_id(dl), s.last());
        let srt = sort_by_id(s);
        assert(srt == insert_by_id(sort_by_id(dl), s.last()));
        assert(forall|j: int| 0 <= j < dl.len() ==> dl[j] == s[j]);
        assert forall|i: int| 0 <= i < s.len() implies exists|j: int|
            0 <= j < s.len() && #[trigger] srt[i] == s[j] by {
            if srt[i] == s.last() {
                assert(srt[i] == s[s.len() - 1]);
            } else {
                let a = choose|a: int|
                    0 <= a < sort_by_id(dl).len() && srt[i] == sort_by_id(dl)[a];
                let j = choose|j: int| 0 <= j < dl.len() && sort_by_id(dl)[a] == dl[j];
                assert(srt[i] == s[j]);
            }
        }
    }
}

/// The stable re-sort keeps the table invariants.
pub proof fn lemma_sort_preserves_wf(s: Seq<((u32, usize), AggEntry)>)
    requires
        table_wf(s),
    ensures
        table_wf(sort_by_id(s)),
    decreases s.len(),
{
    if s.len() > 0 {
        let dl = s.drop_last();
        assert(forall|j: int| 0 <= j < dl.len() ==> dl[j] == s[j]);
        assert(table_wf(dl));
        lemma_sort_preserves_wf(dl);
        let srt0 = sort_by_id(dl);
        lemma_sort_by_id_membership(dl);
        assert forall|j: int| 0 <= j < srt0.len() implies (#[trigger] srt0[j]).0 != s.last().0 by {
            let m = choose|m: int| 0 <= m < dl.len() && srt0[j] == dl[m];
            assert(dl[m] == s[m]);
            assert(s[m].0 != s[s.len() - 1].0);
        }
        lemma_insert_by_id_distinct(srt0, s.last());
        lemma_insert_by_id_props(srt0, s.last());
        let srt = sort_by_id(s);
        assert(srt == insert_by_id(srt0, s.last()));
        assert forall|i: int| 0 <= i < srt.len() implies (#[trigger] srt[i]).1.count >= 1
            && srt[i].1.last_frame.spec_key() == srt[i].0 by {
            if srt[i] == s.last() {
                assert(s.last() == s[s.len() - 1]);
            } else {
                let a = choose|a: int| 0 <= a < srt0.len() && srt[i] == srt0[a];
                let m = choose|m: int| 0 <= m < dl.len() && srt0[a] == dl[m];
                assert(dl[m] == s[m]);
            }
        }
    }
}

/// One event as the scheduler sees it: whichever of the two sources wins the
/// race — a keyboard event, or a frame-source event with its arrival time.
pub enum UiEvent {
    Key(KeyInput),
    Bus(FrameEvent, u64),
}

/// The state after one event of the merged stream has been dispatched.
pub open spec fn spec_step(m: CoreModel, ev: UiEvent) -> CoreModel {
    match ev {
        UiEvent::Key(k) => spec_apply(m, spec_action(k)),
        UiEvent::Bus(fe, t) => spec_step_frame(m, fe, t),
    }
}

/// The state after a whole event sequence has been dispatched, in order.
pub open spec fn spec_run(m: CoreModel, evs: Seq<UiEvent>) -> CoreModel
    decreases evs.len(),
{
    if evs.len() == 0 {
        m
    } else {
        spec_step(spec_run(m, evs.drop_last()), evs.last())
    }
}

/// The table invariants hold in every state the event loop can reach,
/// whatever interleaving of keyboard and frame-source events arrives.
pub proof fn lemma_run_preserves_wf(m: CoreModel, evs: Seq<UiEvent>)
    requires
        table_wf(m.entries),
    ensures
        table_wf(spec_run(m, evs).entries),
    decreases evs.len(),
{
    if evs.len() > 0 {
        lemma_run_preserves_wf(m, evs.drop_last());
        let m1 = spec_run(m, evs.drop_last());
        match evs.last() {
            UiEvent::Key(k) => {
                if spec_action(k) == Action::SortByKey {
                    lemma_sort_preserves_wf(m1.entries);
                }
            },
            UiEvent::Bus(fe, t) => {
                match fe {
                    FrameEvent::Received(f) => {
                        if !m1.paused {
                            lemma_record_preserves_wf(m1.entries, f, t);
                        }
                    },
                    FrameEvent::TransportFailure => {},
                }
            },
        }
    }
}

/// Ascending by raw identifier word.
pub open spec fn id_sorted(s: Seq<((u32, usize), AggEntry)>) -> bool {
    forall|i: int, j: int| 0 <= i <= j < s.len() ==> s[i].0.0 <= s[j].0.0
}

/// The subsequence of entries whose raw identifier is `id`, in order.
pub open spec fn with_id(s: Seq<((u32, usize), AggEntry)>, id: u32) -> Seq<
    ((u32, usize), AggEntry),
> {
    s.filter(|p: ((u32, usize), AggEntry)| p.0.0 == id)
}

proof fn lemma_insert_by_id_props(s: Seq<((u32, usize), AggEntry)>, x: ((u32, usize), AggEntry))
    ensures
        insert_by_id(s, x).len() == s.len() + 1,
        forall|i: int|
            0 <= i < insert_by_id(s, x).len() ==> (#[trigger] insert_by_id(s, x)[i] == x
                || exists|j: int| 0 <= j < s.len() && insert_by_id(s, x)[i] == s[j]),
        id_sorted(s) ==> id_sorted(insert_by_id(s, x)),
    decreases s.len(),
{
    let ins = insert_by_id(s, x);
    if s.len() == 0 {
        assert(ins == seq![x]);
        assert(ins[0] == x);
    } else if s.last().0.0 <= x.0.0 {
        assert(ins == s.push(x));
        assert(forall|i: int| 0 <= i < s.len() ==> ins[i] == s[i]);
        assert(ins[s.len() as int] == x);
    } else {
        let dl = s.drop_last();
        lemma_insert_by_id_props(dl, x);
        let ins0 = insert_by_id(dl, x);
        assert(ins == ins0.push(s.last()));
        assert(forall|i: int| 0 <= i < ins0.len() ==> ins[i] == ins0[i]);
        assert(ins[ins0.len() as int] == s.last());
        assert(s.last() == s[s.len() - 1]);
        assert(forall|j: int| 0 <= j < dl.len() ==> dl[j] == s[j]);
        if id_sorted(s) {
            assert(id_sorted(dl));
            assert(forall|i: int|
                0 <= i < ins0.len() ==> (#[trigger] ins0[i].0.0) <= s.last().0.0);
        }
    }
}

/// The stable sort's output is ascending by raw identifier.
pub proof fn lemma_sort_by_id_sorted(s: Seq<((u32, usize), AggEntry)>)
    ensures
        id_sorted(sort_by_id(s)),
    decreases s.len(),
{
    if s.len() > 0 {
        lemma_sort_by_id_sorted(s.drop_last());
        lemma_insert_by_id_props(sort_by_id(s.drop_last()), s.last());
    }
}

/// Sorting a sequence that is already ascending by identifier leaves it
/// exactly as it is.
pub proof fn lemma_sort_identity_on_sorted(s: Seq<((u32, usize), AggEntry)>)
    requires
        id_sorted(s),
    ensures
        sort_by_id(s) == s,
    decreases s.len(),
{
    if s.len() == 0 {
        assert(sort_by_id(s) =~= s);
    } else {
        let dl = s.drop_last();
        assert(id_sorted(dl));
        lemma_sort_identity_on_sorted(dl);
        if dl.len() == 0 {
            assert(sort_by_id(s) =~= s);
        } else {
            assert(dl.last().0.0 == s[s.len() - 2].0.0);
            assert(dl.last().0.0 <= s.last().0.0);
            assert(sort_by_id(s) == dl.push(s.last()));
            assert(dl.push(s.last()) =~= s);
        }
    }
}

/// Applying the sort twice yields the same order as applying it once.
pub proof fn lemma_sort_idempotent(s: Seq<((u32, usize), AggEntry)>)
    ensures
        sort_by_id(sort_by_id(s)) == sort_by_id(s),
{
    lemma_sort_by_id_sorted(s);
    lemma_sort_identity_on_sorted(sort_by_id(s));
}

proof fn lemma_insert_by_id_filter(
    s: Seq<((u32, usize), AggEntry)>,
    x: ((u32, usize), AggEntry),
    id: u32,
)
    ensures
        with_id(insert_by_id(s, x), id) == if x.0.0 == id {
            with_id(s, id).push(x)
        } else {
            with_id(s, id)
        },
    decreases s.len(),
{
    reveal(Seq::filter);
    let pred = |p: ((u32, usize), AggEntry)| p.0.0 == id;
    let ins = insert_by_id(s, x);
    if s.len() == 0 {
        assert(ins == seq![x]);
        assert(ins.drop_last() =~= Seq::<((u32, usize), AggEntry)>::empty());
        assert(ins.last() == x);
        assert(with_id(s, id) =~= Seq::<((u32, usize), AggEntry)>::empty());
    } else if s.last().0.0 <= x.0.0 {
        assert(ins == s.push(x));
        assert(ins.drop_last() =~= s);
        assert(ins.last() == x);
    } else {
        let dl = s.drop_last();
        lemma_insert_by_id_filter(dl, x, id);
        let ins0 = insert_by_id(dl, x);
        assert(ins == ins0.push(s.last()));
        assert(ins.drop_last() =~= ins0);
        assert(ins.last() == s.last());
        if x.0.0 == id {
            assert(!pred(s.last()));
            assert(with_id(ins, id) == with_id(ins0, id));
            assert(with_id(s, id) == with_id(dl, id));
        }
    }
}

/// The sort is stable and non-destructive: for every identifier, the
/// subsequence of entries carrying it — counts, timestamps and frames
/// included — is exactly the same before and after the sort.
pub proof fn lemma_sort_by_id_stable(s: Seq<((u32, usize), AggEntry)>, id: u32)
    ensures
        with_id(sort_by_id(s), id) == with_id(s, id),
    decreases s.len(),
{
    reveal(Seq::filter);
    if s.len() == 0 {
        assert(sort_by_id(s) =~= s);
    } else {
        let dl = s.drop_last();
        lemma_sort_by_id_stable(dl, id);
        lemma_insert_by_id_filter(sort_by_id(dl), s.last(), id);
    }
}

} // verus!
