//! Ordering and deduplication of meeting lists.

use crate::meeting::{all_in_range, views, Meeting, MeetingView};
use vstd::prelude::*;

verus! {

/// `m` inserted into `s` after every trailing meeting that starts later than
/// it, so that among equal starts the earlier entry stays first.
pub open spec fn insert_by_start(s: Seq<MeetingView>, m: MeetingView) -> Seq<MeetingView>
    decreases s.len(),
{
    if s.len() == 0 {
        seq![m]
    } else if s.last().start_time <= m.start_time {
        s.push(m)
    } else {
        insert_by_start(s.drop_last(), m).push(s.last())
    }
}

/// `s` in ascending order of start time; equal starts keep their relative order.
pub open spec fn sort_by_start(s: Seq<MeetingView>) -> Seq<MeetingView>
    decreases s.len(),
{
    if s.len() == 0 {
        Seq::empty()
    } else {
        insert_by_start(sort_by_start(s.drop_last()), s.last())
    }
}

pub open spec fn sorted_by_start(s: Seq<MeetingView>) -> bool {
    forall|i: int, j: int| 0 <= i <= j < s.len() ==> s[i].start_time <= s[j].start_time
}

proof fn lemma_insert_sorted(s: Seq<MeetingView>, m: MeetingView)
    requires
        sorted_by_start(s),
    ensures
        sorted_by_start(insert_by_start(s, m)),
        insert_by_start(s, m).len() == s.len() + 1,
        insert_by_start(s, m).to_multiset() == s.to_multiset().insert(m),
        forall|k: int| 0 <= k < insert_by_start(s, m).len() ==> #[trigger] insert_by_start(s, m)[k] == m || s.contains(insert_by_start(s, m)[k]),
    decreases s.len(),
{
    broadcast use vstd::seq_lib::group_to_multiset_ensures;

    if s.len() == 0 {
        assert(seq![m] =~= Seq::<MeetingView>::empty().push(m));
    } else if s.last().start_time <= m.start_time {
    } else {
        let p = s.drop_last();
        assert(sorted_by_start(p));
        lemma_insert_sorted(p, m);
        let q = insert_by_start(p, m);
        assert forall|k: int| 0 <= k < q.len() implies #[trigger] q[k].start_time <= s.last().start_time by {
            if q[k] != m {
                assert(p.contains(q[k]));
                let w = choose|w: int| 0 <= w < p.len() && p[w] == q[k];
                assert(s[w] == p[w]);
            }
        }
        assert(s =~= p.push(s.last()));
        assert forall|k: int| 0 <= k < q.push(s.last()).len() implies #[trigger] q.push(s.last())[k] == m || s.contains(q.push(s.last())[k]) by {
            if k < q.len() && q[k] != m {
                assert(p.contains(q[k]));
                let w = choose|w: int| 0 <= w < p.len() && p[w] == q[k];
                assert(s[w] == p[w]);
            } else if k == q.len() {
                assert(s[s.len() - 1] == s.last());
            }
        }
    }
}

/// The sorted order is ascending by start, and a permutation of the input.
pub proof fn lemma_sort_by_start(s: Seq<MeetingView>)
    ensures
        sorted_by_start(sort_by_start(s)),
        sort_by_start(s).to_multiset() == s.to_multiset(),
        sort_by_start(s).len() == s.len(),
    decreases s.len(),
{
    broadcast use vstd::seq_lib::group_to_multiset_ensures;

    if s.len() > 0 {
        lemma_sort_by_start(s.drop_last());
        lemma_insert_sorted(sort_by_start(s.drop_last()), s.last());
        assert(s =~= s.drop_last().push(s.last()));
    }
}

/// Sorts meetings by start time; meetings that start together keep their order.
pub fn sort_meetings(meetings: Vec<Meeting>) -> (r: Vec<Meeting>)
    ensures
        views(r@) == sort_by_start(views(meetings@)),
        sorted_by_start(views(r@)),
        views(r@).to_multiset() == views(meetings@).to_multiset(),
        all_in_range(views(meetings@)) ==> all_in_range(views(r@)),
{
    let mut out: Vec<Meeting> = Vec::new();
    let mut i: usize = 0;
    while i < meetings.len()
        invariant
            i <= meetings@.len(),
            views(out@) == sort_by_start(views(meetings@.subrange(0, i as int))),
            all_in_range(views(meetings@)) ==> all_in_range(views(out@)),
        decreases meetings@.len() - i,
    {
        let m = meetings[i].clone();
        let ghost s = views(out@);
        let ghost mv = m@;
        let mut p: usize = out.len();
        assert(s.subrange(0, p as int) =~= s);
        assert(insert_by_start(s, mv) =~= insert_by_start(s.subrange(0, p as int), mv) + s.subrange(
            p as int,
            s.len() as int,
        ));
        while p > 0 && out[p - 1].start_time > m.start_time
            invariant
                p <= out@.len(),
                s == views(out@),
                mv == m@,
                insert_by_start(s, mv) == insert_by_start(s.subrange(0, p as int), mv) + s.subrange(
                    p as int,
                    s.len() as int,
                ),
            decreases p,
        {
            let ghost q = s.subrange(0, p as int);
            assert(q.drop_last() =~= s.subrange(0, p - 1));
            assert(q.last() == s[p - 1]);
            assert(s.subrange(p - 1, s.len() as int) =~= seq![s[p - 1]] + s.subrange(p as int, s.len() as int));
            p = p - 1;
            assert(insert_by_start(s, mv) =~= insert_by_start(s.subrange(0, p as int), mv) + s.subrange(
                p as int,
                s.len() as int,
            ));
        }
        assert(insert_by_start(s.subrange(0, p as int), mv) =~= s.subrange(0, p as int).push(mv)) by {
            if p > 0 {
                assert(s.subrange(0, p as int).last() == s[p - 1]);
            }
        }
        let ghost old_out = out@;
        out.insert(p, m);
        assert(views(out@) =~= insert_by_start(s, mv));
        proof {
            if all_in_range(views(meetings@)) {
                assert(all_in_range(views(old_out)));
                assert forall|k: int| 0 <= k < views(out@).len() implies crate::datetime::instant_in_range(#[trigger] views(out@)[k].start_time) && crate::datetime::instant_in_range(views(out@)[k].end_time) by {
                    if k < p {
                        assert(out@[k] == old_out[k]);
                        assert(views(out@)[k] == views(old_out)[k]);
                        assert(crate::datetime::instant_in_range(views(old_out)[k].start_time));
                    } else if k > p {
                        assert(out@[k] == old_out[k - 1]);
                        assert(views(out@)[k] == views(old_out)[k - 1]);
                        assert(crate::datetime::instant_in_range(views(old_out)[k - 1].start_time));
                    } else {
                        assert(views(out@)[k] == mv);
                        assert(crate::datetime::instant_in_range(views(meetings@)[i as int].start_time));
                    }
                }
            }
        }
        assert(views(meetings@.subrange(0, i + 1)).drop_last() =~= views(meetings@.subrange(0, i as int)));
        assert(views(meetings@.subrange(0, i + 1)).last() == mv);
        i = i + 1;
    }
    assert(meetings@.subrange(0, meetings@.len() as int) =~= meetings@);
    proof {
        lemma_sort_by_start(views(meetings@));
    }
    out
}

/// Two meetings are duplicates when title and start coincide.
pub open spec fn same_key(a: MeetingView, b: MeetingView) -> bool {
    a.title == b.title && a.start_time == b.start_time
}

/// Entry `i` of `s` survives deduplication: every other duplicate of it ends
/// earlier, or ends at the same time and comes later in the list.
pub open spec fn survives(s: Seq<MeetingView>, i: int) -> bool {
    forall|j: int|
        0 <= j < s.len() && j != i && same_key(#[trigger] s[j], s[i]) ==> s[j].end_time < s[i].end_time
            || (s[j].end_time == s[i].end_time && j > i)
}

/// The surviving entries among the first `k` of `s`, in order.
pub open spec fn kept(s: Seq<MeetingView>, k: int) -> Seq<MeetingView>
    decreases k,
{
    if k <= 0 {
        Seq::empty()
    } else {
        kept(s, k - 1) + if survives(s, k - 1) {
            seq![s[k - 1]]
        } else {
            Seq::empty()
        }
    }
}

/// `s` with duplicates removed: of each group of duplicates, the entry with the
/// latest end (the first such when several tie) stays, at its own position.
pub open spec fn dedup_spec(s: Seq<MeetingView>) -> Seq<MeetingView> {
    kept(s, s.len() as int)
}

/// Removes duplicate meetings (same title and start), keeping the one that ends latest.
pub fn dedup_meetings(meetings: &Vec<Meeting>) -> (r: Vec<Meeting>)
    ensures
        views(r@) == dedup_spec(views(meetings@)),
        r@.len() <= meetings@.len(),
        all_in_range(views(meetings@)) ==> all_in_range(views(r@)),
{
    let ghost s = views(meetings@);
    let mut out: Vec<Meeting> = Vec::new();
    let mut i: usize = 0;
    while i < meetings.len()
        invariant
            s == views(meetings@),
            i <= meetings@.len(),
            views(out@) == kept(s, i as int),
            all_in_range(s) ==> all_in_range(views(out@)),
        decreases meetings@.len() - i,
    {
        let mut keep = true;
        let mut j: usize = 0;
        while j < meetings.len()
            invariant
                s == views(meetings@),
                i < meetings@.len(),
                j <= meetings@.len(),
                keep == (forall|k: int|
                    0 <= k < j && k != i && same_key(#[trigger] s[k], s[i as int]) ==> s[k].end_time
                        < s[i as int].end_time || (s[k].end_time == s[i as int].end_time && k > i)),
            decreases meetings@.len() - j,
        {
            if j != i && meetings[j].start_time == meetings[i].start_time && meetings[j].title
                == meetings[i].title {
                if meetings[j].end_time > meetings[i].end_time || (meetings[j].end_time
                    == meetings[i].end_time && j < i) {
                    keep = false;
                }
            }
            assert(s[j as int] == meetings@[j as int]@);
            j = j + 1;
        }
        if keep {
            let ghost before = views(out@);
            out.push(meetings[i].clone());
            assert(views(out@) =~= before.push(s[i as int]));
            assert(views(out@)[views(out@).len() - 1] == s[i as int]);
        }
        i = i + 1;
        assert(views(out@) =~= kept(s, i as int));
    }
    proof {
        lemma_kept_len(s, s.len() as int);
    }
    out
}

proof fn lemma_kept_len(s: Seq<MeetingView>, k: int)
    requires
        0 <= k,
    ensures
        kept(s, k).len() <= k,
    decreases k,
{
    if k > 0 {
        lemma_kept_len(s, k - 1);
    }
}

/// Deduplication never lengthens a list.
pub proof fn lemma_dedup_shortens(s: Seq<MeetingView>)
    ensures
        dedup_spec(s).len() <= s.len(),
{
    lemma_kept_len(s, s.len() as int);
}

proof fn lemma_survivors_distinct_keys(s: Seq<MeetingView>, i: int, j: int)
    requires
        0 <= i < s.len(),
        0 <= j < s.len(),
        i != j,
        survives(s, i),
        survives(s, j),
    ensures
        !same_key(s[i], s[j]),
{
    if same_key(s[i], s[j]) {
        assert(same_key(s[j], s[i]));
        assert(s[j].end_time < s[i].end_time || (s[j].end_time == s[i].end_time && j > i));
        assert(s[i].end_time < s[j].end_time || (s[i].end_time == s[j].end_time && i > j));
    }
}

/// `x` is a surviving entry of `s` at a position before `k`.
pub open spec fn survivor_before(s: Seq<MeetingView>, k: int, x: MeetingView) -> bool {
    exists|i: int| 0 <= i < k && survives(s, i) && x == #[trigger] s[i]
}

/// Every entry kept among the first `k` is a surviving entry of `s` before `k`.
proof fn lemma_kept_survivors(s: Seq<MeetingView>, k: int)
    requires
        0 <= k <= s.len(),
    ensures
        forall|t: int| 0 <= t < kept(s, k).len() ==> survivor_before(s, k, #[trigger] kept(s, k)[t]),
    decreases k,
{
    if k > 0 {
        lemma_kept_survivors(s, k - 1);
        assert forall|t: int| 0 <= t < kept(s, k).len() implies survivor_before(s, k, #[trigger] kept(s, k)[t]) by {
            if t < kept(s, k - 1).len() {
                assert(kept(s, k)[t] == kept(s, k - 1)[t]);
                assert(survivor_before(s, k - 1, kept(s, k - 1)[t]));
                let i = choose|i: int| 0 <= i < k - 1 && survives(s, i) && kept(s, k - 1)[t] == #[trigger] s[i];
                assert(0 <= i < k && survives(s, i) && kept(s, k)[t] == s[i]);
            } else {
                assert(survives(s, k - 1));
                assert(kept(s, k)[t] == s[k - 1]);
            }
        }
    }
}

/// No two entries kept among the first `k` are duplicates of each other.
proof fn lemma_kept_distinct_keys(s: Seq<MeetingView>, k: int)
    requires
        0 <= k <= s.len(),
    ensures
        forall|a: int, b: int|
            0 <= a < kept(s, k).len() && 0 <= b < kept(s, k).len() && a != b ==> !same_key(
                #[trigger] kept(s, k)[a],
                #[trigger] kept(s, k)[b],
            ),
    decreases k,
{
    if k > 0 {
        lemma_kept_distinct_keys(s, k - 1);
        lemma_kept_survivors(s, k - 1);
        let prev = kept(s, k - 1);
        let cur = kept(s, k);
        assert forall|a: int, b: int|
            0 <= a < cur.len() && 0 <= b < cur.len() && a != b implies !same_key(
            #[trigger] cur[a],
            #[trigger] cur[b],
        ) by {
            if a < prev.len() && b < prev.len() {
                assert(cur[a] == prev[a] && cur[b] == prev[b]);
            } else if a < prev.len() {
                assert(cur[a] == prev[a]);
                assert(cur[b] == s[k - 1]);
                assert(survivor_before(s, k - 1, prev[a]));
                let i = choose|i: int| 0 <= i < k - 1 && survives(s, i) && prev[a] == #[trigger] s[i];
                lemma_survivors_distinct_keys(s, i, k - 1);
            } else {
                assert(cur[b] == prev[b]);
                assert(cur[a] == s[k - 1]);
                assert(survivor_before(s, k - 1, prev[b]));
                let i = choose|i: int| 0 <= i < k - 1 && survives(s, i) && prev[b] == #[trigger] s[i];
                lemma_survivors_distinct_keys(s, i, k - 1);
            }
        }
    }
}

proof fn lemma_kept_all(d: Seq<MeetingView>, k: int)
    requires
        0 <= k <= d.len(),
        forall|t: int| 0 <= t < d.len() ==> survives(d, t),
    ensures
        kept(d, k) == d.subrange(0, k),
    decreases k,
{
    if k > 0 {
        lemma_kept_all(d, k - 1);
        assert(kept(d, k) =~= d.subrange(0, k));
    } else {
        assert(kept(d, k) =~= d.subrange(0, k));
    }
}

/// Deduplicating twice gives what deduplicating once gives.
pub proof fn lemma_dedup_idempotent(s: Seq<MeetingView>)
    ensures
        dedup_spec(dedup_spec(s)) == dedup_spec(s),
{
    let d = dedup_spec(s);
    lemma_kept_distinct_keys(s, s.len() as int);
    assert forall|t: int| 0 <= t < d.len() implies survives(d, t) by {
        assert forall|j: int|
            0 <= j < d.len() && j != t && same_key(#[trigger] d[j], d[t]) implies d[j].end_time
            < d[t].end_time || (d[j].end_time == d[t].end_time && j > t) by {
            assert(!same_key(d[j], d[t]));
        }
    }
    lemma_kept_all(d, d.len() as int);
    assert(d.subrange(0, d.len() as int) =~= d);
}

/// Each meeting left by deduplication ends no earlier than any duplicate of it in the input.
pub proof fn lemma_dedup_keeps_latest(s: Seq<MeetingView>)
    ensures
        forall|t: int, j: int|
            0 <= t < dedup_spec(s).len() && 0 <= j < s.len() && same_key(
                #[trigger] s[j],
                #[trigger] dedup_spec(s)[t],
            ) ==> s[j].end_time <= dedup_spec(s)[t].end_time,
{
    let d = dedup_spec(s);
    lemma_kept_survivors(s, s.len() as int);
    assert forall|t: int, j: int|
        0 <= t < d.len() && 0 <= j < s.len() && same_key(#[trigger] s[j], #[trigger] d[t]) implies s[j].end_time
        <= d[t].end_time by {
        assert(survivor_before(s, s.len() as int, d[t]));
        let i = choose|i: int| 0 <= i < s.len() && survives(s, i) && d[t] == #[trigger] s[i];
        if j != i {
            assert(same_key(s[j], s[i]));
        }
    }
}

/// The entry of the group of `s[i]` (entries sharing its title and start) that
/// wins among the first `k` positions: the latest end, the first such on ties.
pub open spec fn group_best(s: Seq<MeetingView>, i: int, k: int) -> int
    decreases k,
{
    if k <= 0 {
        i
    } else {
        let b = group_best(s, i, k - 1);
        let j = k - 1;
        if j < s.len() && same_key(s[j], s[i]) && (s[j].end_time > s[b].end_time || (s[j].end_time
            == s[b].end_time && j < b)) {
            j
        } else {
            b
        }
    }
}

/// `b` beats entry `j` of its group: `j` ends earlier, or as late and later in the list.
pub open spec fn beats(s: Seq<MeetingView>, b: int, j: int) -> bool {
    s[j].end_time < s[b].end_time || (s[j].end_time == s[b].end_time && j > b)
}

proof fn lemma_group_best(s: Seq<MeetingView>, i: int, k: int)
    requires
        0 <= i < s.len(),
        0 <= k <= s.len(),
    ensures
        0 <= group_best(s, i, k) < s.len(),
        same_key(s[group_best(s, i, k)], s[i]),
        group_best(s, i, k) != i ==> beats(s, group_best(s, i, k), i),
        forall|j: int| 0 <= j < k && j != group_best(s, i, k) && same_key(#[trigger] s[j], s[i]) ==> beats(s, group_best(s, i, k), j),
    decreases k,
{
    if k > 0 {
        lemma_group_best(s, i, k - 1);
        let b = group_best(s, i, k - 1);
        let nb = group_best(s, i, k);
        assert forall|j: int| 0 <= j < k && j != nb && same_key(#[trigger] s[j], s[i]) implies beats(s, nb, j) by {
            if j < k - 1 && j != b {
                assert(beats(s, b, j));
            }
        }
    }
}

proof fn lemma_kept_contains_survivor(s: Seq<MeetingView>, j: int, k: int)
    requires
        0 <= j < k <= s.len(),
        survives(s, j),
    ensures
        kept(s, k).contains(s[j]),
    decreases k,
{
    if k == j + 1 {
        let c = kept(s, k);
        assert(c[c.len() - 1] == s[j]);
    } else {
        lemma_kept_contains_survivor(s, j, k - 1);
        let p = kept(s, k - 1);
        let t = choose|t: int| 0 <= t < p.len() && p[t] == s[j];
        assert(kept(s, k)[t] == p[t]);
    }
}

/// Deduplication leaves exactly one meeting of each group of duplicates (same
/// title and start), and that meeting ends at the latest end of the group.
pub proof fn lemma_dedup_one_per_group(s: Seq<MeetingView>, i: int)
    requires
        0 <= i < s.len(),
    ensures
        exists|t: int| #![trigger dedup_spec(s)[t]]
            0 <= t < dedup_spec(s).len() && same_key(dedup_spec(s)[t], s[i]) && forall|j: int|
                0 <= j < s.len() && same_key(#[trigger] s[j], s[i]) ==> s[j].end_time <= dedup_spec(s)[t].end_time,
        forall|t1: int, t2: int|
            0 <= t1 < dedup_spec(s).len() && 0 <= t2 < dedup_spec(s).len() && same_key(#[trigger] dedup_spec(s)[t1], s[i]) && same_key(#[trigger] dedup_spec(s)[t2], s[i]) ==> t1 == t2,
{
    let d = dedup_spec(s);
    let n = s.len() as int;
    lemma_group_best(s, i, n);
    let b = group_best(s, i, n);
    assert(survives(s, b)) by {
        assert forall|j: int| 0 <= j < s.len() && j != b && same_key(#[trigger] s[j], s[b]) implies s[j].end_time < s[b].end_time || (s[j].end_time == s[b].end_time && j > b) by {
            assert(same_key(s[j], s[i]));
            assert(beats(s, b, j));
        }
    }
    lemma_kept_contains_survivor(s, b, n);
    let t = choose|t: int| 0 <= t < d.len() && d[t] == s[b];
    assert forall|j: int| 0 <= j < s.len() && same_key(#[trigger] s[j], s[i]) implies s[j].end_time <= d[t].end_time by {
        if j != b {
            assert(beats(s, b, j));
        }
    }
    assert(0 <= t < d.len() && same_key(d[t], s[i]));
    lemma_kept_distinct_keys(s, n);
    assert forall|t1: int, t2: int|
        0 <= t1 < d.len() && 0 <= t2 < d.len() && same_key(#[trigger] d[t1], s[i]) && same_key(#[trigger] d[t2], s[i]) implies t1 == t2 by {
        if t1 != t2 {
            assert(!same_key(d[t1], d[t2]));
        }
    }
}

/// Of two duplicates with different ends, in either order, only the one that
/// ends later remains.
pub proof fn lemma_dedup_later_end_survives(a: MeetingView, b: MeetingView)
    requires
        same_key(a, b),
        a.end_time < b.end_time,
    ensures
        dedup_spec(seq![a, b]) == seq![b],
        dedup_spec(seq![b, a]) == seq![b],
{
    let s1 = seq![a, b];
    let s2 = seq![b, a];
    assert(!survives(s1, 0)) by {
        assert(same_key(s1[1], s1[0]));
    }
    assert(survives(s1, 1)) by {
        assert forall|j: int| 0 <= j < s1.len() && j != 1 && same_key(#[trigger] s1[j], s1[1]) implies s1[j].end_time
            < s1[1].end_time || (s1[j].end_time == s1[1].end_time && j > 1) by {
            assert(j == 0);
        }
    }
    assert(survives(s2, 0)) by {
        assert forall|j: int| 0 <= j < s2.len() && j != 0 && same_key(#[trigger] s2[j], s2[0]) implies s2[j].end_time
            < s2[0].end_time || (s2[j].end_time == s2[0].end_time && j > 0) by {
            assert(j == 1);
        }
    }
    assert(!survives(s2, 1)) by {
        assert(same_key(s2[0], s2[1]));
    }
    assert(kept(s1, 0) =~= Seq::<MeetingView>::empty());
    assert(kept(s1, 1) =~= Seq::<MeetingView>::empty());
    assert(kept(s1, 2) =~= seq![b]);
    assert(kept(s2, 0) =~= Seq::<MeetingView>::empty());
    assert(kept(s2, 1) =~= seq![b]);
    assert(kept(s2, 2) =~= seq![b]);
}

/// Deduplicating a sorted list keeps it sorted.
pub proof fn lemma_dedup_sorted(s: Seq<MeetingView>)
    requires
        sorted_by_start(s),
    ensures
        sorted_by_start(dedup_spec(s)),
{
    lemma_kept_sorted(s, s.len() as int);
}

/// The entries kept among the first `k` come from `s` at increasing positions.
proof fn lemma_kept_sorted(s: Seq<MeetingView>, k: int)
    requires
        sorted_by_start(s),
        0 <= k <= s.len(),
    ensures
        sorted_by_start(kept(s, k)),
        forall|t: int| 0 <= t < kept(s, k).len() ==> #[trigger] kept(s, k)[t].start_time <= (if k > 0 { s[k - 1].start_time } else { kept(s, k)[t].start_time }),
    decreases k,
{
    if k > 0 {
        lemma_kept_sorted(s, k - 1);
        let prev = kept(s, k - 1);
        let cur = kept(s, k);
        assert forall|t: int| 0 <= t < prev.len() implies #[trigger] prev[t].start_time <= s[k - 1].start_time by {
            if k > 1 {
                assert(prev[t].start_time <= s[k - 2].start_time);
            }
        }
        assert forall|a: int, b: int| 0 <= a <= b < cur.len() implies cur[a].start_time <= cur[b].start_time by {
            if b < prev.len() {
                assert(cur[a] == prev[a] && cur[b] == prev[b]);
            } else if a < prev.len() {
                assert(cur[a] == prev[a]);
                assert(cur[b] == s[k - 1]);
            }
        }
        assert forall|t: int| 0 <= t < cur.len() implies #[trigger] cur[t].start_time <= s[k - 1].start_time by {
            if t < prev.len() {
                assert(cur[t] == prev[t]);
            }
        }
    }
}

} // verus!
