//! Laws of the checks that compare renditions with each other.
use crate::checks::drift::{
    common_end, common_start, distance, duration_drift_findings, duration_findings, duration_row,
    duration_rows, duration_rule, greatest, is_video, least, lemma_common_window, overlap_end,
    overlap_len, overlap_start, pdt_alignment_findings, pdt_findings, pdt_row, pdt_rows, pdt_rule,
    segment_at, total, total_details, total_findings, totals, video_at, videos, window_end,
    window_start,
};
use crate::checks::durations::{comparable, comparable_at, is_vod_iframe, target_findings, targets};
use crate::checks::renditions::{
    all_methods, count_findings, counted, counted_at, counts, counts_method, declares_methods,
    discontinuities, discontinuity_findings, encryption_findings, mix_rule, stands_for_name,
};
use crate::gather::{
    disagree, gathered, lemma_gathered_empty, lemma_gathered_holds, lemma_gathered_insert,
    lemma_gathered_origin, lemma_picked, lemma_picked_insert, lemma_picked_same, picked,
};
use crate::double::{lemma_difference_order, lemma_distance_mutual, less, minus, whole, zero, Real};
use crate::types::{IssueView, MediaPlaylist, Segment, Severity};
use vstd::prelude::*;

verus! {

/// Fewer than two elements do not differ.
proof fn lemma_few<T>(s: Seq<T>)
    requires
        s.len() < 2,
    ensures
        s.to_set().len() < 2,
        !disagree(s),
{
    if s.len() == 0 {
        assert(s.to_set() =~= Set::<T>::empty());
    } else {
        assert(s.to_set() =~= Set::<T>::empty().insert(s[0]));
    }
}

/// One rendition alone differs from no other: without a second playlist the
/// checks that compare renditions find nothing.
pub proof fn law_one_rendition_agrees(playlists: Seq<MediaPlaylist>, tolerance: Real)
    requires
        playlists.len() < 2,
    ensures
        target_findings(comparable(playlists)).len() == 0,
        discontinuity_findings(playlists).len() == 0,
        count_findings(counted(playlists)).len() == 0,
        duration_drift_findings(playlists, tolerance).len() == 0,
        pdt_alignment_findings(playlists, tolerance).len() == 0,
        total_findings(videos(playlists), tolerance).len() == 0,
{
    lemma_picked(playlists.len(), comparable_at(playlists));
    lemma_picked(playlists.len(), counted_at(playlists));
    lemma_picked(playlists.len(), video_at(playlists));
    lemma_few(targets(comparable(playlists)));
    lemma_few(discontinuities(playlists));
    lemma_few(counts(counted(playlists)));
    assert forall|i: int| 0 <= i < playlists.len() implies (#[trigger] duration_rows(
        playlists,
        tolerance,
    )(i)).len() == 0 by {
        lemma_gathered_empty(playlists.len(), duration_row(playlists, tolerance, i));
    }
    lemma_gathered_empty(playlists.len(), duration_rows(playlists, tolerance));
    assert forall|i: int| 0 <= i < playlists.len() implies (#[trigger] pdt_rows(
        playlists,
        tolerance,
    )(i)).len() == 0 by {
        lemma_gathered_empty(playlists.len(), pdt_row(playlists, tolerance, i));
    }
    lemma_gathered_empty(playlists.len(), pdt_rows(playlists, tolerance));
}

/// A playlist whose target duration is not compared, as that of an I-frame
/// playlist of a finished presentation is not, bears on nothing: with it and
/// without it the target durations agree or differ in the same way.
pub proof fn law_vod_iframes_left_out(
    a: Seq<MediaPlaylist>,
    pl: MediaPlaylist,
    b: Seq<MediaPlaylist>,
)
    requires
        is_vod_iframe(pl) || !less(zero(), pl.target_duration@),
    ensures
        target_findings(comparable(a.push(pl) + b)) == target_findings(comparable(a + b)),
{
    let more = a.push(pl) + b;
    let less = a + b;
    assert(more[a.len() as int] == pl);
    assert(forall|i: int| 0 <= i < a.len() ==> more[i] == less[i]);
    assert(forall|i: int| a.len() <= i < less.len() ==> more[i + 1] == less[i]);
    lemma_picked_insert(a, pl, b, comparable_at(more), comparable_at(less), less.len());
    assert(comparable(more) =~= comparable(less));
}

/// The target durations that are compared have no finding exactly when they
/// are the same number of whole seconds.
pub proof fn law_targets_agree(pls: Seq<MediaPlaylist>)
    ensures
        target_findings(pls).len() == 0 <==> forall|i: int, j: int|
            0 <= i < pls.len() && 0 <= j < pls.len() ==> whole(
                (#[trigger] pls[i]).target_duration@,
            ) == whole((#[trigger] pls[j]).target_duration@),
{
    let all = targets(pls);
    if forall|i: int, j: int|
        0 <= i < pls.len() && 0 <= j < pls.len() ==> whole((#[trigger] pls[i]).target_duration@)
            == whole((#[trigger] pls[j]).target_duration@) {
        if all.len() > 0 {
            assert(all.to_set() =~= Set::<nat>::empty().insert(all[0])) by {
                assert forall|x: nat| all.contains(x) implies x == all[0] by {
                    let i = choose|i: int| 0 <= i < all.len() && all[i] == x;
                    assert(whole(pls[i].target_duration@) == whole(pls[0].target_duration@));
                }
                assert(all.contains(all[0]));
            }
        } else {
            assert(all.to_set() =~= Set::<nat>::empty());
        }
    } else {
        let (i, j) = choose|i: int, j: int|
            0 <= i < pls.len() && 0 <= j < pls.len() && whole(
                (#[trigger] pls[i]).target_duration@,
            ) != whole((#[trigger] pls[j]).target_duration@);
        let two = Set::<nat>::empty().insert(all[i]).insert(all[j]);
        assert(all.contains(all[i]) && all.contains(all[j]));
        assert(two.subset_of(all.to_set()));
        vstd::set_lib::lemma_len_subset(two, all.to_set());
    }
}

/// A rendition that is not video, or that is an I-frame playlist, bears on
/// none of the comparisons of segments, of program dates, of total durations
/// and of segment counts.
pub proof fn law_only_video_is_compared(
    a: Seq<MediaPlaylist>,
    pl: MediaPlaylist,
    b: Seq<MediaPlaylist>,
    tolerance: Real,
)
    requires
        !is_video(pl),
    ensures
        duration_drift_findings(a.push(pl) + b, tolerance) == duration_drift_findings(
            a + b,
            tolerance,
        ),
        pdt_alignment_findings(a.push(pl) + b, tolerance) == pdt_alignment_findings(
            a + b,
            tolerance,
        ),
        total_findings(videos(a.push(pl) + b), tolerance) == total_findings(
            videos(a + b),
            tolerance,
        ),
        count_findings(counted(a.push(pl) + b)) == count_findings(counted(a + b)),
{
    let more = a.push(pl) + b;
    let less = a + b;
    let m = a.len();
    let n = less.len();
    assert(more[m as int] == pl);
    assert(forall|i: int| 0 <= i < m ==> more[i] == less[i]);
    assert(forall|i: int| m <= i < n ==> more[i + 1] == less[i]);
    lemma_picked_insert(a, pl, b, video_at(more), video_at(less), n);
    assert(videos(more) =~= videos(less));
    lemma_picked_insert(a, pl, b, counted_at(more), counted_at(less), n);
    assert(counted(more) =~= counted(less));

    assert forall|i: int| 0 <= i < m implies #[trigger] duration_rows(less, tolerance)(i)
        == duration_rows(more, tolerance)(i) by {
        lemma_gathered_insert(
            m,
            n,
            duration_row(more, tolerance, i),
            duration_row(less, tolerance, i),
        );
    }
    assert forall|i: int| m <= i < n implies #[trigger] duration_rows(less, tolerance)(i)
        == duration_rows(more, tolerance)(i + 1) by {
        lemma_gathered_insert(
            m,
            n,
            duration_row(more, tolerance, i + 1),
            duration_row(less, tolerance, i),
        );
    }
    lemma_gathered_empty(n + 1, duration_row(more, tolerance, m as int));
    lemma_gathered_insert(m, n, duration_rows(more, tolerance), duration_rows(less, tolerance));

    assert forall|i: int| 0 <= i < m implies #[trigger] pdt_rows(less, tolerance)(i) == pdt_rows(
        more,
        tolerance,
    )(i) by {
        lemma_gathered_insert(m, n, pdt_row(more, tolerance, i), pdt_row(less, tolerance, i));
    }
    assert forall|i: int| m <= i < n implies #[trigger] pdt_rows(less, tolerance)(i) == pdt_rows(
        more,
        tolerance,
    )(i + 1) by {
        lemma_gathered_insert(m, n, pdt_row(more, tolerance, i + 1), pdt_row(less, tolerance, i));
    }
    lemma_gathered_empty(n + 1, pdt_row(more, tolerance, m as int));
    lemma_gathered_insert(m, n, pdt_rows(more, tolerance), pdt_rows(less, tolerance));
}

/// Two playlists list a media sequence number together exactly when each of
/// them lists it, whichever is named first.
pub proof fn law_overlap_is_shared(a: MediaPlaylist, b: MediaPlaylist, msn: int)
    ensures
        overlap_start(a, b) <= msn < overlap_start(a, b) + overlap_len(a, b) <==> window_start(a)
            <= msn < window_end(a) && window_start(b) <= msn < window_end(b),
        overlap_start(a, b) == overlap_start(b, a),
        overlap_len(a, b) == overlap_len(b, a),
{
}

/// Two renditions have as many findings on each other whichever of them is
/// named first.
pub proof fn law_drift_is_mutual(a: MediaPlaylist, b: MediaPlaylist, tolerance: Real)
    ensures
        duration_findings(a, b, tolerance).len() == duration_findings(b, a, tolerance).len(),
        pdt_findings(a, b, tolerance).len() == pdt_findings(b, a, tolerance).len(),
{
    assert forall|x: Real, y: Real| #[trigger] distance(x, y) == distance(y, x) by {
        lemma_distance_mutual(x, y);
    }
    lemma_same_lengths(
        overlap_len(a, b),
        duration_rule(a, b, tolerance),
        duration_rule(b, a, tolerance),
    );
    lemma_same_lengths(overlap_len(a, b), pdt_rule(a, b, tolerance), pdt_rule(b, a, tolerance));
}

/// Lists that are equally long position by position gather to equally long
/// lists.
proof fn lemma_same_lengths(
    n: nat,
    f: spec_fn(int) -> Seq<IssueView>,
    g: spec_fn(int) -> Seq<IssueView>,
)
    requires
        forall|i: int| 0 <= i < n ==> (#[trigger] f(i)).len() == g(i).len(),
    ensures
        gathered(n, f).len() == gathered(n, g).len(),
    decreases n,
{
    if n > 0 {
        lemma_same_lengths((n - 1) as nat, f, g);
        assert(f(n - 1).len() == g(n - 1).len());
    }
}

/// Two renditions have a finding on their durations exactly when both are
/// video and differ by more than the tolerance somewhere in what they share.
pub proof fn law_drift_is_found(a: MediaPlaylist, b: MediaPlaylist, tolerance: Real)
    ensures
        duration_findings(a, b, tolerance).len() > 0 <==> is_video(a) && is_video(b) && exists|msn:
            int|
            overlap_start(a, b) <= msn < overlap_end(a, b) && less(
                tolerance,
                distance((#[trigger] segment_at(a, msn)).duration@, segment_at(b, msn).duration@),
            ),
{
    let n = overlap_len(a, b);
    let rule = duration_rule(a, b, tolerance);
    if duration_findings(a, b, tolerance).len() > 0 {
        let at = lemma_gathered_origin(n, rule, 0);
        let msn = overlap_start(a, b) + at.0;
        assert(less(
            tolerance,
            distance(segment_at(a, msn).duration@, segment_at(b, msn).duration@),
        ));
    }
    if is_video(a) && is_video(b) && exists|msn: int|
        overlap_start(a, b) <= msn < overlap_end(a, b) && less(
            tolerance,
            distance((#[trigger] segment_at(a, msn)).duration@, segment_at(b, msn).duration@),
        ) {
        let msn = choose|msn: int|
            overlap_start(a, b) <= msn < overlap_end(a, b) && less(
                tolerance,
                distance((#[trigger] segment_at(a, msn)).duration@, segment_at(b, msn).duration@),
            );
        let k = msn - overlap_start(a, b);
        assert(rule(k).len() == 1);
        lemma_gathered_holds(n, rule, k, 0);
    }
}

/// Two renditions have a finding on their program dates exactly when both are
/// video and two dates differ by more than the tolerance somewhere in what they
/// share. Segments without a date are not compared.
pub proof fn law_misalignment_is_found(a: MediaPlaylist, b: MediaPlaylist, tolerance: Real)
    ensures
        pdt_findings(a, b, tolerance).len() > 0 <==> is_video(a) && is_video(b) && exists|msn:
            int|
            overlap_start(a, b) <= msn < overlap_end(a, b) && dates_differ(
                #[trigger] segment_at(a, msn),
                segment_at(b, msn),
                tolerance,
            ),
{
    let n = overlap_len(a, b);
    let rule = pdt_rule(a, b, tolerance);
    if pdt_findings(a, b, tolerance).len() > 0 {
        let at = lemma_gathered_origin(n, rule, 0);
        let msn = overlap_start(a, b) + at.0;
        assert(dates_differ(segment_at(a, msn), segment_at(b, msn), tolerance));
    }
    if is_video(a) && is_video(b) && exists|msn: int|
        overlap_start(a, b) <= msn < overlap_end(a, b) && dates_differ(
            #[trigger] segment_at(a, msn),
            segment_at(b, msn),
            tolerance,
        ) {
        let msn = choose|msn: int|
            overlap_start(a, b) <= msn < overlap_end(a, b) && dates_differ(
                #[trigger] segment_at(a, msn),
                segment_at(b, msn),
                tolerance,
            );
        let k = msn - overlap_start(a, b);
        assert(rule(k).len() == 1);
        lemma_gathered_holds(n, rule, k, 0);
    }
}

/// Whether both segments have a program date, and the dates are further apart
/// than the tolerance.
pub open spec fn dates_differ(x: Segment, y: Segment, tolerance: Real) -> bool {
    x.pdt is Some && y.pdt is Some && less(tolerance, distance((x.pdt->0)@, (y.pdt->0)@))
}

/// The common window reaches from the latest start to the earliest end: it
/// holds the media sequence numbers that every rendition lists.
pub proof fn law_common_window(pls: Seq<MediaPlaylist>, msn: int)
    requires
        pls.len() > 0,
        forall|k: int| 0 <= k < pls.len() ==> window_end(#[trigger] pls[k]) <= u64::MAX,
    ensures
        common_start(pls) <= msn < common_end(pls) <==> forall|k: int|
            0 <= k < pls.len() ==> window_start(#[trigger] pls[k]) <= msn < window_end(pls[k]),
    decreases pls.len(),
{
    let rest = pls.drop_last();
    assert(forall|k: int| 0 <= k < rest.len() ==> rest[k] == pls[k]);
    assert(pls[pls.len() - 1] == pls.last());
    let inside = |s: Seq<MediaPlaylist>|
        forall|k: int|
            0 <= k < s.len() ==> window_start(#[trigger] s[k]) <= msn < window_end(s[k]);
    if rest.len() > 0 {
        law_common_window(rest, msn);
        assert(inside(pls) <==> inside(rest) && window_start(pls.last()) <= msn < window_end(
            pls.last(),
        )) by {
            if inside(pls) {
                assert(forall|k: int|
                    0 <= k < rest.len() ==> window_start(#[trigger] rest[k]) <= msn
                        < window_end(rest[k]));
            }
            if inside(rest) && window_start(pls.last()) <= msn < window_end(pls.last()) {
                assert forall|k: int| 0 <= k < pls.len() implies window_start(#[trigger] pls[k])
                    <= msn < window_end(pls[k]) by {
                    if k < rest.len() {
                        assert(window_start(rest[k]) <= msn < window_end(rest[k]));
                    }
                }
            }
        }
    } else {
        assert(common_start(rest) == 0 && common_end(rest) == u64::MAX);
        assert(inside(pls) <==> window_start(pls.last()) <= msn < window_end(pls.last()));
    }
}

/// The greatest and the least of some numbers bound them and, if any of them is
/// a number, are among them.
pub proof fn law_greatest_and_least(s: Seq<Real>)
    ensures
        !(greatest(s) is Nan) && !(least(s) is Nan),
        forall|i: int| 0 <= i < s.len() ==> !less(greatest(s), #[trigger] s[i]),
        forall|i: int| 0 <= i < s.len() ==> !less(#[trigger] s[i], least(s)),
        greatest(s) == Real::Infinite(true) || exists|i: int|
            0 <= i < s.len() && #[trigger] s[i] == greatest(s),
        least(s) == Real::Infinite(false) || exists|i: int|
            0 <= i < s.len() && #[trigger] s[i] == least(s),
    decreases s.len(),
{
    if s.len() > 0 {
        let rest = s.drop_last();
        law_greatest_and_least(rest);
        assert(s[s.len() - 1] == s.last());
        assert forall|i: int| 0 <= i < s.len() implies !less(greatest(s), #[trigger] s[i])
            && !less(s[i], least(s)) by {
            if i < rest.len() {
                assert(rest[i] == s[i]);
            }
        }
        if greatest(s) == greatest(rest) && greatest(s) != Real::Infinite(true) {
            let i = choose|i: int| 0 <= i < rest.len() && #[trigger] rest[i] == greatest(rest);
            assert(s[i] == greatest(s));
        }
        if least(s) == least(rest) && least(s) != Real::Infinite(false) {
            let i = choose|i: int| 0 <= i < rest.len() && #[trigger] rest[i] == least(rest);
            assert(s[i] == least(s));
        }
    }
}

/// Renditions have a finding on their total durations exactly when they have
/// segments in common over which two of them differ by more than the tolerance.
pub proof fn law_total_drift_is_found(pls: Seq<MediaPlaylist>, tolerance: Real)
    ensures
        total_findings(pls, tolerance).len() > 0 <==> pls.len() >= 2 && common_start(pls)
            < common_end(pls) && exists|i: int, j: int|
            0 <= i < pls.len() && 0 <= j < pls.len() && less(
                tolerance,
                minus(#[trigger] totals(pls)[i], #[trigger] totals(pls)[j]),
            ),
{
    let sums = totals(pls);
    let high = greatest(sums);
    let low = least(sums);
    law_greatest_and_least(sums);
    if less(tolerance, minus(high, low)) {
        assert(high != Real::Infinite(true) || exists|i: int|
            0 <= i < sums.len() && #[trigger] sums[i] == high);
        let i = choose|i: int| 0 <= i < sums.len() && #[trigger] sums[i] == high;
        let j = choose|j: int| 0 <= j < sums.len() && #[trigger] sums[j] == low;
        assert(less(tolerance, minus(sums[i], sums[j])));
    }
    if exists|i: int, j: int|
        0 <= i < pls.len() && 0 <= j < pls.len() && less(
            tolerance,
            minus(#[trigger] totals(pls)[i], #[trigger] totals(pls)[j]),
        ) {
        let (i, j) = choose|i: int, j: int|
            0 <= i < pls.len() && 0 <= j < pls.len() && less(
                tolerance,
                minus(#[trigger] totals(pls)[i], #[trigger] totals(pls)[j]),
            );
        lemma_difference_order(tolerance, sums[i], sums[j], high, low);
    }
}

/// Equal durations add up to the same.
proof fn lemma_total_same(s: Seq<Segment>, t: Seq<Segment>)
    requires
        s.len() == t.len(),
        forall|i: int| 0 <= i < s.len() ==> (#[trigger] s[i]).duration@ == t[i].duration@,
    ensures
        total(s) == total(t),
    decreases s.len(),
{
    if s.len() > 0 {
        let x = s.drop_last();
        let y = t.drop_last();
        assert forall|i: int| 0 <= i < x.len() implies (#[trigger] x[i]).duration@
            == y[i].duration@ by {
            assert(x[i] == s[i] && y[i] == t[i]);
        }
        lemma_total_same(x, y);
        assert(s[s.len() - 1].duration@ == t[t.len() - 1].duration@);
    }
}

/// Only the common window counts: renditions that have the same names, the same
/// common window and the same durations in it drift in the same way, whatever
/// else they list.
pub proof fn law_only_the_common_window_counts(
    a: Seq<MediaPlaylist>,
    b: Seq<MediaPlaylist>,
    tolerance: Real,
)
    requires
        a.len() == b.len(),
        common_start(a) == common_start(b),
        common_end(a) == common_end(b),
        forall|k: int| 0 <= k < a.len() ==> (#[trigger] a[k]).name@ == b[k].name@,
        forall|k: int, msn: int|
            0 <= k < a.len() && common_start(a) <= msn < common_end(a) ==> (#[trigger] segment_at(
                a[k],
                msn,
            )).duration@ == segment_at(b[k], msn).duration@,
    ensures
        total_findings(a, tolerance) == total_findings(b, tolerance),
{
    let start = common_start(a);
    let end = common_end(a);
    if start < end {
        assert forall|k: int| 0 <= k < a.len() implies #[trigger] totals(a)[k] == totals(b)[k] by {
            lemma_common_window(a, k);
            lemma_common_window(b, k);
            let s = a[k].segments@.subrange(start - window_start(a[k]), end - window_start(a[k]));
            let t = b[k].segments@.subrange(start - window_start(b[k]), end - window_start(b[k]));
            assert forall|i: int| 0 <= i < s.len() implies (#[trigger] s[i]).duration@
                == t[i].duration@ by {
                assert(s[i] == segment_at(a[k], start + i));
                assert(t[i] == segment_at(b[k], start + i));
            }
            lemma_total_same(s, t);
        }
        assert(totals(a) =~= totals(b));
        assert(total_details(a, totals(a)) =~= total_details(b, totals(b))) by {
            assert forall|k: int| 0 <= k < a.len() implies #[trigger] total_details(
                a,
                totals(a),
            )[k] == total_details(b, totals(b))[k] by {
                assert(a[k].name@ == b[k].name@);
            }
        }
    }
}

/// The common window starts at the same place where the renditions do.
proof fn lemma_common_start_same(a: Seq<MediaPlaylist>, b: Seq<MediaPlaylist>)
    requires
        a.len() == b.len(),
        forall|k: int| 0 <= k < a.len() ==> window_start(#[trigger] a[k]) == window_start(b[k]),
    ensures
        common_start(a) == common_start(b),
    decreases a.len(),
{
    if a.len() > 0 {
        let x = a.drop_last();
        let y = b.drop_last();
        assert forall|k: int| 0 <= k < x.len() implies window_start(#[trigger] x[k])
            == window_start(y[k]) by {
            assert(x[k] == a[k] && y[k] == b[k]);
        }
        lemma_common_start_same(x, y);
        assert(window_start(a[a.len() - 1]) == window_start(b[b.len() - 1]));
    }
}

/// The common window ends where one of the renditions does, if not at the
/// greatest number.
proof fn lemma_common_end_attained(pls: Seq<MediaPlaylist>)
    ensures
        common_end(pls) <= u64::MAX,
        common_end(pls) == u64::MAX || exists|k: int|
            0 <= k < pls.len() && window_end(#[trigger] pls[k]) == common_end(pls),
    decreases pls.len(),
{
    if pls.len() > 0 {
        let rest = pls.drop_last();
        lemma_common_end_attained(rest);
        if window_end(pls.last()) < common_end(rest) {
            assert(window_end(pls[pls.len() - 1]) == common_end(pls));
        } else if common_end(rest) != u64::MAX {
            let k = choose|k: int|
                0 <= k < rest.len() && window_end(#[trigger] rest[k]) == common_end(rest);
            assert(window_end(pls[k]) == common_end(pls));
        }
    }
}

/// Lengthening a rendition that another one does not outlast leaves the end of
/// the common window where it is.
proof fn lemma_common_end_kept(pls: Seq<MediaPlaylist>, k: int, longer: MediaPlaylist, j: int)
    requires
        0 <= k < pls.len(),
        0 <= j < pls.len(),
        j != k,
        window_end(pls[j]) <= window_end(pls[k]) <= window_end(longer),
    ensures
        common_end(pls.update(k, longer)) == common_end(pls),
{
    let new = pls.update(k, longer);
    lemma_common_end_attained(pls);
    lemma_common_end_attained(new);
    lemma_common_window(pls, j);
    lemma_common_window(new, j);
    lemma_common_window(pls, k);
    lemma_common_window(new, k);
    if common_end(new) != u64::MAX {
        let i = choose|i: int|
            0 <= i < new.len() && window_end(#[trigger] new[i]) == common_end(new);
        lemma_common_window(pls, i);
    }
    if common_end(pls) != u64::MAX {
        let i = choose|i: int|
            0 <= i < pls.len() && window_end(#[trigger] pls[i]) == common_end(pls);
        lemma_common_window(new, i);
    }
}

/// Segments that only one rendition lists are no drift: where another video
/// rendition ends no later, more segments at the end of one rendition change
/// nothing. Renditions of a live presentation are not all fetched at once.
pub proof fn law_extra_segments_are_no_drift(
    playlists: Seq<MediaPlaylist>,
    k: int,
    longer: MediaPlaylist,
    j: int,
    tolerance: Real,
)
    requires
        0 <= k < playlists.len(),
        0 <= j < playlists.len(),
        j != k,
        is_video(playlists[j]),
        window_end(playlists[j]) <= window_end(playlists[k]),
        longer == (MediaPlaylist { segments: longer.segments, ..playlists[k] }),
        playlists[k].segments@.is_prefix_of(longer.segments@),
    ensures
        total_findings(videos(playlists.update(k, longer)), tolerance) == total_findings(
            videos(playlists),
            tolerance,
        ),
{
    let new = playlists.update(k, longer);
    let n = playlists.len();
    let p = video_at(playlists);
    lemma_picked_same(n, p, video_at(new));
    lemma_picked(n, p);
    let m = picked(n, p);
    let a = videos(playlists);
    let b = videos(new);
    if is_video(playlists[k]) {
        assert(m.contains(k) && m.contains(j));
        let at = choose|i: int| 0 <= i < m.len() && m[i] == k;
        let other = choose|i: int| 0 <= i < m.len() && m[i] == j;
        assert(b =~= a.update(at, longer)) by {
            assert forall|i: int| 0 <= i < m.len() && i != at implies m[i] != k by {
                assert(i < at || at < i);
            }
        }
        lemma_common_end_kept(a, at, longer, other);
        lemma_common_start_same(a, b);
        lemma_common_window(a, at);
        assert forall|i: int, msn: int|
            0 <= i < a.len() && common_start(a) <= msn < common_end(a) implies (
        #[trigger] segment_at(a[i], msn)).duration@ == segment_at(b[i], msn).duration@ by {
            if i == at {
                let x = msn - window_start(longer);
                assert(playlists[k].segments@[x] == longer.segments@[x]);
            }
        }
        law_only_the_common_window_counts(a, b, tolerance);
    } else {
        assert(b =~= a) by {
            assert forall|i: int| 0 <= i < m.len() implies m[i] != k by {
                assert(p(m[i]));
            }
        }
    }
}

/// A playlist that does not declare how it is encrypted bears on nothing: it
/// does not count as clear.
pub proof fn law_undeclared_encryption_left_out(
    a: Seq<MediaPlaylist>,
    pl: MediaPlaylist,
    b: Seq<MediaPlaylist>,
)
    requires
        !declares_methods(pl),
    ensures
        encryption_findings(a.push(pl) + b) == encryption_findings(a + b),
{
    let more = a.push(pl) + b;
    let less = a + b;
    let m = a.len();
    let n = less.len();
    assert(more[m as int] == pl);
    assert(forall|i: int| 0 <= i < m ==> more[i] == less[i]);
    assert(forall|i: int| m <= i < n ==> more[i + 1] == less[i]);
    assert forall|i: int| 0 <= i < n implies #[trigger] stands_for_name(less, i)
        == stands_for_name(
        more,
        if i < m {
            i
        } else {
            i + 1
        },
    ) by {
        let at = if i < m {
            i
        } else {
            i + 1
        };
        if stands_for_name(less, i) {
            assert forall|j: int|
                at < j < more.len() && (#[trigger] more[j]).name@
                    == more[at].name@ implies !declares_methods(more[j]) by {
                if j < m {
                    assert(less[j] == more[j]);
                } else if j > m {
                    assert(less[j - 1] == more[j]);
                }
            }
        }
        if stands_for_name(more, at) {
            assert forall|j: int|
                i < j < less.len() && (#[trigger] less[j]).name@
                    == less[i].name@ implies !declares_methods(less[j]) by {
                if j < m {
                    assert(less[j] == more[j]);
                } else {
                    assert(less[j] == more[j + 1]);
                }
            }
        }
    }
    lemma_gathered_insert(m, n, mix_rule(more), mix_rule(less));
    assert(all_methods(more) =~= all_methods(less)) by {
        assert forall|x: Seq<char>| all_methods(more).contains(x) implies all_methods(
            less,
        ).contains(x) by {
            let i = choose|i: int| 0 <= i < more.len() && #[trigger] counts_method(more, i, x);
            assert(i != m);
            let at = if i < m {
                i
            } else {
                i - 1
            };
            assert(stands_for_name(less, at) == stands_for_name(more, i));
            assert(counts_method(less, at, x));
        }
        assert forall|x: Seq<char>| all_methods(less).contains(x) implies all_methods(
            more,
        ).contains(x) by {
            let i = choose|i: int| 0 <= i < less.len() && #[trigger] counts_method(less, i, x);
            let at = if i < m {
                i
            } else {
                i + 1
            };
            assert(stands_for_name(less, i) == stands_for_name(more, at));
            assert(counts_method(more, at, x));
        }
    }
}

/// Renditions that are all encrypted by one method, the same for all, have no
/// findings.
pub proof fn law_one_method_agrees(playlists: Seq<MediaPlaylist>, method: Seq<char>)
    requires
        forall|i: int|
            0 <= i < playlists.len() && declares_methods(#[trigger] playlists[i])
                ==> playlists[i].encryption_methods@ == Set::<Seq<char>>::empty().insert(method),
    ensures
        encryption_findings(playlists).len() == 0,
{
    assert forall|i: int| 0 <= i < playlists.len() implies (#[trigger] mix_rule(playlists)(
        i,
    )).len() == 0 by {
        if declares_methods(playlists[i]) {
            assert(playlists[i].encryption_methods@.len() == 1);
        }
    }
    lemma_gathered_empty(playlists.len(), mix_rule(playlists));
    let all = all_methods(playlists);
    let one = Set::<Seq<char>>::empty().insert(method);
    assert forall|x: Seq<char>| all.contains(x) implies one.contains(x) by {
        let i = choose|i: int| 0 <= i < playlists.len() && #[trigger] counts_method(
            playlists,
            i,
            x,
        );
        assert(declares_methods(playlists[i]));
    }
    vstd::set_lib::lemma_len_subset(all, one);
}

/// Renditions that differ in how they are encrypted never fail a
/// presentation: every finding is a warning.
pub proof fn law_encryption_only_warns(playlists: Seq<MediaPlaylist>)
    ensures
        forall|k: int|
            0 <= k < encryption_findings(playlists).len() ==> (#[trigger] encryption_findings(
                playlists,
            )[k]).severity == Severity::Warn,
{
    let rule = mix_rule(playlists);
    let n = playlists.len();
    let mixed = gathered(n, rule);
    assert forall|k: int| 0 <= k < encryption_findings(playlists).len() implies (
    #[trigger] encryption_findings(playlists)[k]).severity == Severity::Warn by {
        if k < mixed.len() {
            let at = lemma_gathered_origin(n, rule, k);
            assert(rule(at.0)[at.1].severity == Severity::Warn);
        }
    }
}

} // verus!
