//! Laws of the comparisons of video renditions, stated on the segments that
//! the renditions list.
use crate::checks::drift::{
    common_end, common_start, duration_drift_findings, duration_findings, duration_row,
    duration_rows, duration_rule, in_seconds, is_video, lemma_common_window, overlap_len,
    overlap_start, pdt_alignment_findings, pdt_findings, pdt_row, pdt_rows, pdt_rule, segment_at,
    total, total_between, total_findings, totals, video_at, videos, window_end, window_start,
    windows_fit,
};
use crate::double::{
    absolute, law_thousands, lemma_added_to_zero, less, minus, plus, quotient, Real,
};
use crate::gather::{
    gathered, lemma_gathered_holds, lemma_gathered_none, lemma_gathered_origin, lemma_gathered_same,
    lemma_picked, picked,
};
use crate::laws::renditions::law_total_drift_is_found;
use crate::laws::tags::one_if;
use crate::types::{index_number, IssueView, MediaPlaylist, Severity};
use vstd::arithmetic::power2::pow2;
use vstd::prelude::*;

verus! {

/// Whether a playlist is a video rendition other than of I-frames.
pub open spec fn shows_video(pl: MediaPlaylist) -> bool {
    pl.media_type@ == "VIDEO"@ && pl.is_iframe == false
}

/// The media sequence number of segment `x` of a playlist.
pub open spec fn number_of(pl: MediaPlaylist, x: int) -> int {
    pl.media_sequence as int + pl.skipped_segments as int + x
}

/// Whether segment `x` of the one playlist and segment `y` of the other are
/// listed under the same media sequence number.
pub open spec fn stand_for(a: MediaPlaylist, x: int, b: MediaPlaylist, y: int) -> bool {
    &&& 0 <= x < a.segments@.len()
    &&& 0 <= y < b.segments@.len()
    &&& number_of(a, x) == number_of(b, y)
}

/// Whether a finding is a warning on segment `x` of the one playlist and
/// segment `y` of the other.
pub open spec fn is_on(
    issue: IssueView,
    a: MediaPlaylist,
    x: int,
    b: MediaPlaylist,
    y: int,
) -> bool {
    &&& issue.severity == Severity::Warn
    &&& issue.rendition_a == Some(a.name@)
    &&& issue.rendition_b == Some(b.name@)
    &&& issue.uri_a == Some(a.segments@[x].uri@)
    &&& issue.uri_b == Some(b.segments@[y].uri@)
    &&& issue.segment_index == index_number(number_of(a, x))
}

/// Whether two segments differ in duration by more than the tolerance.
pub open spec fn durations_differ(
    a: MediaPlaylist,
    x: int,
    b: MediaPlaylist,
    y: int,
    tolerance: Real,
) -> bool {
    stand_for(a, x, b, y) && less(
        tolerance,
        absolute(minus(a.segments@[x].duration@, b.segments@[y].duration@)),
    )
}

/// Whether two segments have program dates that differ by more than the
/// tolerance.
pub open spec fn dates_apart(
    a: MediaPlaylist,
    x: int,
    b: MediaPlaylist,
    y: int,
    tolerance: Real,
) -> bool {
    &&& stand_for(a, x, b, y)
    &&& a.segments@[x].pdt is Some
    &&& b.segments@[y].pdt is Some
    &&& less(
        tolerance,
        absolute(minus((a.segments@[x].pdt->0)@, (b.segments@[y].pdt->0)@)),
    )
}

/// A media sequence number within the range of an index is the index; another
/// differs from it by a multiple of 2^32.
pub proof fn law_index_is_the_number(n: int)
    requires
        0 <= n <= u64::MAX,
    ensures
        n <= i32::MAX ==> index_number(n) == n,
        (n - index_number(n)) % 0x1_0000_0000 == 0,
        i32::MIN <= index_number(n) <= i32::MAX,
{
    let x = n as u64;
    assert((x as i32) as u32 == x as u32) by (bit_vector);
    assert(x as u32 == x % 0x1_0000_0000) by (bit_vector);
    let i = x as i32;
    assert(i >= 0 ==> i as u32 == i) by (bit_vector);
    assert(i < 0 ==> i as u32 == i + 0x1_0000_0000) by (bit_vector);
}

/// The tolerance is given in thousandths of a second.
pub proof fn law_tolerance_in_milliseconds(milliseconds: Real)
    ensures
        in_seconds(milliseconds) == quotient(milliseconds, Real::Finite(false, 1000 * pow2(1074))),
{
    law_thousands();
}

/// Whether some finding is on the two segments.
pub open spec fn is_reported(
    found: Seq<IssueView>,
    a: MediaPlaylist,
    x: int,
    b: MediaPlaylist,
    y: int,
) -> bool {
    exists|k: int| 0 <= k < found.len() && is_on(#[trigger] found[k], a, x, b, y)
}

/// Whether a finding is on two segments that differ in duration.
pub open spec fn is_drift(
    issue: IssueView,
    a: MediaPlaylist,
    b: MediaPlaylist,
    tolerance: Real,
) -> bool {
    exists|x: int, y: int| #[trigger]
        durations_differ(a, x, b, y, tolerance) && is_on(issue, a, x, b, y)
}

/// Whether a finding is on two segments whose dates differ.
pub open spec fn is_misaligned(
    issue: IssueView,
    a: MediaPlaylist,
    b: MediaPlaylist,
    tolerance: Real,
) -> bool {
    exists|x: int, y: int| #[trigger]
        dates_apart(a, x, b, y, tolerance) && is_on(issue, a, x, b, y)
}

/// Two renditions have a warning on two segments exactly when both are video,
/// the segments have the same media sequence number, and their durations differ
/// by more than the tolerance.
pub proof fn law_drifting_segments(a: MediaPlaylist, b: MediaPlaylist, tolerance: Real)
    ensures
        ({
            let found = duration_findings(a, b, tolerance);
            let both = shows_video(a) && shows_video(b);
            &&& !both ==> found.len() == 0
            &&& forall|k: int|
                0 <= k < found.len() ==> is_drift(#[trigger] found[k], a, b, tolerance)
            &&& both ==> forall|x: int, y: int| #[trigger]
                durations_differ(a, x, b, y, tolerance) ==> is_reported(found, a, x, b, y)
        }),
{
    let found = duration_findings(a, b, tolerance);
    let n = overlap_len(a, b);
    let rule = duration_rule(a, b, tolerance);
    assert forall|k: int| 0 <= k < found.len() implies is_drift(
        #[trigger] found[k],
        a,
        b,
        tolerance,
    ) by {
        let at = lemma_gathered_origin(n, rule, k);
        let msn = overlap_start(a, b) + at.0;
        let x = msn - window_start(a);
        let y = msn - window_start(b);
        assert(durations_differ(a, x, b, y, tolerance));
        assert(is_on(found[k], a, x, b, y));
    }
    if shows_video(a) && shows_video(b) {
        assert forall|x: int, y: int| #[trigger]
            durations_differ(a, x, b, y, tolerance) implies is_reported(found, a, x, b, y) by {
            let at = number_of(a, x) - overlap_start(a, b);
            assert(rule(at).len() == 1);
            lemma_gathered_holds(n, rule, at, 0);
            let k = choose|k: int| 0 <= k < found.len() && found[k] == rule(at)[0];
            assert(is_on(found[k], a, x, b, y));
        }
    }
}

/// Two renditions have a warning on the dates of two segments exactly when both
/// are video, the segments have the same media sequence number, and both have a
/// program date, differing by more than the tolerance.
pub proof fn law_misaligned_segments(a: MediaPlaylist, b: MediaPlaylist, tolerance: Real)
    ensures
        ({
            let found = pdt_findings(a, b, tolerance);
            let both = shows_video(a) && shows_video(b);
            &&& !both ==> found.len() == 0
            &&& forall|k: int|
                0 <= k < found.len() ==> is_misaligned(#[trigger] found[k], a, b, tolerance)
            &&& both ==> forall|x: int, y: int| #[trigger]
                dates_apart(a, x, b, y, tolerance) ==> is_reported(found, a, x, b, y)
        }),
{
    let found = pdt_findings(a, b, tolerance);
    let n = overlap_len(a, b);
    let rule = pdt_rule(a, b, tolerance);
    assert forall|k: int| 0 <= k < found.len() implies is_misaligned(
        #[trigger] found[k],
        a,
        b,
        tolerance,
    ) by {
        let at = lemma_gathered_origin(n, rule, k);
        let msn = overlap_start(a, b) + at.0;
        let x = msn - window_start(a);
        let y = msn - window_start(b);
        assert(dates_apart(a, x, b, y, tolerance));
        assert(is_on(found[k], a, x, b, y));
    }
    if shows_video(a) && shows_video(b) {
        assert forall|x: int, y: int| #[trigger]
            dates_apart(a, x, b, y, tolerance) implies is_reported(found, a, x, b, y) by {
            let at = number_of(a, x) - overlap_start(a, b);
            assert(rule(at).len() == 1);
            lemma_gathered_holds(n, rule, at, 0);
            let k = choose|k: int| 0 <= k < found.len() && found[k] == rule(at)[0];
            assert(is_on(found[k], a, x, b, y));
        }
    }
}

/// Each segment has at most one warning of each kind: no more warnings are
/// found than there are media sequence numbers in common.
pub proof fn law_one_warning_per_number(a: MediaPlaylist, b: MediaPlaylist, tolerance: Real)
    ensures
        duration_findings(a, b, tolerance).len() <= a.segments@.len(),
        duration_findings(a, b, tolerance).len() <= b.segments@.len(),
        pdt_findings(a, b, tolerance).len() <= a.segments@.len(),
        pdt_findings(a, b, tolerance).len() <= b.segments@.len(),
{
    lemma_at_most_one(overlap_len(a, b), duration_rule(a, b, tolerance));
    lemma_at_most_one(overlap_len(a, b), pdt_rule(a, b, tolerance));
}

/// Positions that give at most one each give at most as many as they are.
proof fn lemma_at_most_one(n: nat, f: spec_fn(int) -> Seq<IssueView>)
    requires
        forall|i: int| 0 <= i < n ==> (#[trigger] f(i)).len() <= 1,
    ensures
        gathered(n, f).len() <= n,
    decreases n,
{
    if n > 0 {
        lemma_at_most_one((n - 1) as nat, f);
        assert(f(n - 1).len() <= 1);
    }
}

/// Each two renditions are compared, the earlier with the later: there is a
/// finding on durations exactly when there is one on some two of them.
pub proof fn law_each_two_drift(playlists: Seq<MediaPlaylist>, tolerance: Real)
    ensures
        duration_drift_findings(playlists, tolerance).len() > 0 <==> exists|i: int, j: int|
            0 <= i < j < playlists.len() && duration_findings(
                #[trigger] playlists[i],
                #[trigger] playlists[j],
                tolerance,
            ).len() > 0,
{
    let n = playlists.len();
    let rows = duration_rows(playlists, tolerance);
    lemma_gathered_none(n, rows);
    if gathered(n, rows).len() > 0 {
        let i = choose|i: int| 0 <= i < n && (#[trigger] rows(i)).len() > 0;
        let row = duration_row(playlists, tolerance, i);
        lemma_gathered_none(n, row);
        let j = choose|j: int| 0 <= j < n && (#[trigger] row(j)).len() > 0;
        assert(duration_findings(playlists[i], playlists[j], tolerance).len() > 0);
    }
    if exists|i: int, j: int|
        0 <= i < j < playlists.len() && duration_findings(
            #[trigger] playlists[i],
            #[trigger] playlists[j],
            tolerance,
        ).len() > 0 {
        let (i, j) = choose|i: int, j: int|
            0 <= i < j < playlists.len() && duration_findings(
                #[trigger] playlists[i],
                #[trigger] playlists[j],
                tolerance,
            ).len() > 0;
        let row = duration_row(playlists, tolerance, i);
        lemma_gathered_none(n, row);
        assert(row(j).len() > 0);
        assert(rows(i).len() > 0);
    }
}

/// Each two renditions are compared, the earlier with the later: there is a
/// finding on dates exactly when there is one on some two of them.
pub proof fn law_each_two_are_misaligned(playlists: Seq<MediaPlaylist>, tolerance: Real)
    ensures
        pdt_alignment_findings(playlists, tolerance).len() > 0 <==> exists|i: int, j: int|
            0 <= i < j < playlists.len() && pdt_findings(
                #[trigger] playlists[i],
                #[trigger] playlists[j],
                tolerance,
            ).len() > 0,
{
    let n = playlists.len();
    let rows = pdt_rows(playlists, tolerance);
    lemma_gathered_none(n, rows);
    if gathered(n, rows).len() > 0 {
        let i = choose|i: int| 0 <= i < n && (#[trigger] rows(i)).len() > 0;
        let row = pdt_row(playlists, tolerance, i);
        lemma_gathered_none(n, row);
        let j = choose|j: int| 0 <= j < n && (#[trigger] row(j)).len() > 0;
        assert(pdt_findings(playlists[i], playlists[j], tolerance).len() > 0);
    }
    if exists|i: int, j: int|
        0 <= i < j < playlists.len() && pdt_findings(
            #[trigger] playlists[i],
            #[trigger] playlists[j],
            tolerance,
        ).len() > 0 {
        let (i, j) = choose|i: int, j: int|
            0 <= i < j < playlists.len() && pdt_findings(
                #[trigger] playlists[i],
                #[trigger] playlists[j],
                tolerance,
            ).len() > 0;
        let row = pdt_row(playlists, tolerance, i);
        lemma_gathered_none(n, row);
        assert(row(j).len() > 0);
        assert(rows(i).len() > 0);
    }
}

/// Two renditions alone have the findings on each other.
pub proof fn law_two_renditions(a: MediaPlaylist, b: MediaPlaylist, tolerance: Real)
    ensures
        duration_drift_findings(seq![a, b], tolerance) == duration_findings(a, b, tolerance),
        pdt_alignment_findings(seq![a, b], tolerance) == pdt_findings(a, b, tolerance),
{
    let two = seq![a, b];
    let f = duration_rows(two, tolerance);
    let g = pdt_rows(two, tolerance);
    lemma_one_pair(
        f,
        duration_row(two, tolerance, 0),
        duration_row(two, tolerance, 1),
        duration_findings(a, b, tolerance),
    );
    lemma_one_pair(
        g,
        pdt_row(two, tolerance, 0),
        pdt_row(two, tolerance, 1),
        pdt_findings(a, b, tolerance),
    );
}

/// Of two positions only the first gives something, for the second.
proof fn lemma_one_pair(
    rows: spec_fn(int) -> Seq<IssueView>,
    first: spec_fn(int) -> Seq<IssueView>,
    second: spec_fn(int) -> Seq<IssueView>,
    found: Seq<IssueView>,
)
    requires
        rows(0) == gathered(2, first),
        rows(1) == gathered(2, second),
        first(0).len() == 0,
        first(1) == found,
        second(0).len() == 0,
        second(1).len() == 0,
    ensures
        gathered(2, rows) == found,
{
    lemma_two(rows);
    lemma_two(first);
    lemma_two(second);
    assert(first(0) + first(1) =~= found);
    assert(rows(0) + rows(1) =~= found);
}

/// Two positions give what the first gives and what the second gives.
proof fn lemma_two(f: spec_fn(int) -> Seq<IssueView>)
    ensures
        gathered(2, f) == f(0) + f(1),
{
    assert(gathered(0, f) =~= Seq::<IssueView>::empty());
    assert(gathered(1, f) =~= f(0));
}

/// The total of a rendition is the sum of the durations of its segments, the
/// first one included, wherever it starts: the total of one segment is its
/// duration, and one segment more adds its duration.
pub proof fn law_totals_add_up(pl: MediaPlaylist, m: int, n: int)
    requires
        number_of(pl, 0) <= m <= n < number_of(pl, pl.segments@.len() as int),
    ensures
        total_between(pl, m, m + 1) == pl.segments@[m - number_of(pl, 0)].duration@,
        total_between(pl, m, n + 1) == plus(
            total_between(pl, m, n),
            pl.segments@[n - number_of(pl, 0)].duration@,
        ),
{
    let s = pl.segments@;
    let from = m - window_start(pl);
    let to = n - window_start(pl);
    assert(s.subrange(from, to + 1).drop_last() =~= s.subrange(from, to));
    let one = s.subrange(from, from + 1);
    let none = Seq::<crate::types::Segment>::empty();
    assert(one.drop_last() =~= none);
    assert(total(none) == Real::Finite(true, 0));
    assert(total(one) == plus(total(one.drop_last()), one.last().duration@));
    lemma_added_to_zero(s[from].duration);
}

/// The media sequence numbers from `start` to before `end` are those that
/// every video rendition lists.
pub open spec fn is_common(playlists: Seq<MediaPlaylist>, start: int, end: int) -> bool {
    &&& forall|i: int|
        0 <= i < playlists.len() && shows_video(#[trigger] playlists[i]) ==> number_of(
            playlists[i],
            0,
        ) <= start && end <= number_of(playlists[i], playlists[i].segments@.len() as int)
    &&& exists|i: int|
        0 <= i < playlists.len() && shows_video(#[trigger] playlists[i]) && number_of(
            playlists[i],
            0,
        ) == start
    &&& exists|i: int|
        0 <= i < playlists.len() && shows_video(#[trigger] playlists[i]) && number_of(
            playlists[i],
            playlists[i].segments@.len() as int,
        ) == end
}

/// The common window starts where one of the renditions does.
proof fn lemma_common_start_attained(pls: Seq<MediaPlaylist>)
    requires
        pls.len() > 0,
    ensures
        exists|k: int| 0 <= k < pls.len() && window_start(#[trigger] pls[k]) == common_start(pls),
    decreases pls.len(),
{
    let rest = pls.drop_last();
    let last = pls.len() - 1;
    assert(pls[last] == pls.last());
    if rest.len() > 0 {
        lemma_common_start_attained(rest);
        let k = choose|k: int|
            0 <= k < rest.len() && window_start(#[trigger] rest[k]) == common_start(rest);
        assert(window_start(pls[k]) == common_start(rest));
        assert(window_start(pls[last]) == window_start(pls.last()));
    } else {
        assert(common_start(rest) == 0);
        assert(window_start(pls[last]) == common_start(pls));
    }
}

/// The common window ends where one of the renditions does.
proof fn lemma_common_end_attained(pls: Seq<MediaPlaylist>)
    requires
        pls.len() > 0,
        forall|k: int| 0 <= k < pls.len() ==> window_end(#[trigger] pls[k]) <= u64::MAX,
    ensures
        exists|k: int| 0 <= k < pls.len() && window_end(#[trigger] pls[k]) == common_end(pls),
    decreases pls.len(),
{
    let rest = pls.drop_last();
    let last = pls.len() - 1;
    assert(pls[last] == pls.last());
    if rest.len() > 0 {
        assert forall|k: int| 0 <= k < rest.len() implies window_end(#[trigger] rest[k])
            <= u64::MAX by {
            assert(rest[k] == pls[k]);
        }
        lemma_common_end_attained(rest);
        let k = choose|k: int|
            0 <= k < rest.len() && window_end(#[trigger] rest[k]) == common_end(rest);
        assert(window_end(pls[k]) == common_end(rest));
        assert(window_end(pls[last]) == window_end(pls.last()));
    } else {
        assert(common_end(rest) == u64::MAX);
        assert(window_end(pls[last]) <= u64::MAX);
    }
}

/// Whether two of the playlists are video renditions.
pub open spec fn two_videos(playlists: Seq<MediaPlaylist>) -> bool {
    exists|i: int, j: int|
        0 <= i < j < playlists.len() && shows_video(#[trigger] playlists[i]) && shows_video(
            #[trigger] playlists[j],
        )
}

/// Two video renditions are found where there are two.
proof fn lemma_two_videos(playlists: Seq<MediaPlaylist>)
    ensures
        videos(playlists).len() >= 2 <==> two_videos(playlists),
{
    let p = video_at(playlists);
    let m = picked(playlists.len(), p);
    lemma_picked(playlists.len(), p);
    if m.len() >= 2 {
        assert(p(m[0]) && p(m[1]) && m[0] < m[1]);
        assert(shows_video(playlists[m[0]]) && shows_video(playlists[m[1]]));
    }
    if two_videos(playlists) {
        let (i, j) = choose|i: int, j: int|
            0 <= i < j < playlists.len() && shows_video(#[trigger] playlists[i]) && shows_video(
                #[trigger] playlists[j],
            );
        assert(p(i) && p(j));
        assert(m.contains(i) && m.contains(j));
    }
}

/// Video renditions have one warning exactly when there are media sequence
/// numbers that all of them list, and over these the totals of two of them
/// differ by more than the tolerance. One rendition alone has none.
pub proof fn law_drifting_totals(
    playlists: Seq<MediaPlaylist>,
    start: int,
    end: int,
    tolerance: Real,
)
    requires
        windows_fit(playlists),
        is_common(playlists, start, end),
    ensures
        total_findings(videos(playlists), tolerance).len() == one_if(
            start < end && two_videos(playlists) && exists|i: int, j: int|
                0 <= i < playlists.len() && 0 <= j < playlists.len() && shows_video(
                    #[trigger] playlists[i],
                ) && shows_video(#[trigger] playlists[j]) && less(
                    tolerance,
                    minus(
                        total_between(playlists[i], start, end),
                        total_between(playlists[j], start, end),
                    ),
                ),
        ),
        forall|k: int|
            0 <= k < total_findings(videos(playlists), tolerance).len() ==> (
            #[trigger] total_findings(videos(playlists), tolerance)[k]).severity == Severity::Warn,
{
    let pls = videos(playlists);
    let p = video_at(playlists);
    let m = picked(playlists.len(), p);
    lemma_picked(playlists.len(), p);
    lemma_two_videos(playlists);
    law_total_drift_is_found(pls, tolerance);
    assert(forall|k: int| 0 <= k < m.len() ==> pls[k] == playlists[m[k]] && p(m[k]));
    let first = choose|i: int|
        0 <= i < playlists.len() && shows_video(#[trigger] playlists[i]) && number_of(
            playlists[i],
            0,
        ) == start;
    let last = choose|i: int|
        0 <= i < playlists.len() && shows_video(#[trigger] playlists[i]) && number_of(
            playlists[i],
            playlists[i].segments@.len() as int,
        ) == end;
    assert(p(first) && p(last));
    assert(m.contains(first) && m.contains(last));
    let f = choose|k: int| 0 <= k < m.len() && m[k] == first;
    let l = choose|k: int| 0 <= k < m.len() && m[k] == last;
    if pls.len() >= 2 {
        assert forall|k: int| 0 <= k < pls.len() implies window_end(#[trigger] pls[k])
            <= u64::MAX by {
            let o = if k == 0 {
                1int
            } else {
                0int
            };
            assert(is_video(playlists[m[k]]) && is_video(playlists[m[o]]));
            if k < o {
                assert(m[k] < m[o]);
            } else {
                assert(m[o] < m[k]);
            }
        }
        lemma_common_start_attained(pls);
        lemma_common_end_attained(pls);
        lemma_common_window(pls, f);
        lemma_common_window(pls, l);
        let s = choose|k: int|
            0 <= k < pls.len() && window_start(#[trigger] pls[k]) == common_start(pls);
        let e = choose|k: int|
            0 <= k < pls.len() && window_end(#[trigger] pls[k]) == common_end(pls);
        assert(shows_video(playlists[m[s]]) && shows_video(playlists[m[e]]));
        assert(common_start(pls) == start && common_end(pls) == end);
        let sums = totals(pls);
        assert forall|k: int| 0 <= k < pls.len() implies #[trigger] sums[k] == total_between(
            playlists[m[k]],
            start,
            end,
        ) by {}
        if total_findings(pls, tolerance).len() > 0 {
            let (x, y) = choose|i: int, j: int|
                0 <= i < pls.len() && 0 <= j < pls.len() && less(
                    tolerance,
                    minus(#[trigger] totals(pls)[i], #[trigger] totals(pls)[j]),
                );
            assert(shows_video(playlists[m[x]]) && shows_video(playlists[m[y]]));
        }
        assert forall|i: int, j: int|
            0 <= i < playlists.len() && 0 <= j < playlists.len() && shows_video(
                #[trigger] playlists[i],
            ) && shows_video(#[trigger] playlists[j]) && less(
                tolerance,
                minus(
                    total_between(playlists[i], start, end),
                    total_between(playlists[j], start, end),
                ),
            ) implies exists|x: int, y: int|
            0 <= x < pls.len() && 0 <= y < pls.len() && less(
                tolerance,
                minus(#[trigger] totals(pls)[x], #[trigger] totals(pls)[y]),
            ) by {
            assert(p(i) && p(j));
            assert(m.contains(i) && m.contains(j));
            let x = choose|x: int| 0 <= x < m.len() && m[x] == i;
            let y = choose|y: int| 0 <= y < m.len() && m[y] == j;
            assert(less(tolerance, minus(totals(pls)[x], totals(pls)[y])));
        }
    }
}

/// The numbers are in range exactly when no two video renditions have one that
/// runs past the greatest number.
pub proof fn law_windows_fit(playlists: Seq<MediaPlaylist>)
    ensures
        windows_fit(playlists) <==> !exists|i: int, j: int|
            0 <= i < playlists.len() && 0 <= j < playlists.len() && i != j && shows_video(
                #[trigger] playlists[i],
            ) && shows_video(#[trigger] playlists[j]) && number_of(
                playlists[i],
                playlists[i].segments@.len() as int,
            ) > u64::MAX,
{
    if windows_fit(playlists) {
        assert forall|i: int, j: int|
            0 <= i < playlists.len() && 0 <= j < playlists.len() && i != j && shows_video(
                #[trigger] playlists[i],
            ) && shows_video(#[trigger] playlists[j]) implies number_of(
            playlists[i],
            playlists[i].segments@.len() as int,
        ) <= u64::MAX by {
            assert(is_video(playlists[i]) && is_video(playlists[j]));
            assert(i < j || j < i);
        }
    } else {
        let (i, j) = choose|i: int, j: int|
            0 <= i < j < playlists.len() && is_video(#[trigger] playlists[i]) && is_video(
                #[trigger] playlists[j],
            ) && !(crate::checks::drift::window_fits(playlists[i])
                && crate::checks::drift::window_fits(playlists[j]));
        assert(shows_video(playlists[i]) && shows_video(playlists[j]));
    }
}

/// Two playlists list a media sequence number together exactly when it is that
/// of a segment of each; the first such number is where they overlap.
pub proof fn law_overlap_by_number(a: MediaPlaylist, b: MediaPlaylist, x: int, y: int)
    requires
        0 <= x < a.segments@.len(),
        0 <= y < b.segments@.len(),
    ensures
        segment_at(a, number_of(a, x)) == a.segments@[x],
        number_of(a, x) == number_of(b, y) ==> 0 <= number_of(a, x) - overlap_start(a, b)
            < overlap_len(a, b),
        0 <= number_of(a, x) - overlap_start(a, b) < overlap_len(a, b) ==> number_of(b, 0)
            <= number_of(a, x) < number_of(b, b.segments@.len() as int),
        overlap_start(a, b) == number_of(a, 0) || overlap_start(a, b) == number_of(b, 0),
        overlap_len(a, b) <= a.segments@.len(),
{
}

/// The warnings on two video renditions come in the order of the media sequence
/// numbers that both list, one for each number whose segments differ.
pub proof fn law_warnings_by_number(
    a: MediaPlaylist,
    b: MediaPlaylist,
    x: int,
    y: int,
    tolerance: Real,
)
    requires
        shows_video(a),
        shows_video(b),
        stand_for(a, x, b, y),
    ensures
        ({
            let n = overlap_len(a, b);
            let k = number_of(a, x) - overlap_start(a, b);
            &&& duration_findings(a, b, tolerance) == gathered(n, duration_rule(a, b, tolerance))
            &&& pdt_findings(a, b, tolerance) == gathered(n, pdt_rule(a, b, tolerance))
            &&& duration_rule(a, b, tolerance)(k).len() == one_if(
                durations_differ(a, x, b, y, tolerance),
            )
            &&& pdt_rule(a, b, tolerance)(k).len() == one_if(dates_apart(a, x, b, y, tolerance))
        }),
{
}

/// The renditions are compared in the order of the list, each with all that
/// follow it.
pub proof fn law_pairs_in_order(playlists: Seq<MediaPlaylist>, tolerance: Real)
    ensures
        duration_drift_findings(playlists, tolerance) == gathered(
            playlists.len(),
            |i: int|
                gathered(
                    playlists.len(),
                    |j: int|
                        if j > i {
                            duration_findings(playlists[i], playlists[j], tolerance)
                        } else {
                            Seq::<IssueView>::empty()
                        },
                ),
        ),
        pdt_alignment_findings(playlists, tolerance) == gathered(
            playlists.len(),
            |i: int|
                gathered(
                    playlists.len(),
                    |j: int|
                        if j > i {
                            pdt_findings(playlists[i], playlists[j], tolerance)
                        } else {
                            Seq::<IssueView>::empty()
                        },
                ),
        ),
{
    let n = playlists.len();
    let f = |i: int|
        gathered(
            n,
            |j: int|
                if j > i {
                    duration_findings(playlists[i], playlists[j], tolerance)
                } else {
                    Seq::<IssueView>::empty()
                },
        );
    let g = |i: int|
        gathered(
            n,
            |j: int|
                if j > i {
                    pdt_findings(playlists[i], playlists[j], tolerance)
                } else {
                    Seq::<IssueView>::empty()
                },
        );
    assert forall|i: int| 0 <= i < n implies #[trigger] duration_rows(playlists, tolerance)(i) == f(
        i,
    ) by {
        lemma_gathered_same(
            n,
            duration_row(playlists, tolerance, i),
            |j: int|
                if j > i {
                    duration_findings(playlists[i], playlists[j], tolerance)
                } else {
                    Seq::<IssueView>::empty()
                },
        );
    }
    assert forall|i: int| 0 <= i < n implies #[trigger] pdt_rows(playlists, tolerance)(i) == g(
        i,
    ) by {
        lemma_gathered_same(
            n,
            pdt_row(playlists, tolerance, i),
            |j: int|
                if j > i {
                    pdt_findings(playlists[i], playlists[j], tolerance)
                } else {
                    Seq::<IssueView>::empty()
                },
        );
    }
    lemma_gathered_same(n, duration_rows(playlists, tolerance), f);
    lemma_gathered_same(n, pdt_rows(playlists, tolerance), g);
}

} // verus!
