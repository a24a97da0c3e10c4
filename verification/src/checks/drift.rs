//! Renditions of the same video, compared segment by segment.
use crate::gather::{
    all_raised_by, gathered, lemma_gathered_raised_by, lemma_picked, picked, positions,
};
use crate::double::{
    absolute, fixed, greater_of, less, lesser_of, minus, plus, quotient, thousand, Double, Real,
    INFINITY, SIGN, THOUSAND,
};
use crate::text::{add_text, decimal, join, joined, number, same_text, texts};
use crate::types::{
    findings, named, produced_by, report, CheckId, Issue, IssueView, MediaPlaylist, Segment,
    Severity,
};
use vstd::prelude::*;

verus! {

/// The media sequence number of the first segment that the playlist lists.
pub open spec fn window_start(pl: MediaPlaylist) -> int {
    pl.media_sequence + pl.skipped_segments
}

/// The media sequence number after that of the last segment.
pub open spec fn window_end(pl: MediaPlaylist) -> int {
    window_start(pl) + pl.segments@.len()
}

/// Whether the media sequence numbers of the playlist are all in range.
pub open spec fn window_fits(pl: MediaPlaylist) -> bool {
    window_end(pl) <= u64::MAX
}

/// Whether the playlist is compared: only video is, and no I-frame playlists.
/// Audio is cut into segments at other places than video.
pub open spec fn is_video(pl: MediaPlaylist) -> bool {
    pl.media_type@ == "VIDEO"@ && !pl.is_iframe
}

/// Whether the media sequence numbers of the playlists that are compared with
/// others are in range.
pub open spec fn windows_fit(playlists: Seq<MediaPlaylist>) -> bool {
    forall|i: int, j: int|
        0 <= i < j < playlists.len() && is_video(#[trigger] playlists[i]) && is_video(
            #[trigger] playlists[j],
        ) ==> window_fits(playlists[i]) && window_fits(playlists[j])
}

/// The first media sequence number that both playlists list.
pub open spec fn overlap_start(a: MediaPlaylist, b: MediaPlaylist) -> int {
    if window_start(a) >= window_start(b) {
        window_start(a)
    } else {
        window_start(b)
    }
}

/// The media sequence number after the last that both playlists list.
pub open spec fn overlap_end(a: MediaPlaylist, b: MediaPlaylist) -> int {
    if window_end(a) <= window_end(b) {
        window_end(a)
    } else {
        window_end(b)
    }
}

/// How many media sequence numbers both playlists list.
pub open spec fn overlap_len(a: MediaPlaylist, b: MediaPlaylist) -> nat {
    if overlap_start(a, b) < overlap_end(a, b) {
        (overlap_end(a, b) - overlap_start(a, b)) as nat
    } else {
        0
    }
}

/// The segment with the media sequence number `msn`.
pub open spec fn segment_at(pl: MediaPlaylist, msn: int) -> Segment {
    pl.segments@[msn - window_start(pl)]
}

/// The segments that two playlists list under the same media sequence number,
/// with that number.
pub fn overlapping_segments<'a>(pl_a: &'a MediaPlaylist, pl_b: &'a MediaPlaylist) -> (r: Vec<
    (&'a Segment, &'a Segment, u64),
>)
    requires
        window_fits(*pl_a),
        window_fits(*pl_b),
    ensures
        r@.len() == overlap_len(*pl_a, *pl_b),
        forall|k: int|
            0 <= k < r@.len() ==> {
                let msn = overlap_start(*pl_a, *pl_b) + k;
                &&& *(#[trigger] r@[k]).0 == segment_at(*pl_a, msn)
                &&& *r@[k].1 == segment_at(*pl_b, msn)
                &&& r@[k].2 == msn
            },
{
    let mut pairs: Vec<(&Segment, &Segment, u64)> = Vec::new();
    let len_a: usize = pl_a.segments.len();
    let len_b: usize = pl_b.segments.len();
    let start_a: u64 = pl_a.media_sequence + pl_a.skipped_segments;
    let end_a: u64 = start_a + len_a as u64;
    let start_b: u64 = pl_b.media_sequence + pl_b.skipped_segments;
    let end_b: u64 = start_b + len_b as u64;
    let first: u64 = if start_a >= start_b {
        start_a
    } else {
        start_b
    };
    let end: u64 = if end_a <= end_b {
        end_a
    } else {
        end_b
    };
    let mut msn: u64 = first;
    while msn < end
        invariant
            start_a == window_start(*pl_a),
            start_b == window_start(*pl_b),
            len_a == pl_a.segments@.len(),
            len_b == pl_b.segments@.len(),
            first == overlap_start(*pl_a, *pl_b),
            end == overlap_end(*pl_a, *pl_b),
            start_a <= first,
            start_b <= first,
            end <= start_a + len_a,
            end <= start_b + len_b,
            first <= msn,
            first < end ==> msn <= end,
            first >= end ==> msn == first,
            pairs@.len() == msn - first,
            forall|k: int|
                0 <= k < pairs@.len() ==> {
                    let n = first + k;
                    &&& *(#[trigger] pairs@[k]).0 == segment_at(*pl_a, n)
                    &&& *pairs@[k].1 == segment_at(*pl_b, n)
                    &&& pairs@[k].2 == n
                },
        decreases end - msn,
    {
        let index_a: usize = (msn - start_a) as usize;
        let index_b: usize = (msn - start_b) as usize;
        pairs.push((&pl_a.segments[index_a], &pl_b.segments[index_b], msn));
        msn = msn + 1;
    }
    pairs
}

/// The distance between two times.
pub open spec fn distance(x: Real, y: Real) -> Real {
    absolute(minus(x, y))
}

/// A tolerance in milliseconds, in seconds.
pub open spec fn in_seconds(milliseconds: Real) -> Real {
    quotient(milliseconds, thousand())
}

pub open spec fn duration_rule(
    a: MediaPlaylist,
    b: MediaPlaylist,
    tolerance: Real,
) -> spec_fn(int) -> Seq<IssueView> {
    |k: int|
        {
            let msn = overlap_start(a, b) + k;
            let x = segment_at(a, msn);
            let y = segment_at(b, msn);
            let diff = distance(x.duration@, y.duration@);
            if less(tolerance, diff) {
                seq![
                    IssueView::on_pair(
                        msn,
                        (a.name@, b.name@),
                        (x.uri@, y.uri@),
                        "EXTINF drift at MSN "@ + decimal(msn as nat) + ": '"@ + a.name@
                            + "' has "@ + fixed(x.duration@, 3) + "s vs '"@ + b.name@ + "' has "@
                            + fixed(y.duration@, 3) + "s (diff="@ + fixed(diff, 3)
                            + "s, tolerance="@ + fixed(tolerance, 3) + "s)."@,
                    ),
                ]
            } else {
                seq![]
            }
        }
}

/// Segments that stand for each other in two renditions are equally long, up
/// to the tolerance.
pub open spec fn duration_findings(
    a: MediaPlaylist,
    b: MediaPlaylist,
    tolerance: Real,
) -> Seq<IssueView> {
    if is_video(a) && is_video(b) {
        gathered(overlap_len(a, b), duration_rule(a, b, tolerance))
    } else {
        seq![]
    }
}

pub open spec fn duration_row(
    playlists: Seq<MediaPlaylist>,
    tolerance: Real,
    i: int,
) -> spec_fn(int) -> Seq<IssueView> {
    |j: int|
        if i < j {
            duration_findings(playlists[i], playlists[j], tolerance)
        } else {
            seq![]
        }
}

pub open spec fn duration_rows(
    playlists: Seq<MediaPlaylist>,
    tolerance: Real,
) -> spec_fn(int) -> Seq<IssueView> {
    |i: int| gathered(playlists.len(), duration_row(playlists, tolerance, i))
}

/// The findings on the durations of each two renditions.
pub open spec fn duration_drift_findings(
    playlists: Seq<MediaPlaylist>,
    tolerance: Real,
) -> Seq<IssueView> {
    gathered(playlists.len(), duration_rows(playlists, tolerance))
}

pub open spec fn pdt_rule(
    a: MediaPlaylist,
    b: MediaPlaylist,
    tolerance: Real,
) -> spec_fn(int) -> Seq<IssueView> {
    |k: int|
        {
            let msn = overlap_start(a, b) + k;
            let x = segment_at(a, msn);
            let y = segment_at(b, msn);
            match (x.pdt, y.pdt) {
                (Some(s), Some(t)) => {
                    let diff = distance(s@, t@);
                    if less(tolerance, diff) {
                        seq![
                            IssueView::on_pair(
                                msn,
                                (a.name@, b.name@),
                                (x.uri@, y.uri@),
                                "PDT misalignment at MSN "@ + decimal(msn as nat) + ": diff="@
                                    + fixed(diff, 3) + "s (tolerance="@ + fixed(tolerance, 3)
                                    + "s)."@,
                            ),
                        ]
                    } else {
                        seq![]
                    }
                },
                _ => seq![],
            }
        }
}

/// Segments that stand for each other in two renditions begin at the same
/// time, up to the tolerance.
pub open spec fn pdt_findings(
    a: MediaPlaylist,
    b: MediaPlaylist,
    tolerance: Real,
) -> Seq<IssueView> {
    if is_video(a) && is_video(b) {
        gathered(overlap_len(a, b), pdt_rule(a, b, tolerance))
    } else {
        seq![]
    }
}

pub open spec fn pdt_row(
    playlists: Seq<MediaPlaylist>,
    tolerance: Real,
    i: int,
) -> spec_fn(int) -> Seq<IssueView> {
    |j: int|
        if i < j {
            pdt_findings(playlists[i], playlists[j], tolerance)
        } else {
            seq![]
        }
}

pub open spec fn pdt_rows(playlists: Seq<MediaPlaylist>, tolerance: Real) -> spec_fn(int) -> Seq<
    IssueView,
> {
    |i: int| gathered(playlists.len(), pdt_row(playlists, tolerance, i))
}

/// The findings on the program dates of each two renditions.
pub open spec fn pdt_alignment_findings(
    playlists: Seq<MediaPlaylist>,
    tolerance: Real,
) -> Seq<IssueView> {
    gathered(playlists.len(), pdt_rows(playlists, tolerance))
}

/// Whether the playlist is compared.
fn compared(pl: &MediaPlaylist) -> (r: bool)
    ensures
        r == is_video(*pl),
{
    same_text(pl.media_type.as_str(), "VIDEO") && !pl.is_iframe
}

/// Whether the media sequence numbers of the playlist are all in range.
fn fits(pl: &MediaPlaylist) -> (r: bool)
    ensures
        r == window_fits(*pl),
{
    let len: usize = pl.segments.len();
    pl.media_sequence as u128 + pl.skipped_segments as u128 + len as u128 <= u64::MAX as u128
}

/// Whether the media sequence numbers of the playlists that are compared with
/// others are in range.
pub fn windows_in_range(playlists: &[MediaPlaylist]) -> (r: bool)
    ensures
        r == windows_fit(playlists@),
{
    let mut i: usize = 0;
    while i < playlists.len()
        invariant
            i <= playlists.len(),
            forall|k: int, j: int|
                0 <= k < j < playlists.len() && k < i && is_video(#[trigger] playlists@[k])
                    && is_video(#[trigger] playlists@[j]) ==> window_fits(playlists@[k])
                    && window_fits(playlists@[j]),
        decreases playlists.len() - i,
    {
        let mut j: usize = i + 1;
        while j < playlists.len()
            invariant
                i < j <= playlists.len(),
                forall|l: int|
                    i < l < j && is_video(playlists@[i as int]) && is_video(
                        #[trigger] playlists@[l],
                    ) ==> window_fits(playlists@[i as int]) && window_fits(playlists@[l]),
            decreases playlists.len() - j,
        {
            let both = compared(&playlists[i]) && compared(&playlists[j]);
            if both && !(fits(&playlists[i]) && fits(&playlists[j])) {
                return false;
            }
            j = j + 1;
        }
        i = i + 1;
    }
    true
}

/// Compares the durations of two renditions.
fn compare_durations(
    a: &MediaPlaylist,
    b: &MediaPlaylist,
    tolerance: Double,
    issues: &mut Vec<Issue>,
)
    requires
        is_video(*a) && is_video(*b) ==> window_fits(*a) && window_fits(*b),
    ensures
        findings(final(issues)@) == findings(old(issues)@) + duration_findings(
            *a,
            *b,
            tolerance@,
        ),
{
    let ghost before = findings(issues@);
    if !compared(a) || !compared(b) {
        assert(findings(issues@) =~= before + duration_findings(*a, *b, tolerance@));
        return;
    }
    let pairs = overlapping_segments(a, b);
    let ghost rule = duration_rule(*a, *b, tolerance@);
    assert(before + gathered(0, rule) =~= before);
    let mut k: usize = 0;
    while k < pairs.len()
        invariant
            k <= pairs.len(),
            rule == duration_rule(*a, *b, tolerance@),
            forall|n: int|
                0 <= n < pairs@.len() ==> {
                    let msn = overlap_start(*a, *b) + n;
                    &&& *(#[trigger] pairs@[n]).0 == segment_at(*a, msn)
                    &&& *pairs@[n].1 == segment_at(*b, msn)
                    &&& pairs@[n].2 == msn
                },
            findings(issues@) == before + gathered(k as nat, rule),
        decreases pairs.len() - k,
    {
        let (x, y, msn) = pairs[k];
        assert(pairs@[k as int] == (x, y, msn));
        let diff = x.duration.minus(y.duration).absolute();
        if tolerance.less(diff) {
            report(
                issues,
                Issue::on_pair(
                    msn,
                    (a.name.as_str(), b.name.as_str()),
                    (x.uri.as_str(), y.uri.as_str()),
                    "EXTINF drift at MSN ".to_owned().concat(
                        number(msn as u128).as_str(),
                    ).concat(": '").concat(a.name.as_str()).concat("' has ").concat(
                        x.duration.fixed(3).as_str(),
                    ).concat("s vs '").concat(b.name.as_str()).concat("' has ").concat(
                        y.duration.fixed(3).as_str(),
                    ).concat("s (diff=").concat(diff.fixed(3).as_str()).concat(
                        "s, tolerance=",
                    ).concat(tolerance.fixed(3).as_str()).concat("s)."),
                ),
            );
        }
        k = k + 1;
        assert(findings(issues@) =~= before + gathered(k as nat, rule));
    }
}

/// Segments of video renditions with the same media sequence number are
/// equally long, up to the tolerance.
///
/// Only video is compared with video: audio is cut into segments at other
/// places, so a difference between them means nothing.
pub fn check_duration_drift(playlists: &[MediaPlaylist], tolerance_ms: Double) -> (r: Vec<Issue>)
    requires
        windows_fit(playlists@),
    ensures
        findings(r@) == named(
            CheckId::DurationDrift,
            duration_drift_findings(playlists@, in_seconds(tolerance_ms@)),
        ),
        all_raised_by(findings(r@), CheckId::DurationDrift),
{
    let tolerance = tolerance_ms.quotient(Double::from_bits(THOUSAND));
    let ghost rows = duration_rows(playlists@, tolerance@);
    let mut issues: Vec<Issue> = Vec::new();
    let mut i: usize = 0;
    while i < playlists.len()
        invariant
            i <= playlists.len(),
            windows_fit(playlists@),
            rows == duration_rows(playlists@, tolerance@),
            findings(issues@) == gathered(i as nat, rows),
        decreases playlists.len() - i,
    {
        let ghost before = findings(issues@);
        let ghost row = duration_row(playlists@, tolerance@, i as int);
        assert(before + gathered(0, row) =~= before);
        let mut j: usize = 0;
        while j < playlists.len()
            invariant
                i < playlists.len(),
                j <= playlists.len(),
                windows_fit(playlists@),
                row == duration_row(playlists@, tolerance@, i as int),
                findings(issues@) == before + gathered(j as nat, row),
            decreases playlists.len() - j,
        {
            if i < j {
                compare_durations(&playlists[i], &playlists[j], tolerance, &mut issues);
            }
            j = j + 1;
            assert(findings(issues@) =~= before + gathered(j as nat, row));
        }
        i = i + 1;
    }
    proof {
        let id = CheckId::Unassigned;
        assert forall|m: int| 0 <= m < playlists@.len() implies all_raised_by(
            #[trigger] rows(m),
            id,
        ) by {
            let row = duration_row(playlists@, tolerance@, m);
            assert forall|n: int| 0 <= n < playlists@.len() implies all_raised_by(
                #[trigger] row(n),
                id,
            ) by {
                let (a, b) = (playlists@[m], playlists@[n]);
                lemma_gathered_raised_by(
                    overlap_len(a, b),
                    duration_rule(a, b, tolerance@),
                    id,
                );
            }
            lemma_gathered_raised_by(playlists@.len(), row, id);
        }
        lemma_gathered_raised_by(playlists@.len(), rows, id);
    }
    produced_by(CheckId::DurationDrift, issues)
}

/// Compares the program dates of two renditions.
fn compare_dates(
    a: &MediaPlaylist,
    b: &MediaPlaylist,
    tolerance: Double,
    issues: &mut Vec<Issue>,
)
    requires
        is_video(*a) && is_video(*b) ==> window_fits(*a) && window_fits(*b),
    ensures
        findings(final(issues)@) == findings(old(issues)@) + pdt_findings(*a, *b, tolerance@),
{
    let ghost before = findings(issues@);
    if !compared(a) || !compared(b) {
        assert(findings(issues@) =~= before + pdt_findings(*a, *b, tolerance@));
        return;
    }
    let pairs = overlapping_segments(a, b);
    let ghost rule = pdt_rule(*a, *b, tolerance@);
    assert(before + gathered(0, rule) =~= before);
    let mut k: usize = 0;
    while k < pairs.len()
        invariant
            k <= pairs.len(),
            rule == pdt_rule(*a, *b, tolerance@),
            forall|n: int|
                0 <= n < pairs@.len() ==> {
                    let msn = overlap_start(*a, *b) + n;
                    &&& *(#[trigger] pairs@[n]).0 == segment_at(*a, msn)
                    &&& *pairs@[n].1 == segment_at(*b, msn)
                    &&& pairs@[n].2 == msn
                },
            findings(issues@) == before + gathered(k as nat, rule),
        decreases pairs.len() - k,
    {
        let (x, y, msn) = pairs[k];
        assert(pairs@[k as int] == (x, y, msn));
        if let (Some(s), Some(t)) = (x.pdt, y.pdt) {
            let diff = s.minus(t).absolute();
            if tolerance.less(diff) {
                report(
                    issues,
                    Issue::on_pair(
                        msn,
                        (a.name.as_str(), b.name.as_str()),
                        (x.uri.as_str(), y.uri.as_str()),
                        "PDT misalignment at MSN ".to_owned().concat(
                            number(msn as u128).as_str(),
                        ).concat(": diff=").concat(diff.fixed(3).as_str()).concat(
                            "s (tolerance=",
                        ).concat(tolerance.fixed(3).as_str()).concat("s)."),
                    ),
                );
            }
        }
        k = k + 1;
        assert(findings(issues@) =~= before + gathered(k as nat, rule));
    }
}

/// Segments of video renditions with the same media sequence number begin at
/// the same time, up to the tolerance, where both have a program date.
///
/// Only video is compared with video: the dates of audio segments are worked
/// out from durations that differ from those of video.
pub fn check_pdt_alignment(playlists: &[MediaPlaylist], tolerance_ms: Double) -> (r: Vec<Issue>)
    requires
        windows_fit(playlists@),
    ensures
        findings(r@) == named(
            CheckId::PdtAlignment,
            pdt_alignment_findings(playlists@, in_seconds(tolerance_ms@)),
        ),
        all_raised_by(findings(r@), CheckId::PdtAlignment),
{
    let tolerance = tolerance_ms.quotient(Double::from_bits(THOUSAND));
    let ghost rows = pdt_rows(playlists@, tolerance@);
    let mut issues: Vec<Issue> = Vec::new();
    let mut i: usize = 0;
    while i < playlists.len()
        invariant
            i <= playlists.len(),
            windows_fit(playlists@),
            rows == pdt_rows(playlists@, tolerance@),
            findings(issues@) == gathered(i as nat, rows),
        decreases playlists.len() - i,
    {
        let ghost before = findings(issues@);
        let ghost row = pdt_row(playlists@, tolerance@, i as int);
        assert(before + gathered(0, row) =~= before);
        let mut j: usize = 0;
        while j < playlists.len()
            invariant
                i < playlists.len(),
                j <= playlists.len(),
                windows_fit(playlists@),
                row == pdt_row(playlists@, tolerance@, i as int),
                findings(issues@) == before + gathered(j as nat, row),
            decreases playlists.len() - j,
        {
            if i < j {
                compare_dates(&playlists[i], &playlists[j], tolerance, &mut issues);
            }
            j = j + 1;
            assert(findings(issues@) =~= before + gathered(j as nat, row));
        }
        i = i + 1;
    }
    proof {
        let id = CheckId::Unassigned;
        assert forall|m: int| 0 <= m < playlists@.len() implies all_raised_by(
            #[trigger] rows(m),
            id,
        ) by {
            let row = pdt_row(playlists@, tolerance@, m);
            assert forall|n: int| 0 <= n < playlists@.len() implies all_raised_by(
                #[trigger] row(n),
                id,
            ) by {
                let (a, b) = (playlists@[m], playlists@[n]);
                lemma_gathered_raised_by(overlap_len(a, b), pdt_rule(a, b, tolerance@), id);
            }
            lemma_gathered_raised_by(playlists@.len(), row, id);
        }
        lemma_gathered_raised_by(playlists@.len(), rows, id);
    }
    produced_by(CheckId::PdtAlignment, issues)
}

pub open spec fn video_at(playlists: Seq<MediaPlaylist>) -> spec_fn(int) -> bool {
    |i: int| is_video(playlists[i])
}

/// The video renditions.
pub open spec fn videos(playlists: Seq<MediaPlaylist>) -> Seq<MediaPlaylist> {
    picked(playlists.len(), video_at(playlists)).map_values(|i: int| playlists[i])
}

/// The first media sequence number that all renditions list.
pub open spec fn common_start(pls: Seq<MediaPlaylist>) -> int
    decreases pls.len(),
{
    if pls.len() == 0 {
        0
    } else {
        let rest = common_start(pls.drop_last());
        if window_start(pls.last()) > rest {
            window_start(pls.last())
        } else {
            rest
        }
    }
}

/// The media sequence number after the last that all renditions list.
pub open spec fn common_end(pls: Seq<MediaPlaylist>) -> int
    decreases pls.len(),
{
    if pls.len() == 0 {
        u64::MAX as int
    } else {
        let rest = common_end(pls.drop_last());
        if window_end(pls.last()) < rest {
            window_end(pls.last())
        } else {
            rest
        }
    }
}

/// The durations of the segments, added up from the first to the last.
pub open spec fn total(s: Seq<Segment>) -> Real
    decreases s.len(),
{
    if s.len() == 0 {
        Real::Finite(true, 0)
    } else {
        plus(total(s.drop_last()), s.last().duration@)
    }
}

/// The duration of a rendition from one media sequence number to another.
pub open spec fn total_between(pl: MediaPlaylist, from: int, to: int) -> Real {
    total(pl.segments@.subrange(from - window_start(pl), to - window_start(pl)))
}

/// The duration of each rendition over the segments that all of them list.
pub open spec fn totals(pls: Seq<MediaPlaylist>) -> Seq<Real> {
    pls.map_values(|pl: MediaPlaylist| total_between(pl, common_start(pls), common_end(pls)))
}

/// The greatest of some numbers.
pub open spec fn greatest(s: Seq<Real>) -> Real
    decreases s.len(),
{
    if s.len() == 0 {
        Real::Infinite(true)
    } else {
        greater_of(greatest(s.drop_last()), s.last())
    }
}

/// The least of some numbers.
pub open spec fn least(s: Seq<Real>) -> Real
    decreases s.len(),
{
    if s.len() == 0 {
        Real::Infinite(false)
    } else {
        lesser_of(least(s.drop_last()), s.last())
    }
}

/// The names of the renditions with their durations.
pub open spec fn total_details(pls: Seq<MediaPlaylist>, sums: Seq<Real>) -> Seq<Seq<char>> {
    Seq::new(pls.len(), |k: int| pls[k].name@ + "="@ + fixed(sums[k], 3) + "s"@)
}

/// The renditions are equally long over the segments that all of them list, up
/// to the tolerance.
pub open spec fn total_findings(pls: Seq<MediaPlaylist>, tolerance: Real) -> Seq<IssueView> {
    let start = common_start(pls);
    let end = common_end(pls);
    let sums = totals(pls);
    let drift = minus(greatest(sums), least(sums));
    if pls.len() >= 2 && start < end && less(tolerance, drift) {
        seq![
            IssueView::general(
                Severity::Warn,
                "Cumulative EXTINF drift across renditions: "@ + fixed(drift, 3)
                    + "s (tolerance="@ + fixed(tolerance, 3) + "s) over "@ + decimal(
                    (end - start) as nat,
                ) + " common segments (MSN "@ + decimal(start as nat) + "-"@ + decimal(
                    (end - 1) as nat,
                ) + "). Totals: "@ + joined(total_details(pls, sums), ", "@),
            ),
        ]
    } else {
        seq![]
    }
}

/// The common window lies in the window of every rendition.
pub proof fn lemma_common_window(pls: Seq<MediaPlaylist>, k: int)
    requires
        0 <= k < pls.len(),
    ensures
        window_start(pls[k]) <= common_start(pls),
        common_end(pls) <= window_end(pls[k]),
    decreases pls.len(),
{
    if k < pls.len() - 1 {
        lemma_common_window(pls.drop_last(), k);
        assert(pls.drop_last()[k] == pls[k]);
    }
}

/// The duration of a rendition from one media sequence number to another.
fn sum_between(pl: &MediaPlaylist, from: u64, to: u64) -> (r: Double)
    requires
        window_fits(*pl),
        window_start(*pl) <= from < to <= window_end(*pl),
    ensures
        r@ == total_between(*pl, from as int, to as int),
{
    let count: usize = pl.segments.len();
    let start: u64 = pl.media_sequence + pl.skipped_segments;
    assert(to - start <= count);
    let first: usize = (from - start) as usize;
    let end: usize = (to - start) as usize;
    let ghost all = pl.segments@.subrange(first as int, end as int);
    let mut sum = Double::from_bits(SIGN);
    let mut i: usize = first;
    while i < end
        invariant
            first <= i <= end <= pl.segments.len(),
            all == pl.segments@.subrange(first as int, end as int),
            sum@ == total(all.take(i - first)),
        decreases end - i,
    {
        proof {
            assert(all.take(i - first + 1).drop_last() =~= all.take(i - first));
            assert(all.take(i - first + 1).last() == pl.segments@[i as int]);
        }
        sum = sum.plus(pl.segments[i].duration);
        i = i + 1;
    }
    assert(all.take(i - first) =~= all);
    sum
}

/// The playlists at the given positions.
pub open spec fn listed(playlists: Seq<MediaPlaylist>, chosen: Seq<usize>) -> Seq<MediaPlaylist> {
    chosen.map_values(|k: usize| playlists[k as int])
}

/// Whether the positions are those of playlists whose media sequence numbers
/// are in range.
pub open spec fn are_fit(playlists: Seq<MediaPlaylist>, chosen: Seq<usize>) -> bool {
    forall|n: int|
        0 <= n < chosen.len() ==> (#[trigger] chosen[n]) < playlists.len() && window_fits(
            playlists[chosen[n] as int],
        )
}

/// What each number stands for.
pub open spec fn reals(v: Seq<Double>) -> Seq<Real> {
    v.map_values(|x: Double| x@)
}

/// The positions of the video renditions.
fn find_videos(playlists: &[MediaPlaylist]) -> (chosen: Vec<usize>)
    requires
        windows_fit(playlists@),
    ensures
        listed(playlists@, chosen@) == videos(playlists@),
        chosen@.len() >= 2 ==> are_fit(playlists@, chosen@),
{
    let ghost p = video_at(playlists@);
    let mut chosen: Vec<usize> = Vec::new();
    let mut i: usize = 0;
    while i < playlists.len()
        invariant
            i <= playlists.len(),
            p == video_at(playlists@),
            positions(chosen@) == picked(i as nat, p),
        decreases playlists.len() - i,
    {
        if compared(&playlists[i]) {
            let ghost before = positions(chosen@);
            chosen.push(i);
            assert(positions(chosen@) =~= before.push(i as int));
        }
        i = i + 1;
    }
    proof {
        let m = positions(chosen@);
        lemma_picked(playlists@.len(), p);
        assert forall|n: int| 0 <= n < chosen@.len() implies m[n] == chosen@[n] && 0 <= m[n]
            < playlists@.len() && is_video(playlists@[m[n]]) by {
            assert(p(m[n]));
        }
        assert(listed(playlists@, chosen@) =~= videos(playlists@));
        if chosen@.len() >= 2 {
            assert forall|n: int| 0 <= n < chosen@.len() implies (#[trigger] chosen@[n])
                < playlists@.len() && window_fits(playlists@[chosen@[n] as int]) by {
                let other = if n == 0 {
                    1int
                } else {
                    0int
                };
                assert(m[n] == chosen@[n] && m[other] == chosen@[other]);
                assert(m[0] < m[1] && (n > 0 ==> m[0] < m[n]));
                assert(is_video(playlists@[m[n]]) && is_video(playlists@[m[other]]));
            }
        }
    }
    chosen
}

/// The first media sequence number that the renditions at the given positions
/// all list, and the one after the last.
fn find_window(playlists: &[MediaPlaylist], chosen: &Vec<usize>) -> (r: (u64, u64))
    requires
        are_fit(playlists@, chosen@),
    ensures
        r.0 == common_start(listed(playlists@, chosen@)),
        r.1 == common_end(listed(playlists@, chosen@)),
{
    let ghost pls = listed(playlists@, chosen@);
    let mut start: u64 = 0;
    let mut end: u64 = u64::MAX;
    let mut k: usize = 0;
    while k < chosen.len()
        invariant
            k <= chosen.len(),
            are_fit(playlists@, chosen@),
            pls == listed(playlists@, chosen@),
            start == common_start(pls.take(k as int)),
            end == common_end(pls.take(k as int)),
        decreases chosen.len() - k,
    {
        assert(chosen@[k as int] < playlists@.len());
        let pl = &playlists[chosen[k]];
        assert(pls[k as int] == *pl);
        let len: usize = pl.segments.len();
        let first: u64 = pl.media_sequence + pl.skipped_segments;
        let last: u64 = first + len as u64;
        assert(pls.take(k + 1).drop_last() =~= pls.take(k as int));
        if first > start {
            start = first;
        }
        if last < end {
            end = last;
        }
        k = k + 1;
    }
    assert(pls.take(k as int) =~= pls);
    (start, end)
}

/// The duration of each rendition at the given positions over the segments that
/// all of them list.
fn find_totals(playlists: &[MediaPlaylist], chosen: &Vec<usize>, start: u64, end: u64) -> (r: Vec<
    Double,
>)
    requires
        are_fit(playlists@, chosen@),
        start == common_start(listed(playlists@, chosen@)),
        end == common_end(listed(playlists@, chosen@)),
        start < end,
    ensures
        reals(r@) == totals(listed(playlists@, chosen@)),
{
    let ghost pls = listed(playlists@, chosen@);
    let mut sums: Vec<Double> = Vec::new();
    let mut k: usize = 0;
    while k < chosen.len()
        invariant
            k <= chosen.len(),
            are_fit(playlists@, chosen@),
            pls == listed(playlists@, chosen@),
            start == common_start(pls),
            end == common_end(pls),
            start < end,
            reals(sums@) == totals(pls).take(k as int),
        decreases chosen.len() - k,
    {
        assert(chosen@[k as int] < playlists@.len());
        let pl = &playlists[chosen[k]];
        assert(pls[k as int] == *pl);
        proof {
            lemma_common_window(pls, k as int);
        }
        let sum = sum_between(pl, start, end);
        let ghost before = reals(sums@);
        sums.push(sum);
        k = k + 1;
        assert(reals(sums@) =~= before.push(sum@));
        assert(reals(sums@) =~= totals(pls).take(k as int));
    }
    assert(totals(pls).take(k as int) =~= totals(pls));
    sums
}

/// The greatest of some numbers less the least.
fn find_spread(sums: &Vec<Double>) -> (r: Double)
    ensures
        r@ == minus(greatest(reals(sums@)), least(reals(sums@))),
{
    let ghost all = reals(sums@);
    let mut high = Double::from_bits(INFINITY + SIGN);
    let mut low = Double::from_bits(INFINITY);
    let mut k: usize = 0;
    while k < sums.len()
        invariant
            k <= sums.len(),
            all == reals(sums@),
            high@ == greatest(all.take(k as int)),
            low@ == least(all.take(k as int)),
        decreases sums.len() - k,
    {
        assert(all[k as int] == sums@[k as int]@);
        assert(all.take(k + 1).drop_last() =~= all.take(k as int));
        high = high.greater_of(sums[k]);
        low = low.lesser_of(sums[k]);
        k = k + 1;
    }
    assert(all.take(k as int) =~= all);
    high.minus(low)
}

/// The names of the renditions at the given positions with their durations.
fn list_totals(playlists: &[MediaPlaylist], chosen: &Vec<usize>, sums: &Vec<Double>) -> (r: Vec<
    String,
>)
    requires
        are_fit(playlists@, chosen@),
        sums@.len() == chosen@.len(),
    ensures
        texts(r@) == total_details(listed(playlists@, chosen@), reals(sums@)),
{
    let ghost pls = listed(playlists@, chosen@);
    let ghost all = total_details(pls, reals(sums@));
    let mut details: Vec<String> = Vec::new();
    let mut k: usize = 0;
    while k < chosen.len()
        invariant
            k <= chosen.len(),
            are_fit(playlists@, chosen@),
            sums@.len() == chosen@.len(),
            pls == listed(playlists@, chosen@),
            all == total_details(pls, reals(sums@)),
            texts(details@) == all.take(k as int),
        decreases chosen.len() - k,
    {
        assert(chosen@[k as int] < playlists@.len());
        let pl = &playlists[chosen[k]];
        assert(pls[k as int] == *pl);
        assert(reals(sums@)[k as int] == sums@[k as int]@);
        add_text(
            &mut details,
            pl.name.as_str().to_owned().concat("=").concat(sums[k].fixed(3).as_str()).concat("s"),
        );
        k = k + 1;
        assert(texts(details@) =~= all.take(k as int));
    }
    assert(all.take(k as int) =~= all);
    details
}

/// The video renditions together are equally long over the segments that all
/// of them list, up to the tolerance.
///
/// The renditions of a live presentation are fetched one after another, and
/// one of them may list a segment more than another. Segments that some
/// rendition does not list are left out, so that this is no drift.
pub fn check_cumulative_drift(playlists: &[MediaPlaylist], tolerance_ms: Double) -> (r: Vec<Issue>)
    requires
        windows_fit(playlists@),
    ensures
        findings(r@) == named(
            CheckId::CumulativeDrift,
            total_findings(videos(playlists@), in_seconds(tolerance_ms@)),
        ),
        all_raised_by(findings(r@), CheckId::CumulativeDrift),
{
    let tolerance = tolerance_ms.quotient(Double::from_bits(THOUSAND));
    let mut issues: Vec<Issue> = Vec::new();
    let ghost pls = videos(playlists@);
    let chosen = find_videos(playlists);
    assert(findings(issues@) =~= Seq::<IssueView>::empty());
    assert(pls.len() == chosen@.len());
    if chosen.len() < 2 {
        return issues;
    }
    let (start, end) = find_window(playlists, &chosen);
    if start >= end {
        return issues;
    }
    let sums = find_totals(playlists, &chosen, start, end);
    assert(sums@.len() == reals(sums@).len());
    let drift = find_spread(&sums);
    if tolerance.less(drift) {
        let details = list_totals(playlists, &chosen, &sums);
        report(
            &mut issues,
            Issue::warn(
                "Cumulative EXTINF drift across renditions: ".to_owned().concat(
                    drift.fixed(3).as_str(),
                ).concat("s (tolerance=").concat(tolerance.fixed(3).as_str()).concat(
                    "s) over ",
                ).concat(number((end - start) as u128).as_str()).concat(
                    " common segments (MSN ",
                ).concat(number(start as u128).as_str()).concat("-").concat(
                    number((end - 1) as u128).as_str(),
                ).concat("). Totals: ").concat(join(details.as_slice(), ", ").as_str()),
            ),
        );
    }
    assert(findings(issues@) =~= total_findings(pls, tolerance@));
    produced_by(CheckId::CumulativeDrift, issues)
}

} // verus!
