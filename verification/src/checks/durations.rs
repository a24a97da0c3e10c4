//! Target durations.
use crate::gather::{all_raised_by, gathered, lemma_gathered_raised_by, picked};
use crate::double::{fixed, greater_of, less, rounded, whole, zero, Double, Real};
use crate::text::{add_text, decimal, is_text, join, joined, number, optional, texts};
use crate::types::{
    findings, named, produced_by, report, CheckId, Issue, IssueView, MediaPlaylist, Segment,
    Severity,
};
use vstd::prelude::*;

verus! {

pub open spec fn long_rule(pl: MediaPlaylist) -> spec_fn(int) -> Seq<IssueView> {
    |i: int|
        {
            let seg = pl.segments@[i];
            let target = whole(pl.target_duration@);
            if rounded(seg.duration@) > target {
                seq![
                    IssueView::on_segment(
                        Severity::Error,
                        i,
                        pl.name@,
                        seg.uri@,
                        "rfc8216bis §4.4.3.1: Segment "@ + decimal(i as nat) + " in '"@ + pl.name@
                            + "' duration "@ + fixed(seg.duration@, 6) + "s (round="@ + decimal(
                            rounded(seg.duration@),
                        ) + "s) exceeds TARGETDURATION "@ + decimal(target) + "s."@,
                    ),
                ]
            } else {
                seq![]
            }
        }
}

/// The duration of the longest segment.
pub open spec fn longest(s: Seq<Segment>) -> Real
    decreases s.len(),
{
    if s.len() <= 1 {
        s[0].duration@
    } else {
        greater_of(longest(s.drop_last()), s.last().duration@)
    }
}

/// Whether a target duration is missing: it is zero or below.
pub open spec fn is_missing(target: Real) -> bool {
    !(target is Nan) && !less(zero(), target)
}

/// Whether one second more than the longest segment, rounded, is in range.
pub open spec fn longest_fits(pl: MediaPlaylist) -> bool {
    !is_missing(pl.target_duration@) && pl.segments@.len() > 0 ==> rounded(
        longest(pl.segments@),
    ) < u64::MAX
}

/// Whether one second more than the longest segment is in range in every
/// playlist.
pub open spec fn durations_fit(playlists: Seq<MediaPlaylist>) -> bool {
    forall|i: int| 0 <= i < playlists.len() ==> longest_fits(#[trigger] playlists[i])
}

/// The target duration is not more than a second above the longest segment.
pub open spec fn slack_findings(pl: MediaPlaylist) -> Seq<IssueView> {
    let most = longest(pl.segments@);
    let target = whole(pl.target_duration@);
    if pl.segments@.len() > 0 && target > rounded(most) + 1 {
        seq![
            IssueView::on_rendition(
                Severity::Warn,
                pl.name@,
                "rfc8216bis §4.4.3.1: TARGETDURATION="@ + decimal(target) + "s in '"@ + pl.name@
                    + "' is more than 1s above the longest segment (longest="@ + fixed(most, 6)
                    + "s, round="@ + decimal(rounded(most))
                    + "s). Consider reducing TARGETDURATION for accuracy."@,
            ),
        ]
    } else {
        seq![]
    }
}

/// A playlist declares a target duration, no segment rounds to more than it,
/// and it is not far above the longest of them.
pub open spec fn compliance_findings(pl: MediaPlaylist) -> Seq<IssueView> {
    if is_missing(pl.target_duration@) {
        seq![
            IssueView::on_rendition(
                Severity::Error,
                pl.name@,
                "rfc8216bis §4.4.3.1: EXT-X-TARGETDURATION missing or zero in '"@ + pl.name@
                    + "'. Every Media Playlist MUST declare a positive TARGETDURATION."@,
            ),
        ]
    } else {
        gathered(pl.segments@.len(), long_rule(pl)) + slack_findings(pl)
    }
}

pub open spec fn compliance_rule(playlists: Seq<MediaPlaylist>) -> spec_fn(int) -> Seq<
    IssueView,
> {
    |i: int| compliance_findings(playlists[i])
}

/// The duration of the longest segment.
fn find_longest(s: &Vec<Segment>) -> (r: Double)
    requires
        s@.len() > 0,
    ensures
        r@ == longest(s@),
{
    let mut most = s[0].duration;
    let mut i: usize = 1;
    while i < s.len()
        invariant
            1 <= i <= s.len(),
            most@ == longest(s@.take(i as int)),
        decreases s.len() - i,
    {
        assert(s@.take(i + 1).drop_last() =~= s@.take(i as int));
        most = most.greater_of(s[i].duration);
        i = i + 1;
    }
    assert(s@.take(i as int) =~= s@);
    most
}

/// Whether the target duration of a playlist is missing.
fn lacks_target(pl: &MediaPlaylist) -> (r: bool)
    ensures
        r == is_missing(pl.target_duration@),
{
    !pl.target_duration.is_nan() && !pl.target_duration.is_positive()
}

/// Whether one second more than the longest segment is in range in every
/// playlist.
pub fn durations_in_range(playlists: &[MediaPlaylist]) -> (r: bool)
    ensures
        r == durations_fit(playlists@),
{
    let mut i: usize = 0;
    while i < playlists.len()
        invariant
            i <= playlists.len(),
            forall|k: int| 0 <= k < i ==> longest_fits(#[trigger] playlists@[k]),
        decreases playlists.len() - i,
    {
        let pl = &playlists[i];
        if !lacks_target(pl) && pl.segments.len() > 0 && find_longest(&pl.segments).rounded()
            == u64::MAX {
            assert(!longest_fits(playlists@[i as int]));
            return false;
        }
        i = i + 1;
    }
    true
}

/// Checks the target duration of one playlist.
fn check_target(pl: &MediaPlaylist, issues: &mut Vec<Issue>)
    requires
        longest_fits(*pl),
    ensures
        findings(final(issues)@) == findings(old(issues)@) + compliance_findings(*pl),
{
    let ghost before = findings(issues@);
    if lacks_target(pl) {
        report(
            issues,
            Issue::on_rendition(
                Severity::Error,
                pl.name.as_str(),
                "rfc8216bis §4.4.3.1: EXT-X-TARGETDURATION missing or zero in '".to_owned().concat(
                    pl.name.as_str(),
                ).concat("'. Every Media Playlist MUST declare a positive TARGETDURATION."),
            ),
        );
        return;
    }
    let target = pl.target_duration.whole();
    let mut i: usize = 0;
    assert(before + gathered(0, long_rule(*pl)) =~= before);
    while i < pl.segments.len()
        invariant
            i <= pl.segments.len(),
            target == whole(pl.target_duration@),
            findings(issues@) == before + gathered(i as nat, long_rule(*pl)),
        decreases pl.segments.len() - i,
    {
        let seg = &pl.segments[i];
        let nearest = seg.duration.rounded();
        if nearest > target {
            report(
                issues,
                Issue::on_segment(
                    Severity::Error,
                    i,
                    pl.name.as_str(),
                    seg.uri.as_str(),
                    "rfc8216bis §4.4.3.1: Segment ".to_owned().concat(
                        number(i as u128).as_str(),
                    ).concat(" in '").concat(pl.name.as_str()).concat("' duration ").concat(
                        seg.duration.fixed(6).as_str(),
                    ).concat("s (round=").concat(number(nearest as u128).as_str()).concat(
                        "s) exceeds TARGETDURATION ",
                    ).concat(number(target as u128).as_str()).concat("s."),
                ),
            );
        }
        i = i + 1;
    }
    if pl.segments.len() > 0 {
        let most = find_longest(&pl.segments);
        let nearest = most.rounded();
        if target > nearest + 1 {
            report(
                issues,
                Issue::on_rendition(
                    Severity::Warn,
                    pl.name.as_str(),
                    "rfc8216bis §4.4.3.1: TARGETDURATION=".to_owned().concat(
                        number(target as u128).as_str(),
                    ).concat("s in '").concat(pl.name.as_str()).concat(
                        "' is more than 1s above the longest segment (longest=",
                    ).concat(most.fixed(6).as_str()).concat("s, round=").concat(
                        number(nearest as u128).as_str(),
                    ).concat("s). Consider reducing TARGETDURATION for accuracy."),
                ),
            );
        }
    }
}

/// Every playlist declares a positive target duration, no segment is longer
/// when rounded to the nearest second, and a target duration more than a second
/// above the longest segment is worth a warning.
pub fn check_target_duration_compliance(playlists: &[MediaPlaylist]) -> (r: Vec<Issue>)
    requires
        durations_fit(playlists@),
    ensures
        findings(r@) == named(
            CheckId::TargetDurationCompliance,
            gathered(playlists@.len(), compliance_rule(playlists@)),
        ),
        all_raised_by(findings(r@), CheckId::TargetDurationCompliance),
{
    let mut issues: Vec<Issue> = Vec::new();
    let mut i: usize = 0;
    while i < playlists.len()
        invariant
            i <= playlists.len(),
            durations_fit(playlists@),
            findings(issues@) == gathered(i as nat, compliance_rule(playlists@)),
        decreases playlists.len() - i,
    {
        check_target(&playlists[i], &mut issues);
        i = i + 1;
    }
    proof {
        let id = CheckId::Unassigned;
        assert forall|k: int| 0 <= k < playlists@.len() implies all_raised_by(
            #[trigger] compliance_rule(playlists@)(k),
            id,
        ) by {
            let pl = playlists@[k];
            lemma_gathered_raised_by(pl.segments@.len(), long_rule(pl), id);
        }
        lemma_gathered_raised_by(playlists@.len(), compliance_rule(playlists@), id);
    }
    produced_by(CheckId::TargetDurationCompliance, issues)
}

/// Whether the playlist is an I-frame playlist of a finished presentation.
/// Such a playlist may have a target duration of its own.
pub open spec fn is_vod_iframe(pl: MediaPlaylist) -> bool {
    (pl.iframes_only || pl.is_iframe) && optional(pl.playlist_type) == Some("VOD"@)
}

/// Whether the target duration of the playlist is compared with the others.
pub open spec fn is_comparable(pl: MediaPlaylist) -> bool {
    less(zero(), pl.target_duration@) && !is_vod_iframe(pl)
}

pub open spec fn comparable_at(playlists: Seq<MediaPlaylist>) -> spec_fn(int) -> bool {
    |i: int| is_comparable(playlists[i])
}

/// The playlists whose target durations are compared.
pub open spec fn comparable(playlists: Seq<MediaPlaylist>) -> Seq<MediaPlaylist> {
    picked(playlists.len(), comparable_at(playlists)).map_values(|i: int| playlists[i])
}

/// The target durations of the playlists, in whole seconds.
pub open spec fn targets(pls: Seq<MediaPlaylist>) -> Seq<nat> {
    pls.map_values(|pl: MediaPlaylist| whole(pl.target_duration@))
}

/// The names of the playlists with their target durations.
pub open spec fn target_details(pls: Seq<MediaPlaylist>) -> Seq<Seq<char>> {
    pls.map_values(
        |pl: MediaPlaylist| pl.name@ + "="@ + fixed(pl.target_duration@, 0) + "s"@,
    )
}

/// The playlists have the same target duration.
pub open spec fn target_findings(pls: Seq<MediaPlaylist>) -> Seq<IssueView> {
    let distinct = targets(pls).to_set().len();
    if distinct > 1 {
        seq![
            IssueView::general(
                Severity::Error,
                "rfc8216bis §6.2.4: EXT-X-TARGETDURATION values differ across renditions ("@
                    + decimal(distinct)
                    + " distinct values). Every Media Playlist of a presentation MUST declare the same TARGETDURATION, apart from I-frame playlists with PLAYLIST-TYPE:VOD, which are excluded here. Details: "@
                    + joined(target_details(pls), ", "@),
            ),
        ]
    } else {
        seq![]
    }
}

/// Whether the target duration of the playlist is compared with the others.
fn takes_part(pl: &MediaPlaylist) -> (r: bool)
    ensures
        r == is_comparable(*pl),
{
    pl.target_duration.is_positive() && !((pl.iframes_only || pl.is_iframe) && is_text(
        &pl.playlist_type,
        "VOD",
    ))
}

/// The numbers as mathematical integers.
pub open spec fn numbers(v: Seq<u64>) -> Seq<nat> {
    v.map_values(|n: u64| n as nat)
}

/// Adds a number to the list where it is not there yet.
fn add_distinct(list: &mut Vec<u64>, n: u64)
    requires
        numbers(old(list)@).no_duplicates(),
    ensures
        numbers(final(list)@).no_duplicates(),
        numbers(final(list)@).to_set() == numbers(old(list)@).to_set().insert(n as nat),
{
    let ghost before = numbers(list@);
    let mut i: usize = 0;
    while i < list.len()
        invariant
            i <= list.len(),
            before == numbers(list@),
            list@ == old(list)@,
            before.no_duplicates(),
            forall|k: int| 0 <= k < i ==> before[k] != n,
        decreases list.len() - i,
    {
        assert(before[i as int] == list@[i as int]);
        if list[i] == n {
            return;
        }
        i = i + 1;
    }
    list.push(n);
    proof {
        assert(numbers(list@) =~= before.push(n as nat));
        before.lemma_push_to_set_commute(n as nat);
    }
}

/// The playlists of a presentation have the same target duration.
///
/// An I-frame playlist of a finished presentation may have a target duration
/// of its own, so such playlists are left out of the comparison.
pub fn check_targetduration_consistency(playlists: &[MediaPlaylist]) -> (r: Vec<Issue>)
    ensures
        findings(r@) == named(
            CheckId::TargetDurationConsistency,
            target_findings(comparable(playlists@)),
        ),
        all_raised_by(findings(r@), CheckId::TargetDurationConsistency),
{
    let ghost p = comparable_at(playlists@);
    let ghost at = |i: int| playlists@[i];
    let mut distinct: Vec<u64> = Vec::new();
    let mut details: Vec<String> = Vec::new();
    let mut i: usize = 0;
    while i < playlists.len()
        invariant
            i <= playlists.len(),
            p == comparable_at(playlists@),
            at == |i: int| playlists@[i],
            numbers(distinct@).no_duplicates(),
            numbers(distinct@).to_set() == targets(
                picked(i as nat, p).map_values(at),
            ).to_set(),
            texts(details@) == target_details(picked(i as nat, p).map_values(at)),
        decreases playlists.len() - i,
    {
        let pl = &playlists[i];
        if takes_part(pl) {
            add_distinct(&mut distinct, pl.target_duration.whole());
            add_text(
                &mut details,
                pl.name.as_str().to_owned().concat("=").concat(
                    pl.target_duration.fixed(0).as_str(),
                ).concat("s"),
            );
            proof {
                let some = picked(i as nat, p).map_values(at);
                let more = picked((i + 1) as nat, p).map_values(at);
                assert(more =~= some.push(*pl));
                assert(targets(more) =~= targets(some).push(whole(pl.target_duration@)));
                targets(some).lemma_push_to_set_commute(whole(pl.target_duration@));
            }
        }
        i = i + 1;
    }
    let mut issues: Vec<Issue> = Vec::new();
    proof {
        numbers(distinct@).unique_seq_to_set();
    }
    if distinct.len() > 1 {
        report(
            &mut issues,
            Issue::error(
                "rfc8216bis §6.2.4: EXT-X-TARGETDURATION values differ across renditions (".to_owned().concat(
                    number(distinct.len() as u128).as_str(),
                ).concat(
                    " distinct values). Every Media Playlist of a presentation MUST declare the same TARGETDURATION, apart from I-frame playlists with PLAYLIST-TYPE:VOD, which are excluded here. Details: ",
                ).concat(join(details.as_slice(), ", ").as_str()),
            ),
        );
    }
    produced_by(CheckId::TargetDurationConsistency, issues)
}

} // verus!
