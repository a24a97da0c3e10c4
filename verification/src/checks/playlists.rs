//! Media playlists by themselves: program dates, the live window, the end of
//! the list and the media sequence tag.
use crate::gather::{
    all_raised_by, earliest, gathered, lemma_earliest, lemma_earliest_is, lemma_gathered_raised_by,
};
use crate::text::{
    chars_of, contains, decimal, has_prefix, has_text, is_text, lines, lines_of, number, optional,
    slices, starts_with, trim, trimmed,
};
use crate::types::{
    findings, named, produced_by, report, CheckId, Issue, IssueView, MediaPlaylist, Segment,
    Severity,
};
use vstd::prelude::*;

verus! {

/// How many segments have no program date.
pub open spec fn undated(s: Seq<Segment>) -> nat
    decreases s.len(),
{
    if s.len() == 0 {
        0
    } else {
        undated(s.drop_last()) + if s.last().pdt is None {
            1nat
        } else {
            0nat
        }
    }
}

/// Either all segments have a program date or none has.
pub open spec fn coverage_findings(pl: MediaPlaylist) -> Seq<IssueView> {
    let missing = undated(pl.segments@);
    if 0 < missing < pl.segments@.len() {
        seq![
            IssueView::on_rendition(
                Severity::Warn,
                pl.name@,
                "RFC 8216bis §6.2.4: Playlist '"@ + pl.name@ + "' has partial PDT coverage: "@
                    + decimal(missing) + " of "@ + decimal(pl.segments@.len())
                    + " segments lack EXT-X-PROGRAM-DATE-TIME."@,
            ),
        ]
    } else {
        seq![]
    }
}

pub open spec fn coverage_rule(playlists: Seq<MediaPlaylist>) -> spec_fn(int) -> Seq<IssueView> {
    |i: int| coverage_findings(playlists[i])
}

/// How many segments have no program date.
fn count_undated(s: &Vec<Segment>) -> (r: usize)
    ensures
        r == undated(s@),
{
    let mut count: usize = 0;
    let mut i: usize = 0;
    while i < s.len()
        invariant
            i <= s.len(),
            count <= i,
            count == undated(s@.take(i as int)),
        decreases s.len() - i,
    {
        assert(s@.take(i + 1).drop_last() =~= s@.take(i as int));
        if s[i].pdt.is_none() {
            count = count + 1;
        }
        i = i + 1;
    }
    assert(s@.take(i as int) =~= s@);
    count
}

/// In every playlist either all segments have a program date or none has.
pub fn check_pdt_coverage(playlists: &[MediaPlaylist]) -> (r: Vec<Issue>)
    ensures
        findings(r@) == named(
            CheckId::PdtCoverage,
            gathered(playlists@.len(), coverage_rule(playlists@)),
        ),
        all_raised_by(findings(r@), CheckId::PdtCoverage),
{
    let mut issues: Vec<Issue> = Vec::new();
    let mut i: usize = 0;
    while i < playlists.len()
        invariant
            i <= playlists.len(),
            findings(issues@) == gathered(i as nat, coverage_rule(playlists@)),
        decreases playlists.len() - i,
    {
        let pl = &playlists[i];
        let missing = count_undated(&pl.segments);
        if 0 < missing && missing < pl.segments.len() {
            report(
                &mut issues,
                Issue::on_rendition(
                    Severity::Warn,
                    pl.name.as_str(),
                    "RFC 8216bis §6.2.4: Playlist '".to_owned().concat(pl.name.as_str()).concat(
                        "' has partial PDT coverage: ",
                    ).concat(number(missing as u128).as_str()).concat(" of ").concat(
                        number(pl.segments.len() as u128).as_str(),
                    ).concat(" segments lack EXT-X-PROGRAM-DATE-TIME."),
                ),
            );
        }
        i = i + 1;
    }
    proof {
        lemma_gathered_raised_by(
            playlists@.len(),
            coverage_rule(playlists@),
            CheckId::Unassigned,
        );
    }
    produced_by(CheckId::PdtCoverage, issues)
}

/// A live playlist has three segments or more.
pub open spec fn live_findings(pl: MediaPlaylist) -> Seq<IssueView> {
    if !pl.has_endlist && pl.segments@.len() < 3 {
        seq![
            IssueView::on_rendition(
                Severity::Error,
                pl.name@,
                "RFC 8216 §6.2.2: Live playlist '"@ + pl.name@ + "' contains only "@ + decimal(
                    pl.segments@.len(),
                ) + " segment(s). A Live Media Playlist MUST retain at least 3 segments."@,
            ),
        ]
    } else {
        seq![]
    }
}

pub open spec fn live_rule(playlists: Seq<MediaPlaylist>) -> spec_fn(int) -> Seq<IssueView> {
    |i: int| live_findings(playlists[i])
}

/// Every live playlist has three segments or more.
pub fn check_live_playlist_min_segments(playlists: &[MediaPlaylist]) -> (r: Vec<Issue>)
    ensures
        findings(r@) == named(
            CheckId::LivePlaylistWindow,
            gathered(playlists@.len(), live_rule(playlists@)),
        ),
        all_raised_by(findings(r@), CheckId::LivePlaylistWindow),
{
    let mut issues: Vec<Issue> = Vec::new();
    let mut i: usize = 0;
    while i < playlists.len()
        invariant
            i <= playlists.len(),
            findings(issues@) == gathered(i as nat, live_rule(playlists@)),
        decreases playlists.len() - i,
    {
        let pl = &playlists[i];
        let n = pl.segments.len();
        if !pl.has_endlist && n < 3 {
            report(
                &mut issues,
                Issue::on_rendition(
                    Severity::Error,
                    pl.name.as_str(),
                    "RFC 8216 §6.2.2: Live playlist '".to_owned().concat(pl.name.as_str()).concat(
                        "' contains only ",
                    ).concat(number(n as u128).as_str()).concat(
                        " segment(s). A Live Media Playlist MUST retain at least 3 segments.",
                    ),
                ),
            );
        }
        i = i + 1;
    }
    proof {
        lemma_gathered_raised_by(playlists@.len(), live_rule(playlists@), CheckId::Unassigned);
    }
    produced_by(CheckId::LivePlaylistWindow, issues)
}

/// A playlist of a finished presentation says that it is at its end. A playlist
/// of an event need not: the event may go on.
pub open spec fn endlist_findings(pl: MediaPlaylist) -> Seq<IssueView> {
    if optional(pl.playlist_type) == Some("VOD"@) && !pl.has_endlist {
        seq![
            IssueView::on_rendition(
                Severity::Error,
                pl.name@,
                "RFC 8216bis §4.4.3.5: Playlist '"@ + pl.name@
                    + "' declares PLAYLIST-TYPE:VOD but is missing EXT-X-ENDLIST. A VOD playlist MUST end with EXT-X-ENDLIST."@,
            ),
        ]
    } else {
        seq![]
    }
}

pub open spec fn endlist_rule(playlists: Seq<MediaPlaylist>) -> spec_fn(int) -> Seq<IssueView> {
    |i: int| endlist_findings(playlists[i])
}

/// Every playlist of a finished presentation says that it is at its end.
pub fn check_playlist_type_endlist(playlists: &[MediaPlaylist]) -> (r: Vec<Issue>)
    ensures
        findings(r@) == named(
            CheckId::PlaylistTypeEndlist,
            gathered(playlists@.len(), endlist_rule(playlists@)),
        ),
        all_raised_by(findings(r@), CheckId::PlaylistTypeEndlist),
{
    let mut issues: Vec<Issue> = Vec::new();
    let mut i: usize = 0;
    while i < playlists.len()
        invariant
            i <= playlists.len(),
            findings(issues@) == gathered(i as nat, endlist_rule(playlists@)),
        decreases playlists.len() - i,
    {
        let pl = &playlists[i];
        if is_text(&pl.playlist_type, "VOD") && !pl.has_endlist {
            report(
                &mut issues,
                Issue::on_rendition(
                    Severity::Error,
                    pl.name.as_str(),
                    "RFC 8216bis §4.4.3.5: Playlist '".to_owned().concat(pl.name.as_str()).concat(
                        "' declares PLAYLIST-TYPE:VOD but is missing EXT-X-ENDLIST. A VOD playlist MUST end with EXT-X-ENDLIST.",
                    ),
                ),
            );
        }
        i = i + 1;
    }
    proof {
        lemma_gathered_raised_by(
            playlists@.len(),
            endlist_rule(playlists@),
            CheckId::Unassigned,
        );
    }
    produced_by(CheckId::PlaylistTypeEndlist, issues)
}

/// Whether a line is the given tag.
pub open spec fn is_tag(line: Seq<char>, tag: Seq<char>) -> bool {
    has_prefix(trimmed(line), tag)
}

/// Whether a line holds a URI: it is neither empty nor a tag or comment.
pub open spec fn is_uri_line(line: Seq<char>) -> bool {
    trimmed(line).len() > 0 && trimmed(line)[0] != '#'
}

pub open spec fn sequence_tag_at(all: Seq<Seq<char>>) -> spec_fn(int) -> bool {
    |i: int| is_tag(all[i], "#EXT-X-MEDIA-SEQUENCE:"@)
}

/// Whether a line before `i` announces a segment.
pub open spec fn announced_before(all: Seq<Seq<char>>, i: int) -> bool {
    exists|j: int| 0 <= j < i && is_tag(#[trigger] all[j], "#EXTINF:"@)
}

pub open spec fn segment_uri_at(all: Seq<Seq<char>>) -> spec_fn(int) -> bool {
    |i: int| is_uri_line(all[i]) && announced_before(all, i)
}

/// The line of the first media sequence tag.
pub open spec fn sequence_line(all: Seq<Seq<char>>) -> Option<int> {
    earliest(all.len(), sequence_tag_at(all))
}

/// The line of the first segment URI: the first URI after an EXTINF tag, which
/// other tags may stand between.
pub open spec fn segment_line(all: Seq<Seq<char>>) -> Option<int> {
    earliest(all.len(), segment_uri_at(all))
}

/// A live playlist of several segments declares its media sequence number.
pub open spec fn absent_findings(pl: MediaPlaylist) -> Seq<IssueView> {
    if !has_text(pl.raw_content@, "#EXT-X-MEDIA-SEQUENCE:"@) && !pl.has_endlist
        && pl.segments@.len() > 1 {
        seq![
            IssueView::general(
                Severity::Warn,
                "rfc8216bis §4.4.3.2: Live playlist '"@ + pl.name@
                    + "' does not declare EXT-X-MEDIA-SEQUENCE. For live playlists the tag SHOULD be present so clients can track the sliding window."@,
            ),
        ]
    } else {
        seq![]
    }
}

/// The media sequence tag stands before the first segment.
pub open spec fn order_findings(pl: MediaPlaylist) -> Seq<IssueView> {
    let all = lines_of(pl.raw_content@);
    match (sequence_line(all), segment_line(all)) {
        (Some(tag), Some(segment)) => if tag > segment {
            seq![
                IssueView::on_rendition(
                    Severity::Error,
                    pl.name@,
                    "rfc8216bis §4.4.3.2: EXT-X-MEDIA-SEQUENCE MUST appear before the first Media Segment URI in '"@
                        + pl.name@ + "' (tag at line "@ + decimal((tag + 1) as nat)
                        + ", first segment at line "@ + decimal((segment + 1) as nat) + ")."@,
                ),
            ]
        } else {
            seq![]
        },
        _ => seq![],
    }
}

/// The findings on the media sequence tag of one playlist.
pub open spec fn sequence_findings(pl: MediaPlaylist) -> Seq<IssueView> {
    if pl.segments@.len() == 0 {
        seq![]
    } else {
        absent_findings(pl) + order_findings(pl)
    }
}

pub open spec fn sequence_rule(playlists: Seq<MediaPlaylist>) -> spec_fn(int) -> Seq<IssueView> {
    |i: int| sequence_findings(playlists[i])
}

/// The line of the first media sequence tag.
fn find_sequence_line(rows: &Vec<&[char]>) -> (r: Option<usize>)
    ensures
        r matches Some(i) ==> i < rows.len() && sequence_line(slices(rows@)) == Some(i as int),
        r is None ==> sequence_line(slices(rows@)) is None,
{
    let ghost all = slices(rows@);
    let ghost p = sequence_tag_at(all);
    let mut i: usize = 0;
    while i < rows.len()
        invariant
            i <= rows.len(),
            all == slices(rows@),
            p == sequence_tag_at(all),
            forall|j: int| 0 <= j < i ==> !#[trigger] p(j),
        decreases rows.len() - i,
    {
        if starts_with(trim(rows[i]), "#EXT-X-MEDIA-SEQUENCE:") {
            proof {
                lemma_earliest_is(all.len(), p, i as int);
            }
            return Some(i);
        }
        i = i + 1;
    }
    proof {
        lemma_earliest(all.len(), p);
    }
    None
}

/// The line of the first segment URI.
fn find_segment_line(rows: &Vec<&[char]>) -> (r: Option<usize>)
    ensures
        r matches Some(i) ==> i < rows.len() && segment_line(slices(rows@)) == Some(i as int),
        r is None ==> segment_line(slices(rows@)) is None,
{
    let ghost all = slices(rows@);
    let ghost p = segment_uri_at(all);
    let mut announced = false;
    let mut i: usize = 0;
    while i < rows.len()
        invariant
            i <= rows.len(),
            all == slices(rows@),
            p == segment_uri_at(all),
            announced == announced_before(all, i as int),
            forall|j: int| 0 <= j < i ==> !#[trigger] p(j),
        decreases rows.len() - i,
    {
        assert(all[i as int] == rows@[i as int]@);
        let line = trim(rows[i]);
        if announced && line.len() > 0 && line[0] != '#' {
            proof {
                lemma_earliest_is(all.len(), p, i as int);
            }
            return Some(i);
        }
        if starts_with(line, "#EXTINF:") {
            announced = true;
        }
        i = i + 1;
    }
    proof {
        lemma_earliest(all.len(), p);
    }
    None
}

/// Checks the media sequence tag of one playlist.
fn check_sequence(pl: &MediaPlaylist, issues: &mut Vec<Issue>)
    ensures
        findings(final(issues)@) == findings(old(issues)@) + sequence_findings(*pl),
{
    if pl.segments.len() == 0 {
        return;
    }
    let content = chars_of(pl.raw_content.as_str());
    let absent = !contains(content.as_slice(), "#EXT-X-MEDIA-SEQUENCE:");
    if absent && !pl.has_endlist && pl.segments.len() > 1 {
        report(
            issues,
            Issue::warn(
                "rfc8216bis §4.4.3.2: Live playlist '".to_owned().concat(pl.name.as_str()).concat(
                    "' does not declare EXT-X-MEDIA-SEQUENCE. For live playlists the tag SHOULD be present so clients can track the sliding window.",
                ),
            ),
        );
    }
    let rows = lines(content.as_slice());
    if let (Some(tag), Some(segment)) = (find_sequence_line(&rows), find_segment_line(&rows)) {
        if tag > segment {
            report(
                issues,
                Issue::on_rendition(
                    Severity::Error,
                    pl.name.as_str(),
                    "rfc8216bis §4.4.3.2: EXT-X-MEDIA-SEQUENCE MUST appear before the first Media Segment URI in '".to_owned().concat(
                        pl.name.as_str(),
                    ).concat("' (tag at line ").concat(number(tag as u128 + 1).as_str()).concat(
                        ", first segment at line ",
                    ).concat(number(segment as u128 + 1).as_str()).concat(")."),
                ),
            );
        }
    }
}

/// Every live playlist of several segments declares its media sequence number,
/// and the tag stands before the first segment.
///
/// Nothing is read out of segment URIs: the media sequence number of the first
/// segment is the value of the tag and nothing else.
pub fn check_media_sequence_continuity(playlists: &[MediaPlaylist]) -> (r: Vec<Issue>)
    ensures
        findings(r@) == named(
            CheckId::MediaSequenceTags,
            gathered(playlists@.len(), sequence_rule(playlists@)),
        ),
        all_raised_by(findings(r@), CheckId::MediaSequenceTags),
{
    let mut issues: Vec<Issue> = Vec::new();
    let mut i: usize = 0;
    while i < playlists.len()
        invariant
            i <= playlists.len(),
            findings(issues@) == gathered(i as nat, sequence_rule(playlists@)),
        decreases playlists.len() - i,
    {
        check_sequence(&playlists[i], &mut issues);
        i = i + 1;
    }
    proof {
        lemma_gathered_raised_by(
            playlists@.len(),
            sequence_rule(playlists@),
            CheckId::Unassigned,
        );
    }
    produced_by(CheckId::MediaSequenceTags, issues)
}

} // verus!
