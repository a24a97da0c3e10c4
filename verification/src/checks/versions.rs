//! Protocol versions and what they allow.
use crate::gather::{
    all_raised_by, earliest, gathered, lemma_earliest, lemma_earliest_is, lemma_gathered_raised_by,
};
use crate::double::{fixed, has_fraction};
use crate::text::{chars_of, contains, decimal, has_text, number};
use crate::types::{
    findings, named, produced_by, report, CheckId, Issue, IssueView, MediaPlaylist, Segment,
    Severity,
};
use vstd::prelude::*;

verus! {

/// A feature that is used needs a version that has it.
pub open spec fn feature_findings(
    pl: MediaPlaylist,
    used: bool,
    feature: Seq<char>,
    required: nat,
) -> Seq<IssueView> {
    if used && pl.version < required {
        seq![
            IssueView::on_rendition(
                Severity::Error,
                pl.name@,
                "RFC 8216bis §8: '"@ + pl.name@ + "' uses "@ + feature
                    + " which requires VERSION >= "@ + decimal(required) + ". Declared version: "@
                    + decimal(pl.version as nat) + "."@,
            ),
        ]
    } else {
        seq![]
    }
}

pub open spec fn fractional_at(s: Seq<Segment>) -> spec_fn(int) -> bool {
    |i: int| has_fraction(s[i].duration@)
}

/// The first segment whose duration is not a whole number of seconds.
pub open spec fn first_fractional(s: Seq<Segment>) -> Option<int> {
    earliest(s.len(), fractional_at(s))
}

/// Durations with fractions need a version that has them.
pub open spec fn fraction_findings(pl: MediaPlaylist) -> Seq<IssueView> {
    match first_fractional(pl.segments@) {
        Some(i) => feature_findings(
            pl,
            true,
            "floating-point EXTINF ("@ + fixed(pl.segments@[i].duration@, 3) + "s)"@,
            3,
        ),
        None => seq![],
    }
}

/// EXT-X-MAP needs a lower version in an I-frames-only playlist.
pub open spec fn map_findings(pl: MediaPlaylist) -> Seq<IssueView> {
    let used = has_text(pl.raw_content@, "#EXT-X-MAP:"@);
    if has_text(pl.raw_content@, "#EXT-X-I-FRAMES-ONLY"@) {
        feature_findings(pl, used, "EXT-X-MAP in a playlist with EXT-X-I-FRAMES-ONLY"@, 5)
    } else {
        feature_findings(pl, used, "EXT-X-MAP without EXT-X-I-FRAMES-ONLY"@, 6)
    }
}

/// The findings on the version of one playlist.
pub open spec fn version_findings(pl: MediaPlaylist) -> Seq<IssueView> {
    feature_findings(
        pl,
        has_text(pl.raw_content@, "#EXT-X-KEY:"@) && has_text(pl.raw_content@, "IV="@),
        "EXT-X-KEY with IV attribute"@,
        2,
    ) + fraction_findings(pl) + feature_findings(
        pl,
        has_text(pl.raw_content@, "#EXT-X-BYTERANGE:"@),
        "EXT-X-BYTERANGE"@,
        4,
    ) + map_findings(pl) + feature_findings(
        pl,
        has_text(pl.raw_content@, "#EXT-X-SKIP:"@),
        "EXT-X-SKIP"@,
        9,
    )
}

pub open spec fn version_rule(playlists: Seq<MediaPlaylist>) -> spec_fn(int) -> Seq<IssueView> {
    |i: int| version_findings(playlists[i])
}

/// Checks one feature.
fn check_feature(
    pl: &MediaPlaylist,
    used: bool,
    feature: &str,
    required: u32,
    issues: &mut Vec<Issue>,
)
    ensures
        findings(final(issues)@) == findings(old(issues)@) + feature_findings(
            *pl,
            used,
            feature@,
            required as nat,
        ),
{
    if used && pl.version < required {
        report(
            issues,
            Issue::on_rendition(
                Severity::Error,
                pl.name.as_str(),
                "RFC 8216bis §8: '".to_owned().concat(pl.name.as_str()).concat("' uses ").concat(
                    feature,
                ).concat(" which requires VERSION >= ").concat(
                    number(required as u128).as_str(),
                ).concat(". Declared version: ").concat(
                    number(pl.version as u128).as_str(),
                ).concat("."),
            ),
        );
    }
}

/// The first segment whose duration is not a whole number of seconds.
fn find_fractional(s: &Vec<Segment>) -> (r: Option<usize>)
    ensures
        r matches Some(i) ==> i < s.len() && first_fractional(s@) == Some(i as int),
        r is None ==> first_fractional(s@) is None,
{
    let ghost p = fractional_at(s@);
    let mut i: usize = 0;
    while i < s.len()
        invariant
            i <= s.len(),
            p == fractional_at(s@),
            forall|j: int| 0 <= j < i ==> !#[trigger] p(j),
        decreases s.len() - i,
    {
        if s[i].duration.has_fraction() {
            proof {
                lemma_earliest_is(s@.len(), p, i as int);
            }
            return Some(i);
        }
        i = i + 1;
    }
    proof {
        lemma_earliest(s@.len(), p);
    }
    None
}

/// Checks that fractions of seconds are allowed where they are used.
fn check_fraction(pl: &MediaPlaylist, issues: &mut Vec<Issue>)
    ensures
        findings(final(issues)@) == findings(old(issues)@) + fraction_findings(*pl),
{
    if let Some(i) = find_fractional(&pl.segments) {
        let feature = "floating-point EXTINF (".to_owned().concat(
            pl.segments[i].duration.fixed(3).as_str(),
        ).concat("s)");
        check_feature(pl, true, feature.as_str(), 3, issues);
    }
}

/// Checks that EXT-X-MAP is allowed where it is used.
fn check_map(pl: &MediaPlaylist, text: &[char], issues: &mut Vec<Issue>)
    requires
        text@ == pl.raw_content@,
    ensures
        findings(final(issues)@) == findings(old(issues)@) + map_findings(*pl),
{
    let used = contains(text, "#EXT-X-MAP:");
    if contains(text, "#EXT-X-I-FRAMES-ONLY") {
        check_feature(
            pl,
            used,
            "EXT-X-MAP in a playlist with EXT-X-I-FRAMES-ONLY",
            5,
            issues,
        );
    } else {
        check_feature(pl, used, "EXT-X-MAP without EXT-X-I-FRAMES-ONLY", 6, issues);
    }
}

/// Checks the version of one playlist.
fn check_version(pl: &MediaPlaylist, issues: &mut Vec<Issue>)
    ensures
        findings(final(issues)@) == findings(old(issues)@) + version_findings(*pl),
{
    let content = chars_of(pl.raw_content.as_str());
    let text = content.as_slice();
    let vector = contains(text, "#EXT-X-KEY:") && contains(text, "IV=");
    let range = contains(text, "#EXT-X-BYTERANGE:");
    let skip = contains(text, "#EXT-X-SKIP:");
    check_feature(pl, vector, "EXT-X-KEY with IV attribute", 2, issues);
    check_fraction(pl, issues);
    check_feature(pl, range, "EXT-X-BYTERANGE", 4, issues);
    check_map(pl, text, issues);
    check_feature(pl, skip, "EXT-X-SKIP", 9, issues);
}

/// Every playlist declares a version that has the features it uses.
pub fn check_version_compatibility(playlists: &[MediaPlaylist]) -> (r: Vec<Issue>)
    ensures
        findings(r@) == named(
            CheckId::VersionCompatibility,
            gathered(playlists@.len(), version_rule(playlists@)),
        ),
        all_raised_by(findings(r@), CheckId::VersionCompatibility),
{
    let mut issues: Vec<Issue> = Vec::new();
    let mut i: usize = 0;
    while i < playlists.len()
        invariant
            i <= playlists.len(),
            findings(issues@) == gathered(i as nat, version_rule(playlists@)),
        decreases playlists.len() - i,
    {
        check_version(&playlists[i], &mut issues);
        i = i + 1;
    }
    proof {
        lemma_gathered_raised_by(
            playlists@.len(),
            version_rule(playlists@),
            CheckId::Unassigned,
        );
    }
    produced_by(CheckId::VersionCompatibility, issues)
}

} // verus!
