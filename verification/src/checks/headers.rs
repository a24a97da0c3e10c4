//! The first line of a playlist, and the tags that may stand in it once.
use crate::gather::{all_raised_by, gathered, lemma_gathered_raised_by};
use crate::text::{
    chars_of, contains, decimal, first_line, first_line_of, has_prefix, has_text, is_literal, lines,
    lines_of, number, slices, starts_with, string_of, trim, trim_end_matches, trimmed,
    without_trailing,
};
use crate::types::{
    findings, named, produced_by, report, CheckId, Issue, IssueView, MasterPlaylist, MediaPlaylist,
    Severity,
};
use vstd::prelude::*;

verus! {

pub open spec fn header_message(name: Seq<char>, line: Seq<char>) -> Seq<char> {
    "RFC 8216bis §4.4.1.1: Playlist '"@ + name
        + "' does not start with #EXTM3U. First line: '"@ + line + "'"@
}

/// Whether the text begins with an `#EXTM3U` line.
pub open spec fn has_header(content: Seq<char>) -> bool {
    trimmed(first_line_of(content)) == "#EXTM3U"@
}

/// A playlist that does not begin with `#EXTM3U` is an error.
pub open spec fn header_findings(pl: MediaPlaylist) -> Seq<IssueView> {
    if has_header(pl.raw_content@) {
        seq![]
    } else {
        seq![
            IssueView::on_rendition(
                Severity::Error,
                pl.name@,
                header_message(pl.name@, first_line_of(pl.raw_content@)),
            ),
        ]
    }
}

pub open spec fn header_rule(playlists: Seq<MediaPlaylist>) -> spec_fn(int) -> Seq<IssueView> {
    |i: int| header_findings(playlists[i])
}

/// Every playlist begins with an `#EXTM3U` line.
pub fn check_extm3u_header(playlists: &[MediaPlaylist]) -> (r: Vec<Issue>)
    ensures
        findings(r@) == named(
            CheckId::ExtM3uHeader,
            gathered(playlists@.len(), header_rule(playlists@)),
        ),
        all_raised_by(findings(r@), CheckId::ExtM3uHeader),
{
    let mut issues: Vec<Issue> = Vec::new();
    let mut i: usize = 0;
    while i < playlists.len()
        invariant
            i <= playlists.len(),
            findings(issues@) == gathered(i as nat, header_rule(playlists@)),
        decreases playlists.len() - i,
    {
        let pl = &playlists[i];
        let content = chars_of(pl.raw_content.as_str());
        let line = first_line(content.as_slice());
        if !is_literal(trim(line), "#EXTM3U") {
            let text = string_of(line);
            report(
                &mut issues,
                Issue::on_rendition(
                    Severity::Error,
                    pl.name.as_str(),
                    "RFC 8216bis §4.4.1.1: Playlist '".to_owned().concat(pl.name.as_str()).concat(
                        "' does not start with #EXTM3U. First line: '",
                    ).concat(text.as_str()).concat("'"),
                ),
            );
        }
        i = i + 1;
    }
    proof {
        lemma_gathered_raised_by(
            playlists@.len(),
            header_rule(playlists@),
            CheckId::Unassigned,
        );
    }
    produced_by(CheckId::ExtM3uHeader, issues)
}

/// How many of the lines are the given tag.
pub open spec fn tag_count(all: Seq<Seq<char>>, tag: Seq<char>) -> nat
    decreases all.len(),
{
    if all.len() == 0 {
        0
    } else {
        tag_count(all.drop_last(), tag) + if has_prefix(trimmed(all.last()), tag) {
            1nat
        } else {
            0nat
        }
    }
}

/// How many of the lines are the given tag.
pub fn count_tag(rows: &Vec<&[char]>, tag: &str) -> (r: usize)
    ensures
        r == tag_count(slices(rows@), tag@),
{
    let ghost all = slices(rows@);
    let mut count: usize = 0;
    let mut i: usize = 0;
    while i < rows.len()
        invariant
            i <= rows.len(),
            count <= i,
            all == slices(rows@),
            count == tag_count(all.take(i as int), tag@),
        decreases rows.len() - i,
    {
        assert(all.take(i + 1).drop_last() =~= all.take(i as int));
        if starts_with(trim(rows[i]), tag) {
            count = count + 1;
        }
        i = i + 1;
    }
    assert(all.take(i as int) =~= all);
    count
}

/// The name of a tag: what stands before the colon.
fn tag_name(tag: &str) -> (r: String)
    ensures
        r@ == without_trailing(tag@, ':'),
{
    let chars = chars_of(tag);
    string_of(trim_end_matches(chars.as_slice(), ':'))
}

/// The tags that a media playlist may hold once.
pub open spec fn singleton_tags() -> Seq<&'static str> {
    seq![
        "#EXT-X-VERSION:",
        "#EXT-X-INDEPENDENT-SEGMENTS",
        "#EXT-X-START:",
        "#EXT-X-TARGETDURATION:",
        "#EXT-X-MEDIA-SEQUENCE:",
        "#EXT-X-DISCONTINUITY-SEQUENCE:",
        "#EXT-X-PLAYLIST-TYPE:",
        "#EXT-X-I-FRAMES-ONLY",
        "#EXT-X-PART-INF:",
        "#EXT-X-SERVER-CONTROL:",
    ]
}

pub open spec fn repeated_message(tag: Seq<char>, count: nat, name: Seq<char>) -> Seq<char> {
    "RFC 8216bis §4.4.1.2/§4.4.3: Singleton tag '"@ + without_trailing(tag, ':') + "' appears "@
        + decimal(count) + " times in '"@ + name + "'. It MUST appear at most once."@
}

pub open spec fn repeated_rule(pl: MediaPlaylist) -> spec_fn(int) -> Seq<IssueView> {
    |t: int|
        {
            let tag = singleton_tags()[t]@;
            let count = tag_count(lines_of(pl.raw_content@), tag);
            if count > 1 {
                seq![
                    IssueView::on_rendition(
                        Severity::Error,
                        pl.name@,
                        repeated_message(tag, count, pl.name@),
                    ),
                ]
            } else {
                seq![]
            }
        }
}

/// No tag that may stand once stands more than once.
pub open spec fn repeated_findings(pl: MediaPlaylist) -> Seq<IssueView> {
    gathered(singleton_tags().len(), repeated_rule(pl))
}

pub open spec fn duplicates_rule(playlists: Seq<MediaPlaylist>) -> spec_fn(int) -> Seq<
    IssueView,
> {
    |i: int| repeated_findings(playlists[i])
}

/// Checks the singleton tags of one playlist.
fn check_tags(pl: &MediaPlaylist, issues: &mut Vec<Issue>)
    ensures
        findings(final(issues)@) == findings(old(issues)@) + repeated_findings(*pl),
{
    let tags: [&str; 10] = [
        "#EXT-X-VERSION:",
        "#EXT-X-INDEPENDENT-SEGMENTS",
        "#EXT-X-START:",
        "#EXT-X-TARGETDURATION:",
        "#EXT-X-MEDIA-SEQUENCE:",
        "#EXT-X-DISCONTINUITY-SEQUENCE:",
        "#EXT-X-PLAYLIST-TYPE:",
        "#EXT-X-I-FRAMES-ONLY",
        "#EXT-X-PART-INF:",
        "#EXT-X-SERVER-CONTROL:",
    ];
    let content = chars_of(pl.raw_content.as_str());
    let rows = lines(content.as_slice());
    let ghost before = findings(issues@);
    let mut t: usize = 0;
    while t < 10
        invariant
            t <= 10,
            tags@ == singleton_tags(),
            slices(rows@) == lines_of(pl.raw_content@),
            findings(issues@) == before + gathered(t as nat, repeated_rule(*pl)),
        decreases 10 - t,
    {
        let tag = tags[t];
        let count = count_tag(&rows, tag);
        if count > 1 {
            report(
                issues,
                Issue::on_rendition(
                    Severity::Error,
                    pl.name.as_str(),
                    "RFC 8216bis §4.4.1.2/§4.4.3: Singleton tag '".to_owned().concat(
                        tag_name(tag).as_str(),
                    ).concat("' appears ").concat(number(count as u128).as_str()).concat(
                        " times in '",
                    ).concat(pl.name.as_str()).concat("'. It MUST appear at most once."),
                ),
            );
        }
        t = t + 1;
    }
}

/// Tags that may stand once in a media playlist do not stand more than once.
pub fn check_media_sequence_duplicate_tags(playlists: &[MediaPlaylist]) -> (r: Vec<Issue>)
    ensures
        findings(r@) == named(
            CheckId::SingletonTags,
            gathered(playlists@.len(), duplicates_rule(playlists@)),
        ),
        all_raised_by(findings(r@), CheckId::SingletonTags),
{
    let mut issues: Vec<Issue> = Vec::new();
    let mut i: usize = 0;
    while i < playlists.len()
        invariant
            i <= playlists.len(),
            findings(issues@) == gathered(i as nat, duplicates_rule(playlists@)),
        decreases playlists.len() - i,
    {
        check_tags(&playlists[i], &mut issues);
        i = i + 1;
    }
    proof {
        let id = CheckId::Unassigned;
        assert forall|k: int| 0 <= k < playlists@.len() implies all_raised_by(
            #[trigger] duplicates_rule(playlists@)(k),
            id,
        ) by {
            lemma_gathered_raised_by(singleton_tags().len(), repeated_rule(playlists@[k]), id);
        }
        lemma_gathered_raised_by(playlists@.len(), duplicates_rule(playlists@), id);
    }
    produced_by(CheckId::SingletonTags, issues)
}

/// What a multivariant playlist is called in messages.
pub open spec fn master_label(master: MasterPlaylist) -> Seq<char> {
    if master.url@.len() == 0 {
        "multivariant playlist"@
    } else {
        master.url@
    }
}

/// The multivariant playlist begins with `#EXTM3U`.
pub open spec fn master_header_findings(master: MasterPlaylist) -> Seq<IssueView> {
    if has_header(master.raw_content@) {
        seq![]
    } else {
        seq![
            IssueView::on_uri(
                Severity::Error,
                master.url@,
                "RFC 8216bis §4.4.1.1: Multivariant Playlist '"@ + master_label(master)
                    + "' does not start with #EXTM3U. First line: '"@ + first_line_of(
                    master.raw_content@,
                ) + "'"@,
            ).raised_by(CheckId::ExtM3uHeader),
        ]
    }
}

/// A tag that may stand once in the multivariant playlist does not stand more
/// than once.
pub open spec fn master_tag_findings(master: MasterPlaylist, tag: Seq<char>) -> Seq<IssueView> {
    let count = tag_count(lines_of(master.raw_content@), tag);
    if count > 1 {
        seq![
            IssueView::on_uri(
                Severity::Error,
                master.url@,
                "RFC 8216bis §4.4.1.2/§4.4.2: Singleton tag '"@ + without_trailing(tag, ':')
                    + "' appears "@ + decimal(count) + " times in Multivariant Playlist '"@
                    + master_label(master) + "'. It MUST appear at most once."@,
            ).raised_by(CheckId::SingletonTags),
        ]
    } else {
        seq![]
    }
}

/// Variable substitution needs a version that has it.
pub open spec fn master_version_findings(master: MasterPlaylist) -> Seq<IssueView> {
    if master.version < 8 && has_text(master.raw_content@, "#EXT-X-DEFINE:"@) {
        seq![
            IssueView::on_uri(
                Severity::Error,
                master.url@,
                "RFC 8216bis §8: Multivariant Playlist '"@ + master_label(master)
                    + "' uses EXT-X-DEFINE (variable substitution) which requires VERSION >= 8. Declared version: "@
                    + decimal(master.version as nat) + "."@,
            ).raised_by(CheckId::VersionCompatibility),
        ]
    } else {
        seq![]
    }
}

/// The findings on the structure of the multivariant playlist.
pub open spec fn structure_findings(master: MasterPlaylist) -> Seq<IssueView> {
    master_header_findings(master) + master_tag_findings(master, "#EXT-X-VERSION:"@)
        + master_tag_findings(master, "#EXT-X-INDEPENDENT-SEGMENTS"@) + master_tag_findings(
        master,
        "#EXT-X-START:"@,
    ) + master_version_findings(master)
}

/// What the multivariant playlist is called in messages.
fn label(master: &MasterPlaylist) -> (r: &str)
    ensures
        r@ == master_label(*master),
{
    if master.url.as_str().is_empty() {
        "multivariant playlist"
    } else {
        master.url.as_str()
    }
}

/// Checks one tag of the multivariant playlist.
fn check_master_tag(
    master: &MasterPlaylist,
    rows: &Vec<&[char]>,
    tag: &str,
    issues: &mut Vec<Issue>,
)
    requires
        slices(rows@) == lines_of(master.raw_content@),
    ensures
        findings(final(issues)@) == findings(old(issues)@) + master_tag_findings(*master, tag@),
{
    let count = count_tag(rows, tag);
    if count > 1 {
        report(
            issues,
            Issue::on_uri(
                Severity::Error,
                master.url.as_str(),
                "RFC 8216bis §4.4.1.2/§4.4.2: Singleton tag '".to_owned().concat(
                    tag_name(tag).as_str(),
                ).concat("' appears ").concat(number(count as u128).as_str()).concat(
                    " times in Multivariant Playlist '",
                ).concat(label(master)).concat("'. It MUST appear at most once."),
            ).raised_by(CheckId::SingletonTags),
        );
    }
}

/// The multivariant playlist begins with `#EXTM3U`, does not repeat the tags
/// that may stand once, and declares the version that it needs.
pub fn check_master_structure(master: &MasterPlaylist) -> (r: Vec<Issue>)
    ensures
        findings(r@) == structure_findings(*master),
        forall|i: int| 0 <= i < r@.len() ==> (#[trigger] r@[i]).check_id != CheckId::Unassigned,
{
    let mut issues: Vec<Issue> = Vec::new();
    let content = chars_of(master.raw_content.as_str());
    let rows = lines(content.as_slice());
    let line = first_line(content.as_slice());
    if !is_literal(trim(line), "#EXTM3U") {
        report(
            &mut issues,
            Issue::on_uri(
                Severity::Error,
                master.url.as_str(),
                "RFC 8216bis §4.4.1.1: Multivariant Playlist '".to_owned().concat(
                    label(master),
                ).concat("' does not start with #EXTM3U. First line: '").concat(
                    string_of(line).as_str(),
                ).concat("'"),
            ).raised_by(CheckId::ExtM3uHeader),
        );
    }
    check_master_tag(master, &rows, "#EXT-X-VERSION:", &mut issues);
    check_master_tag(master, &rows, "#EXT-X-INDEPENDENT-SEGMENTS", &mut issues);
    check_master_tag(master, &rows, "#EXT-X-START:", &mut issues);
    let ghost before = findings(issues@);
    if master.version < 8 && contains(content.as_slice(), "#EXT-X-DEFINE:") {
        report(
            &mut issues,
            Issue::on_uri(
                Severity::Error,
                master.url.as_str(),
                "RFC 8216bis §8: Multivariant Playlist '".to_owned().concat(label(master)).concat(
                    "' uses EXT-X-DEFINE (variable substitution) which requires VERSION >= 8. Declared version: ",
                ).concat(number(master.version as u128).as_str()).concat("."),
            ).raised_by(CheckId::VersionCompatibility),
        );
    }
    assert(findings(issues@) =~= before + master_version_findings(*master));
    proof {
        assert forall|i: int| 0 <= i < issues@.len() implies (#[trigger] issues@[i]).check_id
            != CheckId::Unassigned by {
            assert(findings(issues@)[i] == issues@[i]@);
        }
    }
    issues
}

} // verus!
