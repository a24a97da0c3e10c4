//! Playlists as the checks read them, and the findings that the checks report.
use crate::names::NameSet;
use crate::numeral::number_in;
use crate::double::{Double, Real};
use crate::text::{optional, texts};
use vstd::prelude::*;

verus! {

/// How serious a finding is.
#[derive(Clone, Copy, Debug, PartialEq, Eq, Hash, Structural)]
pub enum Severity {
    Error,
    Warn,
}

/// The check that raised a finding.
#[derive(Clone, Copy, Debug, PartialEq, Eq, Hash, Structural)]
pub enum CheckId {
    Unassigned,
    BandwidthRequired,
    CumulativeDrift,
    DeltaUpdates,
    DiscontinuitySequence,
    DurationDrift,
    EncryptionConsistency,
    ExtM3uHeader,
    Interstitials,
    LivePlaylistWindow,
    LlHls,
    MediaGroupMembership,
    MediaSequenceTags,
    PdtAlignment,
    PdtCoverage,
    PlaylistFetch,
    PlaylistTypeEndlist,
    RenditionGroupReferences,
    SegmentCount,
    SegmentStructure,
    SingletonTags,
    StreamInfConsistency,
    TargetDurationCompliance,
    TargetDurationConsistency,
    VersionCompatibility,
}

/// A finding.
#[derive(Clone, Debug)]
pub struct Issue {
    pub severity: Severity,
    pub check_id: CheckId,
    /// The position of the segment concerned, or -1 for the whole playlist.
    pub segment_index: i32,
    pub rendition_a: Option<String>,
    pub rendition_b: Option<String>,
    pub uri_a: Option<String>,
    pub uri_b: Option<String>,
    pub message: String,
    pub uri_note: Option<String>,
}

/// What a finding says.
pub struct IssueView {
    pub severity: Severity,
    pub check_id: CheckId,
    pub segment_index: int,
    pub rendition_a: Option<Seq<char>>,
    pub rendition_b: Option<Seq<char>>,
    pub uri_a: Option<Seq<char>>,
    pub uri_b: Option<Seq<char>>,
    pub message: Seq<char>,
    pub uri_note: Option<Seq<char>>,
}

impl View for Issue {
    type V = IssueView;

    open spec fn view(&self) -> IssueView {
        IssueView {
            severity: self.severity,
            check_id: self.check_id,
            segment_index: self.segment_index as int,
            rendition_a: optional(self.rendition_a),
            rendition_b: optional(self.rendition_b),
            uri_a: optional(self.uri_a),
            uri_b: optional(self.uri_b),
            message: self.message@,
            uri_note: optional(self.uri_note),
        }
    }
}

/// The segment index that stands for a position or a media sequence number:
/// its lowest 32 bits, as a signed number.
pub open spec fn index_number(n: int) -> int {
    (n as u64 as i32) as int
}

impl IssueView {
    /// A finding of the given severity that names nothing but its message.
    pub open spec fn general(severity: Severity, message: Seq<char>) -> IssueView {
        IssueView {
            severity,
            check_id: CheckId::Unassigned,
            segment_index: -1,
            rendition_a: None,
            rendition_b: None,
            uri_a: None,
            uri_b: None,
            message,
            uri_note: None,
        }
    }

    /// A finding on the whole of one rendition.
    pub open spec fn on_rendition(
        severity: Severity,
        rendition: Seq<char>,
        message: Seq<char>,
    ) -> IssueView {
        IssueView { rendition_a: Some(rendition), ..IssueView::general(severity, message) }
    }

    /// A finding on one URI of the multivariant playlist.
    pub open spec fn on_uri(severity: Severity, uri: Seq<char>, message: Seq<char>) -> IssueView {
        IssueView { uri_a: Some(uri), ..IssueView::general(severity, message) }
    }

    /// A finding on one segment of a rendition.
    pub open spec fn on_segment(
        severity: Severity,
        index: int,
        rendition: Seq<char>,
        uri: Seq<char>,
        message: Seq<char>,
    ) -> IssueView {
        IssueView {
            segment_index: index_number(index),
            rendition_a: Some(rendition),
            uri_a: Some(uri),
            ..IssueView::general(severity, message)
        }
    }

    /// A warning on two segments that stand for each other in two renditions.
    pub open spec fn on_pair(
        msn: int,
        renditions: (Seq<char>, Seq<char>),
        uris: (Seq<char>, Seq<char>),
        message: Seq<char>,
    ) -> IssueView {
        IssueView {
            segment_index: index_number(msn),
            rendition_a: Some(renditions.0),
            rendition_b: Some(renditions.1),
            uri_a: Some(uris.0),
            uri_b: Some(uris.1),
            ..IssueView::general(Severity::Warn, message)
        }
    }

    /// The same finding, with a note on its values.
    pub open spec fn noted(self, note: Seq<char>) -> IssueView {
        IssueView { uri_note: Some(note), ..self }
    }

    /// The same finding, raised by the given check.
    pub open spec fn raised_by(self, check_id: CheckId) -> IssueView {
        IssueView { check_id, ..self }
    }
}

/// What each finding says.
pub open spec fn findings(issues: Seq<Issue>) -> Seq<IssueView> {
    issues.map_values(|i: Issue| i@)
}

/// The findings, with `id` as the check of those that name none.
pub open spec fn named(id: CheckId, s: Seq<IssueView>) -> Seq<IssueView> {
    s.map_values(
        |i: IssueView|
            if i.check_id == CheckId::Unassigned {
                i.raised_by(id)
            } else {
                i
            },
    )
}

impl Issue {
    /// A finding of the given severity that names nothing but its message.
    pub fn general(severity: Severity, message: String) -> (r: Issue)
        ensures
            r@ == IssueView::general(severity, message@),
    {
        Issue {
            severity,
            check_id: CheckId::Unassigned,
            segment_index: -1,
            rendition_a: None,
            rendition_b: None,
            uri_a: None,
            uri_b: None,
            message,
            uri_note: None,
        }
    }

    /// An error that names nothing but its message.
    pub fn error(message: String) -> (r: Issue)
        ensures
            r@ == IssueView::general(Severity::Error, message@),
    {
        Issue::general(Severity::Error, message)
    }

    /// A warning that names nothing but its message.
    pub fn warn(message: String) -> (r: Issue)
        ensures
            r@ == IssueView::general(Severity::Warn, message@),
    {
        Issue::general(Severity::Warn, message)
    }

    /// A finding on the whole of one rendition.
    pub fn on_rendition(severity: Severity, rendition: &str, message: String) -> (r: Issue)
        ensures
            r@ == IssueView::on_rendition(severity, rendition@, message@),
    {
        let mut issue = Issue::general(severity, message);
        issue.rendition_a = Some(rendition.to_owned());
        issue
    }

    /// A finding on one URI of the multivariant playlist.
    pub fn on_uri(severity: Severity, uri: &str, message: String) -> (r: Issue)
        ensures
            r@ == IssueView::on_uri(severity, uri@, message@),
    {
        let mut issue = Issue::general(severity, message);
        issue.uri_a = Some(uri.to_owned());
        issue
    }

    /// A finding on one segment of a rendition.
    pub fn on_segment(
        severity: Severity,
        index: usize,
        rendition: &str,
        uri: &str,
        message: String,
    ) -> (r: Issue)
        ensures
            r@ == IssueView::on_segment(severity, index as int, rendition@, uri@, message@),
    {
        let mut issue = Issue::general(severity, message);
        issue.segment_index = index as u64 as i32;
        issue.rendition_a = Some(rendition.to_owned());
        issue.uri_a = Some(uri.to_owned());
        issue
    }

    /// A warning on two segments that stand for each other in two renditions.
    pub fn on_pair(
        msn: u64,
        renditions: (&str, &str),
        uris: (&str, &str),
        message: String,
    ) -> (r: Issue)
        ensures
            r@ == IssueView::on_pair(
                msn as int,
                (renditions.0@, renditions.1@),
                (uris.0@, uris.1@),
                message@,
            ),
    {
        let mut issue = Issue::general(Severity::Warn, message);
        issue.segment_index = msn as i32;
        issue.rendition_a = Some(renditions.0.to_owned());
        issue.rendition_b = Some(renditions.1.to_owned());
        issue.uri_a = Some(uris.0.to_owned());
        issue.uri_b = Some(uris.1.to_owned());
        issue
    }

    /// The same finding, with a note on its values.
    pub fn noted(self, note: String) -> (r: Issue)
        ensures
            r@ == self@.noted(note@),
    {
        let mut issue = self;
        issue.uri_note = Some(note);
        issue
    }

    /// The same finding, raised by the given check.
    pub fn raised_by(self, check_id: CheckId) -> (r: Issue)
        ensures
            r@ == self@.raised_by(check_id),
    {
        let mut issue = self;
        issue.check_id = check_id;
        issue
    }
}

/// Adds a finding to the end of the list.
pub fn report(issues: &mut Vec<Issue>, issue: Issue)
    ensures
        findings(final(issues)@) == findings(old(issues)@).push(issue@),
{
    issues.push(issue);
}

/// Records `id` as the producer of every finding that has not already named
/// its own check.
///
/// Findings are grouped in the report by the check that raised them, so a
/// check that returns without naming itself would land in the catch-all group.
pub fn produced_by(id: CheckId, issues: Vec<Issue>) -> (r: Vec<Issue>)
    ensures
        findings(r@) == named(id, findings(issues@)),
{
    let mut r = issues;
    let ghost all = findings(r@);
    let mut i: usize = 0;
    while i < r.len()
        invariant
            i <= r.len(),
            all.len() == r.len(),
            forall|k: int| 0 <= k < i ==> findings(r@)[k] == named(id, all)[k],
            forall|k: int| i <= k < r.len() ==> findings(r@)[k] == all[k],
        decreases r.len() - i,
    {
        if r[i].check_id == CheckId::Unassigned {
            r[i].check_id = id;
        }
        i = i + 1;
    }
    r
}

/// A media segment.
#[derive(Clone, Debug)]
pub struct Segment {
    pub uri: String,
    pub duration: Double,
    pub title: Option<String>,
    /// The program date and time, in seconds since the Unix epoch.
    pub pdt: Option<Double>,
    pub discontinuity: bool,
    pub byterange: Option<String>,
    pub is_ad: bool,
    pub map_uri: Option<String>,
}

/// A partial segment.
#[derive(Clone, Debug)]
pub struct PartialSegment {
    pub uri: String,
    pub duration: Double,
    pub independent: bool,
}

/// The attributes of EXT-X-SERVER-CONTROL.
#[derive(Clone, Debug)]
pub struct ServerControl {
    pub hold_back: Option<Double>,
    pub part_hold_back: Option<Double>,
    pub can_block_reload: bool,
    pub can_skip_until: Option<Double>,
}

/// The attributes of EXT-X-RENDITION-REPORT.
#[derive(Clone, Debug)]
pub struct RenditionReport {
    pub uri: String,
    /// The last media sequence number reported, negative if there is none.
    pub last_msn: i64,
    /// The last part reported, negative if there is none.
    pub last_part: i64,
}

/// A media playlist: what was read from it, and its text.
#[derive(Clone, Debug)]
pub struct MediaPlaylist {
    pub name: String,
    pub url: String,
    /// `VIDEO`, `AUDIO` or `SUBTITLES`.
    pub media_type: String,
    /// Whether the rendition was declared by EXT-X-I-FRAME-STREAM-INF.
    pub is_iframe: bool,
    /// Whether the playlist declares EXT-X-I-FRAMES-ONLY.
    pub iframes_only: bool,
    pub raw_content: String,
    pub version: u32,
    pub target_duration: Double,
    pub media_sequence: u64,
    pub discontinuity_sequence: u64,
    /// Segments that a delta update left out.
    pub skipped_segments: u64,
    pub playlist_type: Option<String>,
    pub has_endlist: bool,
    pub segments: Vec<Segment>,
    pub encryption_methods: NameSet,
    pub part_target: Option<Double>,
    pub parts: Vec<PartialSegment>,
    pub server_control: Option<ServerControl>,
    pub preload_hint_uri: Option<String>,
    pub preload_hint_type: Option<String>,
    pub rendition_reports: Vec<RenditionReport>,
    /// Variables that the playlist defines, by name.
    pub definitions: Vec<(String, String)>,
    /// Findings from reading the playlist.
    pub parse_issues: Vec<Issue>,
}

impl MediaPlaylist {
    /// A playlist of which nothing has been read yet.
    pub fn new(name: String, url: String) -> (r: MediaPlaylist)
        ensures
            r.name == name,
            r.url == url,
            r.media_type@ == "VIDEO"@,
            !r.is_iframe,
            !r.iframes_only,
            r.raw_content@ == Seq::<char>::empty(),
            r.version == 1,
            r.target_duration.bits == 0,
            r.media_sequence == 0,
            r.discontinuity_sequence == 0,
            r.skipped_segments == 0,
            r.playlist_type is None,
            !r.has_endlist,
            r.segments@.len() == 0,
            r.encryption_methods@ == Set::<Seq<char>>::empty(),
            r.part_target is None,
            r.parts@.len() == 0,
            r.server_control is None,
            r.preload_hint_uri is None,
            r.preload_hint_type is None,
            r.rendition_reports@.len() == 0,
            r.definitions@.len() == 0,
            r.parse_issues@.len() == 0,
    {
        MediaPlaylist {
            name,
            url,
            media_type: "VIDEO".to_owned(),
            is_iframe: false,
            iframes_only: false,
            raw_content: String::new(),
            version: 1,
            target_duration: Double::zero(),
            media_sequence: 0,
            discontinuity_sequence: 0,
            skipped_segments: 0,
            playlist_type: None,
            has_endlist: false,
            segments: Vec::new(),
            encryption_methods: NameSet::new(),
            part_target: None,
            parts: Vec::new(),
            server_control: None,
            preload_hint_uri: None,
            preload_hint_type: None,
            rendition_reports: Vec::new(),
            definitions: Vec::new(),
            parse_issues: Vec::new(),
        }
    }
}

/// A variant stream: one EXT-X-STREAM-INF and its URI.
#[derive(Clone, Debug)]
pub struct MasterRendition {
    pub uri: String,
    pub bandwidth: Option<u64>,
    pub codecs: Option<String>,
    pub audio_group: Option<String>,
    pub subtitle_group: Option<String>,
    pub closed_captions: Option<String>,
    pub video_group: Option<String>,
}

/// A rendition: one EXT-X-MEDIA.
#[derive(Clone, Debug)]
pub struct MediaRendition {
    pub media_type: String,
    pub group_id: String,
    pub name: String,
    pub uri: Option<String>,
}

/// A multivariant playlist: what was read from it, and its text.
#[derive(Clone, Debug)]
pub struct MasterPlaylist {
    pub url: String,
    pub raw_content: String,
    pub version: u32,
    pub variants: Vec<MasterRendition>,
    pub media_renditions: Vec<MediaRendition>,
}

/// An interstitial, as its EXT-X-DATERANGE tags describe it.
#[derive(Clone, Debug)]
pub struct Interstitial {
    pub rendition: String,
    pub id: String,
    pub start_date: String,
    pub asset_uri: Option<String>,
    pub asset_list: Option<String>,
    pub resume_offset: Option<Double>,
    pub playout_limit: Option<Double>,
    pub planned_duration_s: Option<Double>,
    pub snap: Option<String>,
    pub cue: Option<String>,
    pub timeline_style: Option<String>,
    pub errors: Vec<String>,
    pub start_offset_s: Option<Double>,
    pub content_duration_s: Double,
    pub rendition_url: String,
    pub definitions: Vec<(String, String)>,
}

/// What is known of an interstitial.
pub struct InterstitialView {
    pub rendition: Seq<char>,
    pub id: Seq<char>,
    pub start_date: Seq<char>,
    pub asset_uri: Option<Seq<char>>,
    pub asset_list: Option<Seq<char>>,
    pub resume_offset: Option<Real>,
    pub playout_limit: Option<Real>,
    pub planned_duration_s: Option<Real>,
    pub snap: Option<Seq<char>>,
    pub cue: Option<Seq<char>>,
    pub timeline_style: Option<Seq<char>>,
    pub errors: Seq<Seq<char>>,
    pub start_offset_s: Option<Double>,
    pub content_duration_s: Double,
    pub rendition_url: Seq<char>,
    pub definitions: Seq<(Seq<char>, Seq<char>)>,
}

/// The characters of each name and value.
pub open spec fn pairs(v: Seq<(String, String)>) -> Seq<(Seq<char>, Seq<char>)> {
    v.map_values(|p: (String, String)| (p.0@, p.1@))
}

impl View for Interstitial {
    type V = InterstitialView;

    open spec fn view(&self) -> InterstitialView {
        InterstitialView {
            rendition: self.rendition@,
            id: self.id@,
            start_date: self.start_date@,
            asset_uri: optional(self.asset_uri),
            asset_list: optional(self.asset_list),
            resume_offset: number_in(self.resume_offset),
            playout_limit: number_in(self.playout_limit),
            planned_duration_s: number_in(self.planned_duration_s),
            snap: optional(self.snap),
            cue: optional(self.cue),
            timeline_style: optional(self.timeline_style),
            errors: texts(self.errors@),
            start_offset_s: self.start_offset_s,
            content_duration_s: self.content_duration_s,
            rendition_url: self.rendition_url@,
            definitions: pairs(self.definitions@),
        }
    }
}

} // verus!
