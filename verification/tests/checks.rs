//! The checks on playlists as they are written.
use hls_checks::attributes::{parse_attributes, Attributes};
use hls_checks::double::Double;
use hls_checks::types::{
    CheckId, Issue, MasterPlaylist, MasterRendition, MediaPlaylist, MediaRendition,
    PartialSegment, RenditionReport, Segment, ServerControl, Severity,
};
use hls_checks::{
    check_bandwidth_required, check_cumulative_drift, check_discontinuity_sequence,
    check_duration_drift, check_encryption_consistency, check_extm3u_header, check_interstitials,
    check_live_playlist_min_segments, check_ll_hls_compliance, check_master_structure,
    check_media_group_membership, check_media_sequence_continuity,
    check_media_sequence_duplicate_tags, check_pdt_alignment, check_pdt_coverage,
    check_playlist_type_endlist, check_rendition_group_references, check_segment_count,
    check_stream_inf_consistency, check_target_duration_compliance,
    check_targetduration_consistency, check_version_compatibility,
};
use std::collections::HashSet;

// ── Helpers ──────────────────────────────────────────────────────────────────

fn seconds(s: f64) -> Double {
    Double::from_bits(s.to_bits())
}

fn milliseconds(ms: f64) -> Double {
    Double::from_bits(ms.to_bits())
}

fn make_playlist(name: &str, content: &str) -> MediaPlaylist {
    let mut pl =
        MediaPlaylist::new(name.to_string(), format!("https://cdn.example.com/{name}.m3u8"));
    pl.raw_content = content.to_string();
    pl
}

fn make_segment(uri: &str, duration: f64) -> Segment {
    Segment {
        uri: uri.to_string(),
        duration: seconds(duration),
        title: None,
        pdt: None,
        discontinuity: false,
        byterange: None,
        is_ad: false,
        map_uri: None,
    }
}

fn make_segment_with_pdt(uri: &str, duration: f64, pdt: f64) -> Segment {
    Segment { pdt: Some(seconds(pdt)), ..make_segment(uri, duration) }
}

fn tag_attributes(rest: &str) -> Attributes {
    let chars: Vec<char> = rest.chars().collect();
    parse_attributes(&chars)
}

fn seconds_of(text: Option<String>) -> Option<Double> {
    text.and_then(|t| t.parse::<f64>().ok()).map(seconds)
}

fn integer_of(text: Option<String>, default: i64) -> i64 {
    text.and_then(|t| t.parse::<i64>().ok()).unwrap_or(default)
}

/// Days from the Unix epoch to a date of the Gregorian calendar.
fn days_from_epoch(year: i64, month: i64, day: i64) -> i64 {
    let y = if month <= 2 { year - 1 } else { year };
    let era = y.div_euclid(400);
    let year_of_era = y.rem_euclid(400);
    let day_of_year = (153 * ((month + 9) % 12) + 2) / 5 + day - 1;
    let day_of_era = year_of_era * 365 + year_of_era / 4 - year_of_era / 100 + day_of_year;
    era * 146_097 + day_of_era - 719_468
}

/// A date of the form `2024-01-15T12:00:00Z`.
fn date_of(text: &str) -> Option<Double> {
    let field = |from: usize, to: usize| text.get(from..to)?.parse::<i64>().ok();
    let days = days_from_epoch(field(0, 4)?, field(5, 7)?, field(8, 10)?);
    let time = field(11, 13)? * 3600 + field(14, 16)? * 60 + field(17, 19)?;
    Some(seconds((days * 86_400 + time) as f64))
}

/// Reads a media playlist. A segment without a program date has that of the
/// segment before it, plus the duration of that segment, unless a discontinuity
/// stands between them.
fn parse_playlist(name: &str, content: &str) -> MediaPlaylist {
    let mut pl = make_playlist(name, content);
    let mut duration: Option<f64> = None;
    let mut pdt: Option<Double> = None;
    let mut discontinuity = false;
    let mut byterange: Option<String> = None;
    for line in content.lines().map(str::trim).filter(|l| !l.is_empty()) {
        if let Some(v) = line.strip_prefix("#EXT-X-VERSION:") {
            pl.version = v.parse().unwrap_or(1);
        } else if let Some(v) = line.strip_prefix("#EXT-X-TARGETDURATION:") {
            pl.target_duration = seconds(v.parse().unwrap_or(0.0));
        } else if let Some(v) = line.strip_prefix("#EXT-X-MEDIA-SEQUENCE:") {
            pl.media_sequence = v.parse().unwrap_or(0);
        } else if let Some(v) = line.strip_prefix("#EXT-X-DISCONTINUITY-SEQUENCE:") {
            pl.discontinuity_sequence = v.parse().unwrap_or(0);
        } else if let Some(v) = line.strip_prefix("#EXT-X-PLAYLIST-TYPE:") {
            pl.playlist_type = Some(v.to_string());
        } else if line == "#EXT-X-I-FRAMES-ONLY" {
            pl.iframes_only = true;
        } else if line == "#EXT-X-ENDLIST" {
            pl.has_endlist = true;
        } else if let Some(v) = line.strip_prefix("#EXT-X-KEY:") {
            if let Some(method) = tag_attributes(v).get("METHOD") {
                pl.encryption_methods.insert(method);
            }
        } else if let Some(v) = line.strip_prefix("#EXT-X-PART-INF:") {
            pl.part_target = seconds_of(tag_attributes(v).get("PART-TARGET"));
        } else if let Some(v) = line.strip_prefix("#EXT-X-SERVER-CONTROL:") {
            let a = tag_attributes(v);
            pl.server_control = Some(ServerControl {
                hold_back: seconds_of(a.get("HOLD-BACK")),
                part_hold_back: seconds_of(a.get("PART-HOLD-BACK")),
                can_block_reload: a.get("CAN-BLOCK-RELOAD").as_deref() == Some("YES"),
                can_skip_until: seconds_of(a.get("CAN-SKIP-UNTIL")),
            });
        } else if let Some(v) = line.strip_prefix("#EXT-X-PART:") {
            let a = tag_attributes(v);
            pl.parts.push(PartialSegment {
                uri: a.get("URI").unwrap_or_default(),
                duration: seconds_of(a.get("DURATION")).unwrap_or(Double::zero()),
                independent: a.get("INDEPENDENT").as_deref() == Some("YES"),
            });
        } else if let Some(v) = line.strip_prefix("#EXT-X-PRELOAD-HINT:") {
            let a = tag_attributes(v);
            pl.preload_hint_uri = a.get("URI");
            pl.preload_hint_type = a.get("TYPE");
        } else if let Some(v) = line.strip_prefix("#EXT-X-RENDITION-REPORT:") {
            let a = tag_attributes(v);
            pl.rendition_reports.push(RenditionReport {
                uri: a.get("URI").unwrap_or_default(),
                last_msn: integer_of(a.get("LAST-MSN"), -1),
                last_part: integer_of(a.get("LAST-PART"), -1),
            });
        } else if let Some(v) = line.strip_prefix("#EXT-X-PROGRAM-DATE-TIME:") {
            pdt = date_of(v);
        } else if line == "#EXT-X-DISCONTINUITY" {
            discontinuity = true;
        } else if let Some(v) = line.strip_prefix("#EXT-X-BYTERANGE:") {
            byterange = Some(v.to_string());
        } else if let Some(v) = line.strip_prefix("#EXTINF:") {
            duration = v.split(',').next().and_then(|d| d.parse().ok());
        } else if !line.starts_with('#') {
            match duration.take() {
                Some(d) => {
                    let mut segment = make_segment(line, d);
                    let continued = pl.segments.last().and_then(|s| match s.pdt {
                        Some(p) if !discontinuity => {
                            Some(p.plus(s.duration))
                        }
                        _ => None,
                    });
                    segment.pdt = pdt.take().or(continued);
                    segment.discontinuity = discontinuity;
                    segment.byterange = byterange.take();
                    pl.segments.push(segment);
                    discontinuity = false;
                }
                None => pl.parse_issues.push(
                    Issue::on_rendition(
                        Severity::Error,
                        name,
                        format!("URI '{line}' in '{name}' has no EXTINF."),
                    )
                    .raised_by(CheckId::SegmentStructure),
                ),
            }
        }
    }
    pl
}

fn parse_master(content: &str) -> MasterPlaylist {
    let mut master = MasterPlaylist {
        url: "https://cdn.example.com/master.m3u8".to_string(),
        raw_content: content.to_string(),
        version: 1,
        variants: Vec::new(),
        media_renditions: Vec::new(),
    };
    let mut stream: Option<Attributes> = None;
    for line in content.lines().map(str::trim).filter(|l| !l.is_empty()) {
        if let Some(v) = line.strip_prefix("#EXT-X-VERSION:") {
            master.version = v.parse().unwrap_or(1);
        } else if let Some(v) = line.strip_prefix("#EXT-X-MEDIA:") {
            let a = tag_attributes(v);
            master.media_renditions.push(MediaRendition {
                media_type: a.get("TYPE").unwrap_or_default(),
                group_id: a.get("GROUP-ID").unwrap_or_default(),
                name: a.get("NAME").unwrap_or_default(),
                uri: a.get("URI"),
            });
        } else if let Some(v) = line.strip_prefix("#EXT-X-STREAM-INF:") {
            stream = Some(tag_attributes(v));
        } else if !line.starts_with('#') {
            if let Some(a) = stream.take() {
                master.variants.push(MasterRendition {
                    uri: line.to_string(),
                    bandwidth: a.get("BANDWIDTH").and_then(|b| b.parse().ok()),
                    codecs: a.get("CODECS"),
                    audio_group: a.get("AUDIO"),
                    subtitle_group: a.get("SUBTITLES"),
                    closed_captions: a.get("CLOSED-CAPTIONS"),
                    video_group: a.get("VIDEO"),
                });
            }
        }
    }
    master
}

fn errors(issues: &[Issue]) -> Vec<&Issue> {
    issues.iter().filter(|i| i.severity == Severity::Error).collect()
}

// ── check_extm3u_header ───────────────────────────────────────────────────

#[test]
fn extm3u_header_passes_when_first_line_is_extm3u() {
    let pl = make_playlist("v", "#EXTM3U\n#EXT-X-TARGETDURATION:6\n");
    let issues = check_extm3u_header(&[pl]);
    assert!(issues.is_empty(), "expected no issues, got: {:?}", issues);
}

#[test]
fn extm3u_header_errors_when_first_line_is_missing() {
    let pl = make_playlist("v", "#EXT-X-TARGETDURATION:6\n#EXTM3U\n");
    let issues = check_extm3u_header(&[pl]);
    assert_eq!(issues.len(), 1);
    assert_eq!(issues[0].severity, Severity::Error);
}

// ── check_target_duration_compliance ─────────────────────────────────────

#[test]
fn target_duration_missing_produces_error() {
    let pl = make_playlist("v", "#EXTM3U\n");
    let issues = check_target_duration_compliance(&[pl]);
    assert!(issues.iter().any(|i| i.severity == Severity::Error && i.message.contains("missing or zero")));
}

#[test]
fn segment_within_target_duration_passes() {
    let mut pl = make_playlist("v", "#EXTM3U\n#EXT-X-TARGETDURATION:6\n");
    pl.target_duration = seconds(6.0);
    pl.segments = vec![make_segment("seg0.mp4", 5.9)];
    let issues = check_target_duration_compliance(&[pl]);
    assert!(issues.is_empty(), "expected no issues");
}

#[test]
fn segment_rounding_to_target_passes() {
    // 5.5 rounds to 6 which equals TARGETDURATION:6 — should pass
    let mut pl = make_playlist("v", "#EXTM3U\n#EXT-X-TARGETDURATION:6\n");
    pl.target_duration = seconds(6.0);
    pl.segments = vec![make_segment("seg0.mp4", 5.5)];
    let issues = check_target_duration_compliance(&[pl]);
    assert!(issues.is_empty(), "5.5 rounds to 6 = TARGETDURATION, must pass");
}

#[test]
fn segment_exceeding_target_duration_errors() {
    // 7.807 rounds to 8 > 6 → ERROR
    let mut pl = make_playlist("v", "#EXTM3U\n#EXT-X-TARGETDURATION:6\n");
    pl.target_duration = seconds(6.0);
    pl.segments = vec![make_segment("seg-bad.mp4", 7.807)];
    let issues = check_target_duration_compliance(&[pl]);
    assert!(issues.iter().any(|i| i.severity == Severity::Error && i.message.contains("exceeds TARGETDURATION")));
}

#[test]
fn targetduration_much_larger_than_max_segment_warns() {
    // TARGETDURATION=10, max segment=3.9 → WARN because 10 > 3+1=4
    let mut pl = make_playlist("v", "#EXTM3U\n#EXT-X-TARGETDURATION:10\n");
    pl.target_duration = seconds(10.0);
    pl.segments = vec![make_segment("seg0.mp4", 3.9), make_segment("seg1.mp4", 3.9)];
    let issues = check_target_duration_compliance(&[pl]);
    assert!(issues.iter().any(|i| i.severity == Severity::Warn && i.message.contains("more than 1s above")));
}

// ── check_pdt_coverage ────────────────────────────────────────────────────

#[test]
fn pdt_coverage_all_present_no_issues() {
    let mut pl = make_playlist("v", "#EXTM3U\n");
    let base = 1_700_000_000.0_f64;
    pl.segments = vec![
        make_segment_with_pdt("s0.mp4", 4.0, base),
        make_segment_with_pdt("s1.mp4", 4.0, base + 4.0),
    ];
    let issues = check_pdt_coverage(&[pl]);
    assert!(issues.is_empty());
}

#[test]
fn pdt_coverage_partial_warns() {
    let mut pl = make_playlist("v", "#EXTM3U\n");
    pl.segments = vec![
        make_segment_with_pdt("s0.mp4", 4.0, 1_700_000_000.0),
        make_segment("s1.mp4", 4.0),  // no PDT
    ];
    let issues = check_pdt_coverage(&[pl]);
    assert!(issues.iter().any(|i| i.severity == Severity::Warn && i.message.contains("partial PDT")));
}

#[test]
fn pdt_coverage_none_no_issues() {
    let mut pl = make_playlist("v", "#EXTM3U\n");
    pl.segments = vec![make_segment("s0.mp4", 4.0), make_segment("s1.mp4", 4.0)];
    let issues = check_pdt_coverage(&[pl]);
    assert!(issues.is_empty());
}

// ── check_media_sequence_duplicate_tags ───────────────────────────────────

#[test]
fn duplicate_targetduration_errors() {
    let content = "#EXTM3U\n#EXT-X-TARGETDURATION:6\n#EXT-X-TARGETDURATION:4\n";
    let pl = make_playlist("v", content);
    let issues = check_media_sequence_duplicate_tags(&[pl]);
    assert!(issues.iter().any(|i| i.severity == Severity::Error && i.message.contains("EXT-X-TARGETDURATION")));
}

#[test]
fn single_targetduration_passes() {
    let content = "#EXTM3U\n#EXT-X-TARGETDURATION:6\n";
    let pl = make_playlist("v", content);
    let issues = check_media_sequence_duplicate_tags(&[pl]);
    assert!(issues.is_empty());
}

// ── check_live_playlist_min_segments ─────────────────────────────────────

#[test]
fn live_playlist_with_two_segments_errors() {
    let mut pl = make_playlist("v", "#EXTM3U\n");
    pl.has_endlist = false;
    pl.segments = vec![make_segment("s0.mp4", 4.0), make_segment("s1.mp4", 4.0)];
    let issues = check_live_playlist_min_segments(&[pl]);
    assert!(issues.iter().any(|i| i.severity == Severity::Error && i.message.contains("at least 3 segments")));
}

#[test]
fn vod_playlist_with_two_segments_passes_min_segment_check() {
    let mut pl = make_playlist("v", "#EXTM3U\n#EXT-X-ENDLIST\n");
    pl.has_endlist = true;
    pl.segments = vec![make_segment("s0.mp4", 4.0), make_segment("s1.mp4", 4.0)];
    let issues = check_live_playlist_min_segments(&[pl]);
    assert!(issues.is_empty(), "VOD playlist must not trigger live-segment count check");
}

// ── check_playlist_type_endlist ───────────────────────────────────────────

#[test]
fn vod_without_endlist_errors() {
    let mut pl = make_playlist("v", "#EXTM3U\n#EXT-X-PLAYLIST-TYPE:VOD\n");
    pl.playlist_type = Some("VOD".to_string());
    pl.has_endlist = false;
    let issues = check_playlist_type_endlist(&[pl]);
    assert!(issues.iter().any(|i| i.severity == Severity::Error && i.message.contains("PLAYLIST-TYPE:VOD")));
}

#[test]
fn vod_with_endlist_passes() {
    let mut pl = make_playlist("v", "#EXTM3U\n#EXT-X-PLAYLIST-TYPE:VOD\n#EXT-X-ENDLIST\n");
    pl.playlist_type = Some("VOD".to_string());
    pl.has_endlist = true;
    let issues = check_playlist_type_endlist(&[pl]);
    assert!(issues.is_empty());
}

#[test]
fn event_without_endlist_passes() {
    // EVENT playlist without ENDLIST is valid during a live event
    let mut pl = make_playlist("v", "#EXTM3U\n#EXT-X-PLAYLIST-TYPE:EVENT\n");
    pl.playlist_type = Some("EVENT".to_string());
    pl.has_endlist = false;
    let issues = check_playlist_type_endlist(&[pl]);
    assert!(issues.is_empty());
}

// ── check identity ────────────────────────────────────────────────────────

/// Every finding the checks can produce has to name the check that produced it, because
/// the report groups findings by that name and anything unnamed lands in a catch-all row.
#[test]
fn every_check_names_itself_on_every_finding() {
    let broken = parse_playlist(
        "broken",
        "#EXT-X-TARGETDURATION:6\n\
         #EXT-X-VERSION:1\n\
         #EXT-X-TARGETDURATION:6\n\
         #EXT-X-KEY:METHOD=AES-128,URI=\"k\"\n\
         #EXT-X-MAP:URI=\"init.mp4\"\n\
         #EXT-X-DISCONTINUITY-SEQUENCE:2\n\
         #EXT-X-PART-INF:PART-TARGET=1.0\n\
         #EXT-X-SERVER-CONTROL:CAN-SKIP-UNTIL=6.0,HOLD-BACK=1.0\n\
         #EXT-X-DATERANGE:ID=\"ad-1\",CLASS=\"com.apple.hls.interstitial\",\
         START-DATE=\"2024-01-15T12:00:00Z\"\n\
         #EXT-X-PART:DURATION=2.0,URI=\"p0.m4s\"\n\
         #EXTINF:7.807,\n\
         #EXT-X-PROGRAM-DATE-TIME:2024-01-15T12:00:00Z\n\
         s0.m4s\n\
         #EXT-X-DISCONTINUITY\n\
         #EXTINF:4.5,\ns1.m4s\n\
         orphan.m4s\n\
         #EXT-X-MEDIA-SEQUENCE:10\n",
    );
    let other = parse_playlist(
        "other",
        "#EXTM3U\n#EXT-X-VERSION:9\n#EXT-X-TARGETDURATION:4\n\
         #EXT-X-MEDIA-SEQUENCE:10\n#EXT-X-DISCONTINUITY-SEQUENCE:5\n\
         #EXT-X-KEY:METHOD=NONE\n#EXT-X-PLAYLIST-TYPE:VOD\n\
         #EXTINF:4.0,\ns0.m4s\n#EXTINF:4.0,\ns1.m4s\n",
    );
    let master = parse_master(
        "#EXT-X-VERSION:6\n#EXT-X-VERSION:7\n\
         #EXT-X-DEFINE:NAME=\"h\",VALUE=\"https://cdn\"\n\
         #EXT-X-MEDIA:TYPE=AUDIO,GROUP-ID=\"a1\",NAME=\"en\",URI=\"a.m3u8\"\n\
         #EXT-X-MEDIA:TYPE=AUDIO,GROUP-ID=\"a2\",NAME=\"fr\",URI=\"b.m3u8\"\n\
         #EXT-X-STREAM-INF:AUDIO=\"missing\",CODECS=\"avc1.64001f\"\nv.m3u8\n\
         #EXT-X-STREAM-INF:BANDWIDTH=1000,CODECS=\"hvc1.2.4.L153\"\nv.m3u8\n",
    );

    let playlists = [broken, other];
    let mut findings: Vec<Issue> = Vec::new();
    for pl in &playlists {
        findings.extend(pl.parse_issues.iter().cloned());
    }
    findings.extend(check_extm3u_header(&playlists));
    findings.extend(check_target_duration_compliance(&playlists));
    findings.extend(check_pdt_coverage(&playlists));
    findings.extend(check_media_sequence_duplicate_tags(&playlists));
    findings.extend(check_version_compatibility(&playlists));
    findings.extend(check_live_playlist_min_segments(&playlists));
    findings.extend(check_targetduration_consistency(&playlists));
    findings.extend(check_playlist_type_endlist(&playlists));
    findings.extend(check_encryption_consistency(&playlists));
    findings.extend(check_discontinuity_sequence(&playlists));
    findings.extend(check_segment_count(&playlists));
    findings.extend(check_duration_drift(&playlists, milliseconds(100.0)));
    findings.extend(check_pdt_alignment(&playlists, milliseconds(100.0)));
    findings.extend(check_cumulative_drift(&playlists, milliseconds(100.0)));
    findings.extend(check_ll_hls_compliance(&playlists));
    findings.extend(check_media_sequence_continuity(&playlists));
    findings.extend(check_interstitials(&playlists).0);
    findings.extend(check_master_structure(&master));
    findings.extend(check_stream_inf_consistency(&master));
    findings.extend(check_bandwidth_required(&master));
    findings.extend(check_media_group_membership(&master));
    findings.extend(check_rendition_group_references(&master));

    let unnamed: Vec<&str> = findings.iter()
        .filter(|i| i.check_id == CheckId::Unassigned)
        .map(|i| i.message.as_str())
        .collect();
    assert!(unnamed.is_empty(), "findings that name no check: {unnamed:#?}");

    // Every check the fixture reaches. PdtAlignment and SegmentCount need renditions that
    // it does not have, and DeltaUpdates and PlaylistFetch are raised while fetching.
    let named: HashSet<CheckId> = findings.iter().map(|i| i.check_id).collect();
    let expected = [
        CheckId::BandwidthRequired,
        CheckId::CumulativeDrift,
        CheckId::DiscontinuitySequence,
        CheckId::DurationDrift,
        CheckId::EncryptionConsistency,
        CheckId::ExtM3uHeader,
        CheckId::Interstitials,
        CheckId::LlHls,
        CheckId::LivePlaylistWindow,
        CheckId::MediaGroupMembership,
        CheckId::MediaSequenceTags,
        CheckId::PdtCoverage,
        CheckId::PlaylistTypeEndlist,
        CheckId::RenditionGroupReferences,
        CheckId::SegmentStructure,
        CheckId::SingletonTags,
        CheckId::StreamInfConsistency,
        CheckId::TargetDurationCompliance,
        CheckId::TargetDurationConsistency,
        CheckId::VersionCompatibility,
    ];
    let missing: Vec<CheckId> = expected.iter()
        .filter(|id| !named.contains(id))
        .copied()
        .collect();
    assert!(
        missing.is_empty(),
        "these checks stopped reporting, or stopped naming themselves: {missing:?}"
    );
}

// ── check_media_sequence_continuity ───────────────────────────────────────

#[test]
fn segment_uri_numbers_are_not_read_as_media_sequence_numbers() {
    // The MSN of the first segment is the value of EXT-X-MEDIA-SEQUENCE and nothing else.
    // Numeric segment file names that do not line up with it are not a violation.
    let pl = parse_playlist(
        "v",
        "#EXTM3U\n\
         #EXT-X-TARGETDURATION:4\n\
         #EXT-X-MEDIA-SEQUENCE:10\n\
         #EXTINF:4.0,\n151674692.m4v\n\
         #EXTINF:4.0,\n151674693.m4v\n\
         #EXTINF:4.0,\n20260715T225158-151674694-03-ts.m4v\n",
    );
    let issues = check_media_sequence_continuity(&[pl]);
    assert!(issues.is_empty(), "URI-derived MSNs must not be reported: {issues:?}");
}

#[test]
fn media_sequence_without_the_tag_warns_on_live_only() {
    let live = parse_playlist(
        "live",
        "#EXTM3U\n#EXT-X-TARGETDURATION:4\n\
         #EXTINF:4.0,\ns0.m4s\n#EXTINF:4.0,\ns1.m4s\n",
    );
    let issues = check_media_sequence_continuity(&[live]);
    assert_eq!(issues.len(), 1);
    assert_eq!(issues[0].severity, Severity::Warn, "the tag is a SHOULD for live playlists");

    let vod = parse_playlist(
        "vod",
        "#EXTM3U\n#EXT-X-TARGETDURATION:4\n\
         #EXTINF:4.0,\ns0.m4s\n#EXTINF:4.0,\ns1.m4s\n#EXT-X-ENDLIST\n",
    );
    assert!(check_media_sequence_continuity(&[vod]).is_empty());
}

#[test]
fn media_sequence_after_the_first_segment_is_found_across_intervening_tags() {
    // The first segment URI is three lines below its EXTINF.
    let pl = parse_playlist(
        "v",
        "#EXTM3U\n\
         #EXT-X-TARGETDURATION:4\n\
         #EXT-X-KEY:METHOD=AES-128,URI=\"k\"\n\
         #EXTINF:4.0,\n\
         #EXT-X-PROGRAM-DATE-TIME:2024-01-15T12:00:00Z\n\
         #EXT-X-BYTERANGE:1000@0\n\
         s0.m4s\n\
         #EXT-X-MEDIA-SEQUENCE:10\n\
         #EXTINF:4.0,\ns1.m4s\n",
    );
    let issues = check_media_sequence_continuity(&[pl]);
    assert!(
        errors(&issues).iter().any(|i| i.message.contains("MUST appear before")),
        "expected a tag-order error: {issues:?}"
    );
}

#[test]
fn media_sequence_before_the_first_segment_passes_with_intervening_tags() {
    let pl = parse_playlist(
        "v",
        "#EXTM3U\n\
         #EXT-X-TARGETDURATION:4\n\
         #EXT-X-MEDIA-SEQUENCE:10\n\
         #EXTINF:4.0,\n\
         #EXT-X-BYTERANGE:1000@0\n\
         s0.m4s\n",
    );
    assert!(check_media_sequence_continuity(&[pl]).is_empty());
}

// ── check_targetduration_consistency ─────────────────────────────────────

#[test]
fn targetduration_mismatch_across_renditions_errors() {
    let a = parse_playlist("v0", "#EXTM3U\n#EXT-X-TARGETDURATION:6\n#EXTINF:6.0,\ns0.m4s\n");
    let b = parse_playlist("v1", "#EXTM3U\n#EXT-X-TARGETDURATION:4\n#EXTINF:4.0,\ns0.m4s\n");
    let issues = check_targetduration_consistency(&[a, b]);
    assert_eq!(issues.len(), 1);
    assert_eq!(issues[0].severity, Severity::Error, "a MUST");
}

#[test]
fn vod_iframe_playlist_may_declare_its_own_targetduration() {
    let video = parse_playlist(
        "v0",
        "#EXTM3U\n#EXT-X-TARGETDURATION:6\n#EXT-X-PLAYLIST-TYPE:VOD\n\
         #EXTINF:6.0,\ns0.m4s\n#EXT-X-ENDLIST\n",
    );
    let trick = parse_playlist(
        "iframe",
        "#EXTM3U\n#EXT-X-TARGETDURATION:60\n#EXT-X-PLAYLIST-TYPE:VOD\n\
         #EXT-X-I-FRAMES-ONLY\n#EXTINF:60.0,\ni0.m4s\n#EXT-X-ENDLIST\n",
    );
    let issues = check_targetduration_consistency(&[video, trick]);
    assert!(issues.is_empty(), "VOD I-frame playlists are exempt: {issues:?}");
}

// ── check_discontinuity_sequence ──────────────────────────────────────────

#[test]
fn discontinuity_sequence_mismatch_errors() {
    let a = parse_playlist(
        "v0",
        "#EXTM3U\n#EXT-X-TARGETDURATION:4\n#EXT-X-DISCONTINUITY-SEQUENCE:2\n\
         #EXTINF:4.0,\ns0.m4s\n",
    );
    let b = parse_playlist(
        "v1",
        "#EXTM3U\n#EXT-X-TARGETDURATION:4\n#EXT-X-DISCONTINUITY-SEQUENCE:5\n\
         #EXTINF:4.0,\ns0.m4s\n",
    );
    let issues = check_discontinuity_sequence(&[a, b]);
    assert_eq!(issues.len(), 1);
    assert_eq!(issues[0].severity, Severity::Error);
    assert_eq!(issues[0].check_id, CheckId::DiscontinuitySequence);
}

// ── check_encryption_consistency ──────────────────────────────────────────

#[test]
fn a_clear_rendition_alongside_an_encrypted_one_warns_but_does_not_fail() {
    let encrypted = parse_playlist(
        "v0",
        "#EXTM3U\n#EXT-X-TARGETDURATION:4\n\
         #EXT-X-KEY:METHOD=AES-128,URI=\"k\"\n#EXTINF:4.0,\ns0.m4s\n",
    );
    let clear = parse_playlist(
        "iframe",
        "#EXTM3U\n#EXT-X-TARGETDURATION:4\n\
         #EXT-X-KEY:METHOD=NONE\n#EXTINF:4.0,\ni0.m4s\n",
    );
    let issues = check_encryption_consistency(&[encrypted, clear]);
    assert!(
        errors(&issues).is_empty(),
        "a mixed clear/encrypted presentation must not fail the run: {issues:?}"
    );
    assert!(issues.iter().any(|i| i.severity == Severity::Warn), "but it is worth a warning");
}

// ── check_version_compatibility ───────────────────────────────────────────

#[test]
fn map_without_iframes_only_requires_version_6() {
    let v5 = parse_playlist(
        "v",
        "#EXTM3U\n#EXT-X-VERSION:5\n#EXT-X-TARGETDURATION:4\n\
         #EXT-X-MAP:URI=\"init.mp4\"\n#EXTINF:4.0,\ns0.m4s\n",
    );
    let issues = check_version_compatibility(&[v5]);
    assert!(
        errors(&issues).iter().any(|i| i.message.contains("VERSION >= 6")),
        "EXT-X-MAP outside an I-frame playlist needs v6: {issues:?}"
    );

    let v6 = parse_playlist(
        "v",
        "#EXTM3U\n#EXT-X-VERSION:6\n#EXT-X-TARGETDURATION:4\n\
         #EXT-X-MAP:URI=\"init.mp4\"\n#EXTINF:4.0,\ns0.m4s\n",
    );
    assert!(check_version_compatibility(&[v6]).is_empty());
}

#[test]
fn map_in_an_iframes_only_playlist_is_allowed_at_version_5() {
    let pl = parse_playlist(
        "iframe",
        "#EXTM3U\n#EXT-X-VERSION:5\n#EXT-X-TARGETDURATION:60\n#EXT-X-I-FRAMES-ONLY\n\
         #EXT-X-MAP:URI=\"init.mp4\"\n#EXTINF:60.0,\ni0.m4s\n",
    );
    let issues = check_version_compatibility(&[pl]);
    assert!(issues.is_empty(), "MAP is allowed at v5 with I-FRAMES-ONLY: {issues:?}");
}

// ── check_ll_hls_compliance ───────────────────────────────────────────────

fn ll_playlist(server_control: &str, part_inf: bool, independent_first_part: bool) -> MediaPlaylist {
    let first_part = if independent_first_part { ",INDEPENDENT=YES" } else { "" };
    let content = format!(
        "#EXTM3U\n#EXT-X-VERSION:9\n#EXT-X-TARGETDURATION:4\n\
         #EXT-X-MEDIA-SEQUENCE:1\n\
         {server_control}\n\
         {}\
         #EXT-X-PART:DURATION=1.0,URI=\"p0.m4s\"{first_part}\n\
         #EXT-X-PART:DURATION=1.0,URI=\"p1.m4s\"\n\
         #EXTINF:4.0,\ns0.m4s\n",
        if part_inf { "#EXT-X-PART-INF:PART-TARGET=1.0\n" } else { "" },
    );
    parse_playlist("v", &content)
}

#[test]
fn a_dependent_first_part_is_not_an_error() {
    // INDEPENDENT is an OPTIONAL attribute, only recommended on the first part.
    let pl = ll_playlist(
        "#EXT-X-SERVER-CONTROL:CAN-BLOCK-RELOAD=YES,PART-HOLD-BACK=3.0,HOLD-BACK=12.0",
        true,
        false,
    );
    let issues = check_ll_hls_compliance(&[pl]);
    assert!(
        !issues.iter().any(|i| i.message.contains("INDEPENDENT")),
        "a dependent first part must not be reported: {issues:?}"
    );
}

#[test]
fn a_missing_can_block_reload_is_not_an_error() {
    let pl = ll_playlist(
        "#EXT-X-SERVER-CONTROL:PART-HOLD-BACK=3.0,HOLD-BACK=12.0",
        true,
        true,
    );
    let issues = check_ll_hls_compliance(&[pl]);
    assert!(
        !issues.iter().any(|i| i.message.contains("CAN-BLOCK-RELOAD")),
        "CAN-BLOCK-RELOAD is how a server advertises blocking reload, not a requirement \
         on the playlist: {issues:?}"
    );
}

#[test]
fn part_inf_without_part_hold_back_errors() {
    let pl = ll_playlist(
        "#EXT-X-SERVER-CONTROL:CAN-BLOCK-RELOAD=YES,HOLD-BACK=12.0",
        true,
        true,
    );
    let issues = check_ll_hls_compliance(&[pl]);
    assert!(
        errors(&issues).iter().any(|i| i.message.contains("PART-HOLD-BACK")
            && i.message.contains("REQUIRED")),
        "PART-HOLD-BACK is REQUIRED alongside EXT-X-PART-INF: {issues:?}"
    );
}

#[test]
fn part_hold_back_present_satisfies_the_requirement() {
    let pl = ll_playlist(
        "#EXT-X-SERVER-CONTROL:CAN-BLOCK-RELOAD=YES,PART-HOLD-BACK=3.0,HOLD-BACK=12.0",
        true,
        true,
    );
    let issues = check_ll_hls_compliance(&[pl]);
    assert!(
        !issues.iter().any(|i| i.message.contains("no PART-HOLD-BACK")),
        "unexpected PART-HOLD-BACK finding: {issues:?}"
    );
}

// ── check_stream_inf_consistency ──────────────────────────────────────────

#[test]
fn same_uri_and_groups_with_different_codecs_warns() {
    let master = parse_master(
        "#EXTM3U\n\
         #EXT-X-MEDIA:TYPE=AUDIO,GROUP-ID=\"aac\",NAME=\"en\",URI=\"a.m3u8\"\n\
         #EXT-X-STREAM-INF:BANDWIDTH=1000,AUDIO=\"aac\",CODECS=\"avc1.64001f,mp4a.40.2\"\nv.m3u8\n\
         #EXT-X-STREAM-INF:BANDWIDTH=1000,AUDIO=\"aac\",CODECS=\"avc1.64001f,mp4a.40.5\"\nv.m3u8\n",
    );
    let issues = check_stream_inf_consistency(&master);
    assert_eq!(issues.len(), 1, "{issues:?}");
    assert_eq!(issues[0].severity, Severity::Warn, "a CODECS mismatch must not fail the run");
    assert!(issues[0].message.contains("§4.4.6.2"), "citation: {}", issues[0].message);
}

#[test]
fn same_uri_with_different_subtitle_groups_is_a_different_variant_stream() {
    // Two Variant Streams sharing a video URI but pairing it with different SUBTITLES
    // groups describe different presentations; their CODECS and BANDWIDTH may differ.
    let master = parse_master(
        "#EXTM3U\n\
         #EXT-X-MEDIA:TYPE=SUBTITLES,GROUP-ID=\"subs-en\",NAME=\"en\",URI=\"en.m3u8\"\n\
         #EXT-X-MEDIA:TYPE=SUBTITLES,GROUP-ID=\"subs-fr\",NAME=\"fr\",URI=\"fr.m3u8\"\n\
         #EXT-X-STREAM-INF:BANDWIDTH=1000,SUBTITLES=\"subs-en\",CODECS=\"avc1.64001f\"\nv.m3u8\n\
         #EXT-X-STREAM-INF:BANDWIDTH=1200,SUBTITLES=\"subs-fr\",CODECS=\"avc1.64001f,mp4a.40.2\"\nv.m3u8\n",
    );
    let issues = check_stream_inf_consistency(&master);
    assert!(issues.is_empty(), "expected no findings: {issues:?}");
}

#[test]
fn same_uri_with_different_video_codecs_errors() {
    let master = parse_master(
        "#EXTM3U\n\
         #EXT-X-MEDIA:TYPE=AUDIO,GROUP-ID=\"aac\",NAME=\"en\",URI=\"a.m3u8\"\n\
         #EXT-X-MEDIA:TYPE=AUDIO,GROUP-ID=\"ec3\",NAME=\"en\",URI=\"a2.m3u8\"\n\
         #EXT-X-STREAM-INF:BANDWIDTH=1000,AUDIO=\"aac\",CODECS=\"avc1.64001f,mp4a.40.2\"\nv.m3u8\n\
         #EXT-X-STREAM-INF:BANDWIDTH=1400,AUDIO=\"ec3\",CODECS=\"hvc1.2.4.L153,ec-3\"\nv.m3u8\n",
    );
    let issues = check_stream_inf_consistency(&master);
    let errs = errors(&issues);
    assert_eq!(errs.len(), 1, "{issues:?}");
    assert!(errs[0].message.contains("§6.2.4"), "citation: {}", errs[0].message);
}

#[test]
fn same_uri_with_different_video_groups_is_a_different_variant_stream() {
    // VIDEO pairs a Variant Stream with an alternative video rendition group the same way
    // AUDIO does, so it is part of what makes two STREAM-INF entries the same stream.
    let master = parse_master(
        "#EXTM3U\n\
         #EXT-X-MEDIA:TYPE=VIDEO,GROUP-ID=\"cam-main\",NAME=\"main\",URI=\"m.m3u8\"\n\
         #EXT-X-MEDIA:TYPE=VIDEO,GROUP-ID=\"cam-alt\",NAME=\"alt\",URI=\"c.m3u8\"\n\
         #EXT-X-STREAM-INF:BANDWIDTH=1000,VIDEO=\"cam-main\",CODECS=\"avc1.64001f\"\nv.m3u8\n\
         #EXT-X-STREAM-INF:BANDWIDTH=1200,VIDEO=\"cam-alt\",CODECS=\"avc1.64001f,mp4a.40.2\"\nv.m3u8\n",
    );
    let issues = check_stream_inf_consistency(&master);
    assert!(issues.is_empty(), "expected no findings: {issues:?}");
}

#[test]
fn same_uri_and_groups_with_different_bandwidth_warns() {
    let master = parse_master(
        "#EXTM3U\n\
         #EXT-X-STREAM-INF:BANDWIDTH=1000,CODECS=\"avc1.64001f\"\nv.m3u8\n\
         #EXT-X-STREAM-INF:BANDWIDTH=2000,CODECS=\"avc1.64001f\"\nv.m3u8\n",
    );
    let issues = check_stream_inf_consistency(&master);
    assert_eq!(issues.len(), 1, "{issues:?}");
    assert_eq!(issues[0].severity, Severity::Warn);
    assert!(issues[0].message.contains("BANDWIDTH"));
}

// ── check_master_structure ────────────────────────────────────────────────

#[test]
fn master_without_extm3u_errors() {
    let master = parse_master("#EXT-X-STREAM-INF:BANDWIDTH=1000\nv.m3u8\n");
    let issues = check_master_structure(&master);
    assert!(
        errors(&issues).iter().any(|i| i.check_id == CheckId::ExtM3uHeader),
        "{issues:?}"
    );
}

#[test]
fn master_repeating_a_singleton_tag_errors() {
    let master = parse_master(
        "#EXTM3U\n#EXT-X-VERSION:6\n#EXT-X-VERSION:7\n\
         #EXT-X-STREAM-INF:BANDWIDTH=1000\nv.m3u8\n",
    );
    let issues = check_master_structure(&master);
    assert!(
        errors(&issues).iter().any(|i| i.check_id == CheckId::SingletonTags
            && i.message.contains("EXT-X-VERSION")),
        "{issues:?}"
    );
}

#[test]
fn master_using_variable_substitution_below_version_8_errors() {
    let master = parse_master(
        "#EXTM3U\n#EXT-X-VERSION:6\n#EXT-X-DEFINE:NAME=\"host\",VALUE=\"https://cdn\"\n\
         #EXT-X-STREAM-INF:BANDWIDTH=1000\n{$host}/v.m3u8\n",
    );
    let issues = check_master_structure(&master);
    assert!(
        errors(&issues).iter().any(|i| i.check_id == CheckId::VersionCompatibility
            && i.message.contains("VERSION >= 8")),
        "{issues:?}"
    );
}

#[test]
fn a_well_formed_master_produces_no_structural_findings() {
    let master = parse_master(
        "#EXTM3U\n#EXT-X-VERSION:8\n#EXT-X-INDEPENDENT-SEGMENTS\n\
         #EXT-X-DEFINE:NAME=\"host\",VALUE=\"https://cdn\"\n\
         #EXT-X-STREAM-INF:BANDWIDTH=1000\n{$host}/v.m3u8\n",
    );
    assert!(check_master_structure(&master).is_empty());
}

// ── check_rendition_group_references ──────────────────────────────────────

#[test]
fn a_dangling_audio_group_reference_errors() {
    let master = parse_master(
        "#EXTM3U\n\
         #EXT-X-MEDIA:TYPE=AUDIO,GROUP-ID=\"aac\",NAME=\"en\",URI=\"a.m3u8\"\n\
         #EXT-X-STREAM-INF:BANDWIDTH=1000,AUDIO=\"missing\"\nv.m3u8\n",
    );
    let issues = check_rendition_group_references(&master);
    assert_eq!(issues.len(), 1, "{issues:?}");
    assert_eq!(issues[0].severity, Severity::Error);
    assert!(issues[0].message.contains("AUDIO=\"missing\""), "{}", issues[0].message);
}

#[test]
fn dangling_subtitle_and_video_group_references_error() {
    let master = parse_master(
        "#EXTM3U\n\
         #EXT-X-STREAM-INF:BANDWIDTH=1000,SUBTITLES=\"subs\",VIDEO=\"alt\"\nv.m3u8\n",
    );
    let issues = check_rendition_group_references(&master);
    assert_eq!(issues.len(), 2, "{issues:?}");
    assert!(issues.iter().any(|i| i.message.contains("SUBTITLES=\"subs\"")));
    assert!(issues.iter().any(|i| i.message.contains("VIDEO=\"alt\"")));
}

#[test]
fn resolvable_group_references_and_closed_captions_none_pass() {
    let master = parse_master(
        "#EXTM3U\n\
         #EXT-X-MEDIA:TYPE=AUDIO,GROUP-ID=\"aac\",NAME=\"en\",URI=\"a.m3u8\"\n\
         #EXT-X-MEDIA:TYPE=SUBTITLES,GROUP-ID=\"subs\",NAME=\"en\",URI=\"s.m3u8\"\n\
         #EXT-X-STREAM-INF:BANDWIDTH=1000,AUDIO=\"aac\",SUBTITLES=\"subs\",\
         CLOSED-CAPTIONS=NONE\nv.m3u8\n",
    );
    let issues = check_rendition_group_references(&master);
    assert!(issues.is_empty(), "CLOSED-CAPTIONS=NONE is not a group reference: {issues:?}");
}

// ── check_interstitials ───────────────────────────────────────────────────

#[test]
fn interstitial_valid_with_asset_uri() {
    let content = [
        "#EXTM3U\n",
        "#EXT-X-DATERANGE:",
        "ID=\"ad-1\",START-DATE=\"2024-01-15T12:00:00Z\",",
        "CLASS=\"com.apple.hls.interstitial\",",
        "X-ASSET-URI=\"https://ads.example.com/ad.m3u8\"\n",
    ]
    .concat();
    let pl = make_playlist("v", &content);
    let (issues, interstitials) = check_interstitials(&[pl]);
    assert!(issues.is_empty(), "valid interstitial must produce no issues: {:?}", issues);
    assert_eq!(interstitials.len(), 1);
    assert_eq!(interstitials[0].id, "ad-1");
    assert!(interstitials[0].asset_uri.is_some());
}

#[test]
fn interstitial_missing_id_errors() {
    let content = [
        "#EXTM3U\n",
        "#EXT-X-DATERANGE:",
        "START-DATE=\"2024-01-15T12:00:00Z\",",
        "CLASS=\"com.apple.hls.interstitial\",",
        "X-ASSET-URI=\"https://ads.example.com/ad.m3u8\"\n",
    ]
    .concat();
    let pl = make_playlist("v", &content);
    let (issues, _) = check_interstitials(&[pl]);
    assert!(issues.iter().any(|i| i.severity == Severity::Error && i.message.contains("missing ID")));
}

#[test]
fn interstitial_missing_asset_errors() {
    let content = [
        "#EXTM3U\n",
        "#EXT-X-DATERANGE:",
        "ID=\"ad-1\",START-DATE=\"2024-01-15T12:00:00Z\",",
        "CLASS=\"com.apple.hls.interstitial\"\n",
    ]
    .concat();
    let pl = make_playlist("v", &content);
    let (issues, _) = check_interstitials(&[pl]);
    assert!(issues.iter().any(|i| i.severity == Severity::Error && i.message.contains("X-ASSET-URI/X-ASSET-LIST")));
}

#[test]
fn interstitial_both_asset_uri_and_list_errors() {
    let content = [
        "#EXTM3U\n",
        "#EXT-X-DATERANGE:",
        "ID=\"ad-1\",START-DATE=\"2024-01-15T12:00:00Z\",",
        "CLASS=\"com.apple.hls.interstitial\",",
        "X-ASSET-URI=\"https://ads.example.com/ad.m3u8\",",
        "X-ASSET-LIST=\"https://ads.example.com/ads.json\"\n",
    ]
    .concat();
    let pl = make_playlist("v", &content);
    let (issues, _) = check_interstitials(&[pl]);
    assert!(issues.iter().any(|i| i.severity == Severity::Error && i.message.contains("both X-ASSET-URI and X-ASSET-LIST")));
}

#[test]
fn interstitial_invalid_snap_value_warns() {
    let content = [
        "#EXTM3U\n",
        "#EXT-X-DATERANGE:",
        "ID=\"ad-1\",START-DATE=\"2024-01-15T12:00:00Z\",",
        "CLASS=\"com.apple.hls.interstitial\",",
        "X-ASSET-URI=\"https://ads.example.com/ad.m3u8\",",
        "X-SNAP=\"BEFORE\"\n",
    ]
    .concat();
    let pl = make_playlist("v", &content);
    let (issues, _) = check_interstitials(&[pl]);
    assert!(issues.iter().any(|i| i.severity == Severity::Warn && i.message.contains("X-SNAP")));
}
/// A second EXT-X-DATERANGE with the same ID and CLASS is an update, and must not
/// trigger a false "Missing X-ASSET-URI or X-ASSET-LIST" error.
#[test]
fn interstitial_update_tag_no_false_asset_error() {
    // First DATERANGE: the real "OUT" tag with X-ASSET-LIST.
    // Second DATERANGE: same ID + CLASS, no asset attrs (update / IN tag).
    let content = [
        "#EXTM3U\n",
        "#EXT-X-DATERANGE:",
        "ID=\"ad-sle-1\",",
        "START-DATE=\"2024-01-15T12:00:00Z\",",
        "CLASS=\"com.apple.hls.interstitial\",",
        "PLANNED-DURATION=30.0,",
        "X-ASSET-LIST=\"https://ads.example.com/assets.json\"\n",
        // Update tag — same ID, same CLASS, no asset attributes
        "#EXT-X-DATERANGE:",
        "ID=\"ad-sle-1\",",
        "START-DATE=\"2024-01-15T12:00:00Z\",",
        "CLASS=\"com.apple.hls.interstitial\",",
        "X-RESUME-OFFSET=0\n",
    ]
    .concat();
    let pl = make_playlist("v1", &content);
    let (issues, interstitials) = check_interstitials(&[pl]);
    // No errors — the update tag must not trigger a false positive
    let errors: Vec<_> = issues.iter().filter(|i| i.severity == Severity::Error).collect();
    assert!(
        errors.is_empty(),
        "update DATERANGE tag must not produce errors, got: {:?}", errors
    );
    // Only one Interstitial should be created (the first occurrence)
    assert_eq!(interstitials.len(), 1, "update tag must not create a second Interstitial");
    assert!(interstitials[0].asset_list.is_some());
}

