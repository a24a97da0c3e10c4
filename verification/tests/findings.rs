//! The words of each finding, and the cases at the edge of each rule.
use hls_checks::names::NameSet;
use hls_checks::double::Double;
use hls_checks::types::{
    produced_by, CheckId, Issue, MasterPlaylist, MasterRendition, MediaPlaylist, MediaRendition,
    PartialSegment, RenditionReport, Segment, ServerControl, Severity,
};
use hls_checks::{
    check_bandwidth_required, check_cumulative_drift, check_discontinuity_sequence,
    check_duration_drift, check_encryption_consistency, check_extm3u_header,
    check_live_playlist_min_segments, check_ll_hls_compliance, check_master_structure,
    check_media_group_membership, check_media_sequence_continuity,
    check_media_sequence_duplicate_tags, check_pdt_alignment, check_pdt_coverage,
    check_playlist_type_endlist, check_rendition_group_references, check_segment_count,
    check_stream_inf_consistency, check_target_duration_compliance,
    check_targetduration_consistency, check_version_compatibility, overlapping_segments,
    windows_in_range,
};

// ── Helpers ──────────────────────────────────────────────────────────────────

fn seconds(s: f64) -> Double {
    Double::from_bits(s.to_bits())
}

fn milliseconds(ms: f64) -> Double {
    Double::from_bits(ms.to_bits())
}

fn make_playlist(name: &str, content: &str) -> MediaPlaylist {
    let mut pl =
        MediaPlaylist::new(name.to_string(), format!("https://cdn.example.com/{name}.m3u8"));
    pl.raw_content = content.to_string();
    pl
}

fn make_segment(uri: &str, duration: f64) -> Segment {
    Segment {
        uri: uri.to_string(),
        duration: seconds(duration),
        title: None,
        pdt: None,
        discontinuity: false,
        byterange: None,
        is_ad: false,
        map_uri: None,
    }
}

fn with_segments(name: &str, durations: &[f64]) -> MediaPlaylist {
    let mut pl = make_playlist(name, "#EXTM3U\n");
    for (i, d) in durations.iter().enumerate() {
        pl.segments.push(make_segment(&format!("{name}{i}.m4s"), *d));
    }
    pl
}

fn names(list: &[&str]) -> NameSet {
    let mut set = NameSet::new();
    for name in list {
        set.insert(name.to_string());
    }
    set
}

fn variant(uri: &str) -> MasterRendition {
    MasterRendition {
        uri: uri.to_string(),
        bandwidth: Some(1000),
        codecs: None,
        audio_group: None,
        subtitle_group: None,
        closed_captions: None,
        video_group: None,
    }
}

fn rendition(media_type: &str, group: &str, name: &str) -> MediaRendition {
    MediaRendition {
        media_type: media_type.to_string(),
        group_id: group.to_string(),
        name: name.to_string(),
        uri: None,
    }
}

fn master(variants: Vec<MasterRendition>, media: Vec<MediaRendition>) -> MasterPlaylist {
    MasterPlaylist {
        url: "m.m3u8".to_string(),
        raw_content: "#EXTM3U\n".to_string(),
        version: 6,
        variants,
        media_renditions: media,
    }
}

fn messages(issues: &[Issue]) -> Vec<&str> {
    issues.iter().map(|i| i.message.as_str()).collect()
}

// ── The header ───────────────────────────────────────────────────────────────

#[test]
fn header_finding_quotes_the_first_line() {
    let issues = check_extm3u_header(&[make_playlist("v", "  #EXTM3\r\n#EXTM3U\n")]);
    assert_eq!(
        messages(&issues),
        vec!["RFC 8216bis §4.4.1.1: Playlist 'v' does not start with #EXTM3U. First line: '  #EXTM3'"]
    );
    assert_eq!(issues[0].rendition_a.as_deref(), Some("v"));
    assert_eq!(issues[0].segment_index, -1);
    assert_eq!(issues[0].check_id, CheckId::ExtM3uHeader);
}

#[test]
fn header_may_have_space_round_it_but_nothing_else() {
    assert!(check_extm3u_header(&[make_playlist("v", " #EXTM3U\t\r\n")]).is_empty());
    assert_eq!(check_extm3u_header(&[make_playlist("v", "#EXTM3UX\n")]).len(), 1);
    let empty = check_extm3u_header(&[make_playlist("v", "")]);
    assert!(empty[0].message.ends_with("First line: ''"));
}

#[test]
fn repeated_tag_finding_counts() {
    let pl = make_playlist("v", "#EXT-X-VERSION:3\n  #EXT-X-VERSION:4\n#EXT-X-VERSION:5\n");
    let issues = check_media_sequence_duplicate_tags(&[pl]);
    assert_eq!(
        messages(&issues),
        vec![
            "RFC 8216bis §4.4.1.2/§4.4.3: Singleton tag '#EXT-X-VERSION' appears 3 times in 'v'. It MUST appear at most once."
        ]
    );
}

#[test]
fn repeated_tags_are_reported_in_a_fixed_order() {
    let pl = make_playlist(
        "v",
        "#EXT-X-SERVER-CONTROL:A=1\n#EXT-X-START:A=1\n#EXT-X-SERVER-CONTROL:A=1\n#EXT-X-START:A=1\n",
    );
    let issues = check_media_sequence_duplicate_tags(&[pl]);
    assert_eq!(issues.len(), 2);
    assert!(issues[0].message.contains("'#EXT-X-START'"));
    assert!(issues[1].message.contains("'#EXT-X-SERVER-CONTROL'"));
}

#[test]
fn structure_findings_name_the_playlist() {
    let mut m = master(Vec::new(), Vec::new());
    m.url = String::new();
    m.version = 7;
    m.raw_content =
        "#EXT-X-START:A\n#EXT-X-START:B\n#EXT-X-DEFINE:NAME=\"a\",VALUE=\"b\"\n".to_string();
    let issues = check_master_structure(&m);
    assert_eq!(
        messages(&issues),
        vec![
            "RFC 8216bis §4.4.1.1: Multivariant Playlist 'multivariant playlist' does not start with #EXTM3U. First line: '#EXT-X-START:A'",
            "RFC 8216bis §4.4.1.2/§4.4.2: Singleton tag '#EXT-X-START' appears 2 times in Multivariant Playlist 'multivariant playlist'. It MUST appear at most once.",
            "RFC 8216bis §8: Multivariant Playlist 'multivariant playlist' uses EXT-X-DEFINE (variable substitution) which requires VERSION >= 8. Declared version: 7.",
        ]
    );
    let ids: Vec<CheckId> = issues.iter().map(|i| i.check_id).collect();
    assert_eq!(
        ids,
        vec![CheckId::ExtM3uHeader, CheckId::SingletonTags, CheckId::VersionCompatibility]
    );
    assert!(issues.iter().all(|i| i.uri_a.as_deref() == Some("")));
}

// ── Target durations ─────────────────────────────────────────────────────────

#[test]
fn target_duration_findings_are_exact() {
    let mut pl = with_segments("v", &[6.5, 6.499_999_999]);
    pl.target_duration = seconds(6.9);
    let issues = check_target_duration_compliance(&[pl]);
    assert_eq!(
        messages(&issues),
        vec![
            "rfc8216bis §4.4.3.1: Segment 0 in 'v' duration 6.500000s (round=7s) exceeds TARGETDURATION 6s."
        ]
    );
    assert_eq!(issues[0].segment_index, 0);
    assert_eq!(issues[0].uri_a.as_deref(), Some("v0.m4s"));

    let mut pl = with_segments("v", &[3.9, 1.25]);
    pl.target_duration = seconds(6.0);
    assert_eq!(
        messages(&check_target_duration_compliance(&[pl])),
        vec![
            "rfc8216bis §4.4.3.1: TARGETDURATION=6s in 'v' is more than 1s above the longest segment (longest=3.900000s, round=4s). Consider reducing TARGETDURATION for accuracy."
        ]
    );
}

#[test]
fn target_duration_one_second_above_passes() {
    let mut pl = with_segments("v", &[4.4]);
    pl.target_duration = seconds(5.0);
    assert!(check_target_duration_compliance(&[pl]).is_empty());
}

#[test]
fn zero_target_duration_is_the_only_finding() {
    let pl = with_segments("v", &[100.0]);
    assert_eq!(
        messages(&check_target_duration_compliance(&[pl])),
        vec![
            "rfc8216bis §4.4.3.1: EXT-X-TARGETDURATION missing or zero in 'v'. Every Media Playlist MUST declare a positive TARGETDURATION."
        ]
    );
}

#[test]
fn target_durations_are_compared_in_whole_seconds() {
    let mut a = make_playlist("a", "");
    let mut b = make_playlist("b", "");
    let mut c = make_playlist("c", "");
    a.target_duration = seconds(6.2);
    b.target_duration = seconds(6.9);
    c.target_duration = seconds(4.0);
    assert!(check_targetduration_consistency(&[a.clone(), b.clone()]).is_empty());
    assert_eq!(
        messages(&check_targetduration_consistency(&[a, b, c])),
        vec![
            "rfc8216bis §6.2.4: EXT-X-TARGETDURATION values differ across renditions (2 distinct values). Every Media Playlist of a presentation MUST declare the same TARGETDURATION, apart from I-frame playlists with PLAYLIST-TYPE:VOD, which are excluded here. Details: a=6s, b=7s, c=4s"
        ]
    );
}

#[test]
fn live_iframe_playlists_are_not_exempt() {
    let mut a = make_playlist("a", "");
    let mut b = make_playlist("b", "");
    a.target_duration = seconds(6.0);
    b.target_duration = seconds(60.0);
    b.iframes_only = true;
    assert_eq!(check_targetduration_consistency(&[a.clone(), b.clone()]).len(), 1);
    b.playlist_type = Some("VOD".to_string());
    assert!(check_targetduration_consistency(&[a.clone(), b.clone()]).is_empty());
    b.iframes_only = false;
    assert_eq!(check_targetduration_consistency(&[a.clone(), b.clone()]).len(), 1);
    b.is_iframe = true;
    assert!(check_targetduration_consistency(&[a, b]).is_empty());
}

// ── Single playlists ─────────────────────────────────────────────────────────

#[test]
fn partial_program_dates_are_counted() {
    let mut pl = with_segments("v", &[4.0, 4.0, 4.0]);
    pl.segments[1].pdt = Some(seconds(0.0));
    assert_eq!(
        messages(&check_pdt_coverage(&[pl])),
        vec![
            "RFC 8216bis §6.2.4: Playlist 'v' has partial PDT coverage: 2 of 3 segments lack EXT-X-PROGRAM-DATE-TIME."
        ]
    );
}

#[test]
fn version_findings_come_in_order() {
    let mut pl = with_segments("v", &[4.0, 4.5, 4.25]);
    pl.version = 1;
    pl.raw_content = "#EXT-X-KEY:METHOD=AES-128,IV=0x1\n#EXT-X-BYTERANGE:1@0\n#EXT-X-MAP:URI=\"i\"\n#EXT-X-SKIP:SKIPPED-SEGMENTS=1\n".to_string();
    assert_eq!(
        messages(&check_version_compatibility(&[pl])),
        vec![
            "RFC 8216bis §8: 'v' uses EXT-X-KEY with IV attribute which requires VERSION >= 2. Declared version: 1.",
            "RFC 8216bis §8: 'v' uses floating-point EXTINF (4.500s) which requires VERSION >= 3. Declared version: 1.",
            "RFC 8216bis §8: 'v' uses EXT-X-BYTERANGE which requires VERSION >= 4. Declared version: 1.",
            "RFC 8216bis §8: 'v' uses EXT-X-MAP without EXT-X-I-FRAMES-ONLY which requires VERSION >= 6. Declared version: 1.",
            "RFC 8216bis §8: 'v' uses EXT-X-SKIP which requires VERSION >= 9. Declared version: 1.",
        ]
    );
}

#[test]
fn higher_versions_have_no_more_findings() {
    let mut pl = with_segments("v", &[4.5]);
    pl.raw_content = "#EXT-X-KEY:METHOD=AES-128,IV=0x1\n#EXT-X-BYTERANGE:1@0\n#EXT-X-MAP:URI=\"i\"\n#EXT-X-I-FRAMES-ONLY\n#EXT-X-SKIP:SKIPPED-SEGMENTS=1\n".to_string();
    let counts: Vec<usize> = (1..=9)
        .map(|v| {
            pl.version = v;
            check_version_compatibility(&[pl.clone()]).len()
        })
        .collect();
    assert_eq!(counts, vec![5, 4, 3, 2, 1, 1, 1, 1, 0]);
}

#[test]
fn a_key_without_a_vector_is_allowed_at_version_1() {
    let mut pl = make_playlist("v", "#EXT-X-KEY:METHOD=AES-128,URI=\"k\"\n");
    pl.version = 1;
    assert!(check_version_compatibility(&[pl]).is_empty());
}

#[test]
fn live_window_and_endlist_findings_are_exact() {
    let mut pl = with_segments("v", &[4.0]);
    pl.playlist_type = Some("VOD".to_string());
    assert_eq!(
        messages(&check_live_playlist_min_segments(&[pl.clone()])),
        vec![
            "RFC 8216 §6.2.2: Live playlist 'v' contains only 1 segment(s). A Live Media Playlist MUST retain at least 3 segments."
        ]
    );
    assert_eq!(
        messages(&check_playlist_type_endlist(&[pl])),
        vec![
            "RFC 8216bis §4.4.3.5: Playlist 'v' declares PLAYLIST-TYPE:VOD but is missing EXT-X-ENDLIST. A VOD playlist MUST end with EXT-X-ENDLIST."
        ]
    );
    assert!(check_live_playlist_min_segments(&[with_segments("v", &[4.0, 4.0, 4.0])]).is_empty());
}

#[test]
fn media_sequence_findings_are_exact() {
    let mut pl = with_segments("v", &[4.0, 4.0]);
    pl.raw_content = "#EXTM3U\nstray\n#EXTINF:4,\n#EXT-X-KEY:METHOD=NONE\n\ns0\n #EXT-X-MEDIA-SEQUENCE:1\n#EXTINF:4,\ns1\n".to_string();
    assert_eq!(
        messages(&check_media_sequence_continuity(&[pl.clone()])),
        vec![
            "rfc8216bis §4.4.3.2: EXT-X-MEDIA-SEQUENCE MUST appear before the first Media Segment URI in 'v' (tag at line 7, first segment at line 6)."
        ]
    );
    pl.raw_content = "#EXTM3U\n#EXTINF:4,\ns0\n#EXTINF:4,\ns1\n".to_string();
    assert_eq!(
        messages(&check_media_sequence_continuity(&[pl.clone()])),
        vec![
            "rfc8216bis §4.4.3.2: Live playlist 'v' does not declare EXT-X-MEDIA-SEQUENCE. For live playlists the tag SHOULD be present so clients can track the sliding window."
        ]
    );
    pl.segments.truncate(1);
    assert!(check_media_sequence_continuity(&[pl.clone()]).is_empty());
    pl.segments.clear();
    pl.raw_content = "#EXTINF:4,\ns0\n#EXT-X-MEDIA-SEQUENCE:1\n".to_string();
    assert!(check_media_sequence_continuity(&[pl]).is_empty());
}

#[test]
fn other_segment_names_give_the_same_media_sequence_findings() {
    let mut a = with_segments("v", &[4.0, 4.0]);
    let mut b = a.clone();
    a.raw_content = "#EXTINF:4,\n1.ts\n#EXT-X-MEDIA-SEQUENCE:7\n#EXTINF:4,\n2.ts\n".to_string();
    b.raw_content =
        "#EXTINF:4,\nsome/900.ts\n#EXT-X-MEDIA-SEQUENCE:7\n#EXTINF:4,\nx y\n".to_string();
    let first = check_media_sequence_continuity(&[a]);
    let second = check_media_sequence_continuity(&[b]);
    assert_eq!(first.len(), 1);
    assert_eq!(messages(&first), messages(&second));
}

#[test]
fn playlists_are_checked_one_by_one() {
    let a = make_playlist("a", "x\n#EXT-X-VERSION:1\n#EXT-X-VERSION:1\n");
    let b = with_segments("b", &[4.0]);
    let both = [a.clone(), b.clone()];
    for check in [
        check_extm3u_header,
        check_media_sequence_duplicate_tags,
        check_target_duration_compliance,
        check_live_playlist_min_segments,
    ] {
        let mut apart = check(&[a.clone()]);
        apart.extend(check(&[b.clone()]));
        assert_eq!(messages(&check(&both)), messages(&apart));
        assert!(!apart.is_empty());
    }
}

// ── Renditions ───────────────────────────────────────────────────────────────

#[test]
fn discontinuity_sequences_are_listed() {
    let mut a = make_playlist("a", "");
    let b = make_playlist("b", "");
    a.discontinuity_sequence = 12;
    assert_eq!(
        messages(&check_discontinuity_sequence(&[a.clone(), b.clone()])),
        vec![
            "rfc8216bis §6.2.4: EXT-X-DISCONTINUITY-SEQUENCE values differ across renditions: a=12, b=0. Renditions of the same presentation MUST carry matching discontinuity sequence numbers so clients can align their timelines."
        ]
    );
    assert!(check_discontinuity_sequence(&[b.clone(), b]).is_empty());
    assert!(check_discontinuity_sequence(&[a]).is_empty());
}

#[test]
fn only_finished_video_is_counted() {
    let mut a = with_segments("a", &[4.0]);
    let mut b = with_segments("b", &[4.0, 4.0]);
    a.has_endlist = true;
    b.has_endlist = true;
    let issues = check_segment_count(&[a.clone(), b.clone()]);
    assert_eq!(
        messages(&issues),
        vec![
            "Segment count mismatch across VIDEO renditions: a=1, b=2. All video renditions should have the same number of segments."
        ]
    );
    assert_eq!(issues[0].severity, Severity::Warn);
    assert_eq!(issues[0].check_id, CheckId::SegmentCount);
    let mut audio = b.clone();
    audio.media_type = "AUDIO".to_string();
    assert!(check_segment_count(&[a.clone(), audio]).is_empty());
    let mut live = b.clone();
    live.has_endlist = false;
    assert!(check_segment_count(&[a.clone(), live]).is_empty());
    b.is_iframe = true;
    assert!(check_segment_count(&[a, b]).is_empty());
}

#[test]
fn unusual_mixes_of_methods_are_shown_in_quotes() {
    let mut a = make_playlist("a", "");
    a.encryption_methods = names(&["SAMPLE-AES", "AES-128", "NONE"]);
    let issues = check_encryption_consistency(&[a]);
    assert_eq!(
        messages(&issues),
        vec![
            "RFC 8216bis §4.4.4.4: Playlist 'a' uses multiple encryption methods: [\"AES-128\", \"NONE\", \"SAMPLE-AES\"].",
            "rfc8216bis §4.4.4.4: Renditions declare different EXT-X-KEY METHOD values: AES-128, SAMPLE-AES. Check this is intended — a client that can decrypt one rendition may not be able to switch to another.",
        ]
    );
    assert!(issues.iter().all(|i| i.severity == Severity::Warn));
}

#[test]
fn methods_with_quotes_are_escaped() {
    let mut a = make_playlist("a", "");
    a.encryption_methods = names(&["X\"\\", "Y"]);
    let issues = check_encryption_consistency(&[a]);
    assert!(issues[0].message.ends_with("methods: [\"X\\\"\\\\\", \"Y\"]."));
}

#[test]
fn usual_mixes_and_undeclared_renditions_pass() {
    let mut a = make_playlist("a", "");
    let mut b = make_playlist("b", "");
    let none = make_playlist("c", "");
    a.encryption_methods = names(&["AES-128", "NONE"]);
    b.encryption_methods = names(&["AES-128"]);
    assert!(check_encryption_consistency(&[a.clone(), none.clone(), b.clone()]).is_empty());
    assert!(check_encryption_consistency(&[none.clone()]).is_empty());
    b.encryption_methods = names(&["NONE"]);
    assert_eq!(check_encryption_consistency(&[a.clone(), b]).len(), 1);
    a.encryption_methods = names(&["NONE", "SAMPLE-AES"]);
    assert!(check_encryption_consistency(&[a, none]).is_empty());
}

#[test]
fn of_playlists_with_one_name_the_last_that_declares_counts() {
    let mut a = make_playlist("a", "");
    let mut b = make_playlist("a", "");
    let c = make_playlist("a", "");
    a.encryption_methods = names(&["AES-128"]);
    b.encryption_methods = names(&["NONE"]);
    assert!(check_encryption_consistency(&[a.clone(), b.clone(), c]).is_empty());
    b.name = "b".to_string();
    assert_eq!(check_encryption_consistency(&[a, b]).len(), 1);
}

#[test]
fn one_rendition_agrees_with_itself() {
    let mut pl = with_segments("v", &[4.0, 9.0]);
    pl.has_endlist = true;
    pl.target_duration = seconds(6.0);
    pl.discontinuity_sequence = 3;
    let alone = [pl.clone()];
    assert!(check_targetduration_consistency(&alone).is_empty());
    assert!(check_discontinuity_sequence(&alone).is_empty());
    assert!(check_segment_count(&alone).is_empty());
    assert!(check_duration_drift(&alone, milliseconds(0.0)).is_empty());
    assert!(check_pdt_alignment(&alone, milliseconds(0.0)).is_empty());
    assert!(check_cumulative_drift(&alone, milliseconds(0.0)).is_empty());
    let twice = [pl.clone(), pl];
    assert!(check_duration_drift(&twice, milliseconds(0.0)).is_empty());
    assert!(check_cumulative_drift(&twice, milliseconds(0.0)).is_empty());
}

// ── Drift ────────────────────────────────────────────────────────────────────

#[test]
fn segments_are_paired_by_media_sequence_number() {
    let mut a = with_segments("a", &[4.0, 4.0, 4.0]);
    let mut b = with_segments("b", &[4.0, 4.0, 4.0]);
    a.media_sequence = 10;
    b.media_sequence = 9;
    b.skipped_segments = 2;
    let pairs: Vec<(&str, &str, u64)> = overlapping_segments(&a, &b)
        .iter()
        .map(|(x, y, n)| (x.uri.as_str(), y.uri.as_str(), *n))
        .collect();
    assert_eq!(pairs, vec![("a1.m4s", "b0.m4s", 11), ("a2.m4s", "b1.m4s", 12)]);
    let swapped: Vec<u64> = overlapping_segments(&b, &a).iter().map(|p| p.2).collect();
    assert_eq!(swapped, vec![11, 12]);
    b.media_sequence = 100;
    assert!(overlapping_segments(&a, &b).is_empty());
}

#[test]
fn duration_drift_findings_are_exact() {
    let mut a = with_segments("a", &[4.0, 4.0]);
    let mut b = with_segments("b", &[4.1, 3.85]);
    a.media_sequence = 7;
    b.media_sequence = 7;
    let issues = check_duration_drift(&[a.clone(), b.clone()], milliseconds(100.0));
    assert_eq!(
        messages(&issues),
        vec![
            "EXTINF drift at MSN 8: 'a' has 4.000s vs 'b' has 3.850s (diff=0.150s, tolerance=0.100s)."
        ]
    );
    assert_eq!(issues[0].segment_index, 8);
    assert_eq!(issues[0].rendition_a.as_deref(), Some("a"));
    assert_eq!(issues[0].rendition_b.as_deref(), Some("b"));
    assert_eq!(issues[0].uri_a.as_deref(), Some("a1.m4s"));
    assert_eq!(issues[0].uri_b.as_deref(), Some("b1.m4s"));
    assert_eq!(issues[0].severity, Severity::Warn);
    assert_eq!(issues[0].check_id, CheckId::DurationDrift);
    assert_eq!(check_duration_drift(&[b, a], milliseconds(100.0)).len(), 1);
}

#[test]
fn program_date_findings_are_exact() {
    let mut a = with_segments("a", &[4.0, 4.0]);
    let mut b = with_segments("b", &[4.0, 4.0]);
    for pl in [&mut a, &mut b] {
        pl.segments[0].pdt = Some(seconds(1_700_000_000.0));
    }
    a.segments[1].pdt = Some(seconds(1_700_000_004.0));
    assert!(check_pdt_alignment(&[a.clone(), b.clone()], milliseconds(100.0)).is_empty());
    b.segments[1].pdt = Some(seconds(1_700_000_005.25));
    let issues = check_pdt_alignment(&[a, b], milliseconds(100.0));
    assert_eq!(
        messages(&issues),
        vec!["PDT misalignment at MSN 1: diff=1.250s (tolerance=0.100s)."]
    );
    assert_eq!(issues[0].check_id, CheckId::PdtAlignment);
}

#[test]
fn cumulative_drift_findings_are_exact() {
    let mut a = with_segments("a", &[4.0, 4.0, 4.0]);
    let b = with_segments("b", &[4.2, 4.2, 4.0]);
    let issues = check_cumulative_drift(&[a.clone(), b.clone()], milliseconds(100.0));
    assert_eq!(
        messages(&issues),
        vec![
            "Cumulative EXTINF drift across renditions: 0.400s (tolerance=0.100s) over 3 common segments (MSN 0-2). Totals: a=12.000s, b=12.400s"
        ]
    );
    // 12.4 is not a number that can be held, and the nearest one is a little more than 0.4 above
    // 12.
    assert_eq!(check_cumulative_drift(&[a.clone(), b.clone()], milliseconds(400.0)).len(), 1);
    assert!(check_cumulative_drift(&[a.clone(), b.clone()], milliseconds(400.001)).is_empty());
    a.media_sequence = 3;
    assert!(check_cumulative_drift(&[a, b], milliseconds(100.0)).is_empty());
}

#[test]
fn extra_segments_of_one_rendition_are_no_drift() {
    let a = with_segments("a", &[4.0, 4.0]);
    let b = with_segments("b", &[4.0, 4.0, 4.0, 4.0]);
    assert!(check_cumulative_drift(&[a.clone(), b], milliseconds(100.0)).is_empty());
    let c = with_segments("c", &[4.0, 5.0, 4.0]);
    let longer = with_segments("c", &[4.0, 5.0, 4.0, 9.0]);
    let short = check_cumulative_drift(&[a.clone(), c], milliseconds(100.0));
    let long = check_cumulative_drift(&[a, longer], milliseconds(100.0));
    assert_eq!(short.len(), 1);
    assert_eq!(messages(&short), messages(&long));
}

#[test]
fn audio_and_iframes_are_not_compared() {
    let a = with_segments("a", &[4.0]);
    let mut b = with_segments("b", &[9.0]);
    b.segments[0].pdt = Some(seconds(9.0));
    b.media_type = "AUDIO".to_string();
    let mut c = b.clone();
    c.media_type = "VIDEO".to_string();
    c.is_iframe = true;
    let pls = [a, b, c];
    assert!(check_duration_drift(&pls, milliseconds(0.0)).is_empty());
    assert!(check_pdt_alignment(&pls, milliseconds(0.0)).is_empty());
    assert!(check_cumulative_drift(&pls, milliseconds(0.0)).is_empty());
}

#[test]
fn windows_are_in_range_up_to_the_greatest_number() {
    let mut a = with_segments("a", &[4.0]);
    let b = with_segments("b", &[4.0]);
    a.media_sequence = u64::MAX - 1;
    assert!(windows_in_range(&[a.clone(), b.clone()]));
    assert!(check_duration_drift(&[a.clone(), b.clone()], milliseconds(0.0)).is_empty());
    a.skipped_segments = 1;
    assert!(!windows_in_range(&[a.clone(), b.clone()]));
    assert!(windows_in_range(&[a.clone()]));
    a.media_type = "AUDIO".to_string();
    assert!(windows_in_range(&[a, b]));
}

// ── Low latency ──────────────────────────────────────────────────────────────

fn low_latency(name: &str, part_target: f64, parts: &[f64]) -> MediaPlaylist {
    let mut pl = make_playlist(name, "#EXTM3U\n");
    pl.target_duration = seconds(4.0);
    pl.part_target = Some(seconds(part_target));
    for (i, d) in parts.iter().enumerate() {
        pl.parts.push(PartialSegment {
            uri: format!("p{i}.m4s"),
            duration: seconds(*d),
            independent: i == 0,
        });
    }
    pl.preload_hint_uri = Some("next.m4s".to_string());
    pl.preload_hint_type = Some("PART".to_string());
    pl.rendition_reports.push(RenditionReport {
        uri: "low/v.m3u8".to_string(),
        last_msn: 5,
        last_part: 0,
    });
    pl.server_control = Some(ServerControl {
        hold_back: Some(seconds(12.0)),
        part_hold_back: Some(seconds(part_target * 3.0)),
        can_block_reload: true,
        can_skip_until: Some(seconds(24.0)),
    });
    pl
}

#[test]
fn a_complete_low_latency_playlist_passes() {
    assert!(check_ll_hls_compliance(&[low_latency("v", 1.0, &[1.0, 1.001])]).is_empty());
    assert!(check_ll_hls_compliance(&[make_playlist("v", "")]).is_empty());
}

#[test]
fn part_findings_are_exact() {
    let mut pl = low_latency("v", 1.0, &[1.0, 1.0011]);
    let issues = check_ll_hls_compliance(&[pl.clone()]);
    assert_eq!(
        messages(&issues),
        vec!["LL-HLS §4.4.4.9: Part 1 in 'v' has duration 1.00110s exceeding PART-TARGET 1.00000s."]
    );
    assert_eq!(issues[0].segment_index, 1);
    assert_eq!(issues[0].uri_a.as_deref(), Some("p1.m4s"));
    pl.part_target = None;
    pl.preload_hint_type = Some("MAP".to_string());
    pl.rendition_reports.clear();
    assert_eq!(
        messages(&check_ll_hls_compliance(&[pl])),
        vec![
            "LL-HLS §6.2.5.2: 'v' contains EXT-X-PART tags but no EXT-X-PART-INF. PART-TARGET is required.",
            "LL-HLS §4.4.5.3: 'v' is missing EXT-X-PRELOAD-HINT with TYPE=PART at the playlist tail. Clients cannot prefetch the next partial segment.",
            "LL-HLS §4.4.5.4: 'v' has no EXT-X-RENDITION-REPORT tags. Each media playlist should report the last MSN/Part of every other rendition so clients can switch without extra fetches.",
        ]
    );
}

#[test]
fn server_control_findings_are_exact() {
    let mut pl = low_latency("v", 1.0, &[1.0]);
    pl.server_control = Some(ServerControl {
        hold_back: Some(seconds(11.9)),
        part_hold_back: Some(seconds(1.5)),
        can_block_reload: false,
        can_skip_until: Some(seconds(20.0)),
    });
    let issues = check_ll_hls_compliance(&[pl.clone()]);
    assert_eq!(
        messages(&issues),
        vec![
            "rfc8216bis §4.4.3.8: 'v' CAN-SKIP-UNTIL=20.000s < 6× TARGETDURATION=4.000s (MUST be ≥ 24.000s).",
            "LL-HLS §4.4.3.8: 'v' PART-HOLD-BACK=1.50000s < 2× PART-TARGET=1.00000s (MUST be ≥ 2.00000s).",
            "LL-HLS §4.4.3.8: 'v' HOLD-BACK=11.900s < 3× TARGETDURATION=4.000s (MUST be ≥ 12.000s).",
        ]
    );
    let notes: Vec<Option<&str>> = issues.iter().map(|i| i.uri_note.as_deref()).collect();
    assert_eq!(
        notes,
        vec![
            Some("ratio=5.00×, minimum 6.00×"),
            Some("ratio=1.500×, MUST be ≥ 2.000×"),
            Some("ratio=2.98×, minimum 3.00×"),
        ]
    );
    pl.server_control = Some(ServerControl {
        hold_back: None,
        part_hold_back: Some(seconds(2.5)),
        can_block_reload: false,
        can_skip_until: None,
    });
    let issues = check_ll_hls_compliance(&[pl.clone()]);
    assert_eq!(
        messages(&issues),
        vec![
            "LL-HLS §4.4.3.8: 'v' PART-HOLD-BACK=2.50000s < 3× PART-TARGET=1.00000s (SHOULD be ≥ 3.00000s)."
        ]
    );
    assert_eq!(issues[0].severity, Severity::Warn);
    assert_eq!(issues[0].uri_note.as_deref(), Some("ratio=2.500×, SHOULD be ≥ 3.000×"));
    pl.server_control = None;
    assert_eq!(
        messages(&check_ll_hls_compliance(&[pl])),
        vec![
            "rfc8216bis §4.4.3.8: 'v' declares EXT-X-PART-INF but EXT-X-SERVER-CONTROL has no PART-HOLD-BACK. The attribute is REQUIRED when the playlist contains EXT-X-PART-INF."
        ]
    );
}

#[test]
fn a_millisecond_of_slack_is_allowed() {
    let mut pl = low_latency("v", 1.0, &[1.0]);
    pl.server_control = Some(ServerControl {
        hold_back: Some(seconds(11.999)),
        part_hold_back: Some(seconds(2.999)),
        can_block_reload: false,
        can_skip_until: Some(seconds(23.999)),
    });
    assert!(check_ll_hls_compliance(&[pl]).is_empty());
}

#[test]
fn reports_more_than_one_segment_apart_warn() {
    let mut a = low_latency("a", 1.0, &[1.0]);
    let mut b = low_latency("b", 1.0, &[1.0]);
    a.rendition_reports[0].last_msn = 6;
    assert!(check_ll_hls_compliance(&[a.clone(), b.clone()]).is_empty());
    a.rendition_reports[0].last_msn = 8;
    let issues = check_ll_hls_compliance(&[a.clone(), b.clone()]);
    assert_eq!(
        messages(&issues),
        vec![
            "LL-HLS §4.4.5.4: EXT-X-RENDITION-REPORT LAST-MSN skew of 3 segments for 'v.m3u8' (reported MSNs: 5–8). All renditions should report the same LAST-MSN ±1 segment."
        ]
    );
    assert_eq!(issues[0].severity, Severity::Warn);
    a.rendition_reports[0].last_msn = -1;
    assert!(check_ll_hls_compliance(&[a.clone(), b.clone()]).is_empty());
    a.rendition_reports[0].last_msn = 8;
    b.rendition_reports[0].uri = "other.m3u8".to_string();
    assert!(check_ll_hls_compliance(&[a, b]).is_empty());
}

#[test]
fn server_control_is_compared_in_whole_seconds() {
    let mut a = low_latency("a", 1.0, &[1.0]);
    let b = low_latency("b", 1.0, &[1.0]);
    if let Some(sc) = a.server_control.as_mut() {
        sc.hold_back = Some(seconds(12.9));
    }
    assert!(check_ll_hls_compliance(&[a.clone(), b.clone()]).is_empty());
    if let Some(sc) = a.server_control.as_mut() {
        sc.can_block_reload = false;
    }
    let issues = check_ll_hls_compliance(&[a, b]);
    assert_eq!(
        messages(&issues),
        vec![
            "LL-HLS §6.2.4: EXT-X-SERVER-CONTROL attributes differ across renditions [a, b]. All Media Playlists MUST carry identical SERVER-CONTROL values."
        ]
    );
    assert_eq!(issues[0].severity, Severity::Error);
}

#[test]
fn playlists_without_parts_are_not_compared() {
    let mut a = low_latency("a", 1.0, &[]);
    let b = low_latency("b", 1.0, &[]);
    a.rendition_reports[0].last_msn = 50;
    if let Some(sc) = a.server_control.as_mut() {
        sc.can_block_reload = false;
        sc.hold_back = Some(seconds(40.0));
    }
    assert!(check_ll_hls_compliance(&[a, b]).is_empty());
}

// ── The multivariant playlist ────────────────────────────────────────────────

#[test]
fn stream_findings_are_exact() {
    let mut a = variant("v.m3u8");
    let mut b = variant("v.m3u8");
    a.codecs = Some("avc1.1,mp4a".to_string());
    a.audio_group = Some("aac".to_string());
    b.audio_group = Some("aac".to_string());
    b.bandwidth = None;
    let m = master(vec![a.clone(), b.clone()], Vec::new());
    let issues = check_stream_inf_consistency(&m);
    assert_eq!(
        messages(&issues),
        vec![
            "rfc8216bis §4.4.6.2: Multiple EXT-X-STREAM-INF tags share URI 'v.m3u8' and the same Rendition Groups (AUDIO=aac, SUBTITLES=(none), CLOSED-CAPTIONS=(none), VIDEO=(none)) but declare different CODECS values: CODECS=avc1.1,mp4a, CODECS=(none). One of them misdescribes what the URI contains.",
            "rfc8216bis §4.4.6.2: Multiple EXT-X-STREAM-INF tags share URI 'v.m3u8' and the same Rendition Groups (AUDIO=aac, SUBTITLES=(none), CLOSED-CAPTIONS=(none), VIDEO=(none)) but declare different BANDWIDTH values: BANDWIDTH=1000, BANDWIDTH=(none). BANDWIDTH is the peak bit rate of the same media in each case.",
        ]
    );
    assert!(issues.iter().all(|i| i.uri_a.as_deref() == Some("v.m3u8")));

    b.audio_group = None;
    b.codecs = Some(" hvc1 , mp4a".to_string());
    let issues = check_stream_inf_consistency(&master(vec![a, b], Vec::new()));
    assert_eq!(
        messages(&issues),
        vec![
            "rfc8216bis §6.2.4: Multiple EXT-X-STREAM-INF tags share URI 'v.m3u8' but declare different video codecs: AUDIO=aac CODECS=avc1.1,mp4a, AUDIO=(none) CODECS= hvc1 , mp4a. The same media cannot be encoded two ways, and every Variant Stream of a presentation MUST use the same video encoding."
        ]
    );
    assert_eq!(issues[0].severity, Severity::Error);
}

#[test]
fn the_order_of_entries_changes_only_order_and_words() {
    let mut a = variant("v.m3u8");
    let mut b = variant("v.m3u8");
    let mut c = variant("w.m3u8");
    let mut d = variant("w.m3u8");
    a.codecs = Some("avc1.1".to_string());
    b.codecs = Some("hvc1".to_string());
    b.bandwidth = None;
    c.audio_group = Some("aac".to_string());
    c.codecs = Some("avc1.1".to_string());
    d.codecs = Some("hvc1".to_string());
    let shapes = |variants: Vec<MasterRendition>| {
        let issues = check_stream_inf_consistency(&master(variants, Vec::new()));
        let mut list: Vec<String> = issues
            .iter()
            .map(|i| format!("{:?} {:?} {:?}", i.severity, i.check_id, i.uri_a))
            .collect();
        list.sort();
        list
    };
    let first = shapes(vec![a.clone(), b.clone(), c.clone(), d.clone()]);
    assert_eq!(first.len(), 4);
    assert_eq!(first, shapes(vec![d.clone(), c.clone(), b.clone(), a.clone()]));
    assert_eq!(first, shapes(vec![b, d, a, c]));
}

#[test]
fn video_codecs_are_compared_without_space() {
    let mut a = variant("v.m3u8");
    let mut b = variant("v.m3u8");
    a.codecs = Some("avc1.1,mp4a".to_string());
    b.codecs = Some(" avc1.1 ".to_string());
    b.video_group = Some("cam".to_string());
    assert!(check_stream_inf_consistency(&master(vec![a, b], Vec::new())).is_empty());
}

#[test]
fn missing_bandwidth_is_reported_for_each_entry() {
    let mut a = variant("a.m3u8");
    a.bandwidth = None;
    let issues = check_bandwidth_required(&master(vec![a.clone(), variant("b"), a], Vec::new()));
    assert_eq!(
        messages(&issues),
        vec![
            "RFC 8216bis §4.4.6.2: EXT-X-STREAM-INF for URI 'a.m3u8' is missing the BANDWIDTH attribute, which is REQUIRED.";
            2
        ]
    );
    assert!(check_bandwidth_required(&master(vec![variant("b")], Vec::new())).is_empty());
}

#[test]
fn group_members_are_listed_in_order() {
    let media = vec![
        rendition("AUDIO", "a1", "fr"),
        rendition("AUDIO", "a1", "en"),
        rendition("AUDIO", "a2", "de"),
        rendition("SUBTITLES", "s", "en"),
    ];
    assert_eq!(
        messages(&check_media_group_membership(&master(Vec::new(), media))),
        vec![
            "rfc8216bis §4.4.6.1.1: AUDIO Group 'a1' is missing member(s) present in other groups of the same type: 'de'. All groups of the same TYPE MUST have the same set of members.",
            "rfc8216bis §4.4.6.1.1: AUDIO Group 'a2' is missing member(s) present in other groups of the same type: 'en', 'fr'. All groups of the same TYPE MUST have the same set of members.",
        ]
    );
}

#[test]
fn groups_with_the_same_members_pass() {
    let media = vec![
        rendition("AUDIO", "a1", "fr"),
        rendition("AUDIO", "a2", "en"),
        rendition("AUDIO", "a1", "en"),
        rendition("AUDIO", "a2", "fr"),
        rendition("VIDEO", "a1", "main"),
    ];
    assert!(check_media_group_membership(&master(Vec::new(), media)).is_empty());
}

#[test]
fn dangling_references_list_the_declared_groups() {
    let mut v = variant("v.m3u8");
    v.audio_group = Some("x".to_string());
    v.closed_captions = Some("cc".to_string());
    let media = vec![
        rendition("AUDIO", "b", "en"),
        rendition("AUDIO", "a", "en"),
        rendition("AUDIO", "b", "fr"),
        rendition("VIDEO", "x", "en"),
    ];
    let issues = check_rendition_group_references(&master(vec![v], media));
    assert_eq!(
        messages(&issues),
        vec![
            "rfc8216bis §4.4.6.2: EXT-X-STREAM-INF for URI 'v.m3u8' has AUDIO=\"x\" but no EXT-X-MEDIA tag with TYPE=AUDIO declares that GROUP-ID. The attribute value MUST match the GROUP-ID of a Rendition Group of that type (declared AUDIO groups: a, b).",
            "rfc8216bis §4.4.6.2: EXT-X-STREAM-INF for URI 'v.m3u8' has CLOSED-CAPTIONS=\"cc\" but no EXT-X-MEDIA tag with TYPE=CLOSED-CAPTIONS declares that GROUP-ID. The attribute value MUST match the GROUP-ID of a Rendition Group of that type (declared CLOSED-CAPTIONS groups: (none)).",
        ]
    );
}

// ── Naming the producer ──────────────────────────────────────────────────────

#[test]
fn naming_the_producer_keeps_the_names_there_are() {
    let unnamed = Issue::warn("a".to_string());
    let named = Issue::error("b".to_string()).raised_by(CheckId::DeltaUpdates);
    let issues = produced_by(CheckId::LlHls, vec![unnamed, named]);
    assert_eq!(issues[0].check_id, CheckId::LlHls);
    assert_eq!(issues[1].check_id, CheckId::DeltaUpdates);
    let again = produced_by(CheckId::PlaylistFetch, issues);
    assert_eq!(again[0].check_id, CheckId::LlHls);
    assert_eq!(again[1].check_id, CheckId::DeltaUpdates);
}
