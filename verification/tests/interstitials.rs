//! Interstitials, attribute lists and sets of names.
use hls_checks::attributes::parse_attributes;
use hls_checks::check_interstitials;
use hls_checks::double::Double;
use hls_checks::names::NameSet;
use hls_checks::numeral::number_like;
use hls_checks::types::{CheckId, Issue, MediaPlaylist, Severity};

fn make_playlist(name: &str, content: &str) -> MediaPlaylist {
    let mut pl =
        MediaPlaylist::new(name.to_string(), format!("https://cdn.example.com/{name}.m3u8"));
    pl.raw_content = content.to_string();
    pl
}

const CLASS: &str = "CLASS=\"com.apple.hls.interstitial\"";

/// A playlist with one EXT-X-DATERANGE tag for each attribute list.
fn ranges(name: &str, lists: &[&str]) -> MediaPlaylist {
    let mut content = "#EXTM3U\n".to_string();
    for list in lists {
        content.push_str(&format!("#EXT-X-DATERANGE:{list}\n"));
    }
    make_playlist(name, &content)
}

fn complete(extra: &str) -> String {
    format!("ID=\"a\",{CLASS},START-DATE=\"2024-01-15T12:00:00Z\",X-ASSET-URI=\"u\"{extra}")
}

fn number(x: f64) -> Option<Double> {
    Some(Double::from_bits(x.to_bits()))
}

fn messages(issues: &[Issue]) -> Vec<&str> {
    issues.iter().map(|i| i.message.as_str()).collect()
}

#[test]
fn an_empty_tag_has_every_error() {
    let (issues, list) = check_interstitials(&[ranges("v", &[CLASS])]);
    assert_eq!(
        messages(&issues),
        vec![
            "Interstitial: DATERANGE in 'v' missing ID (MUST)",
            "Interstitial: [] missing START-DATE in 'v'",
            "Interstitial: [] missing X-ASSET-URI/X-ASSET-LIST in 'v'",
        ]
    );
    assert!(issues.iter().all(|i| i.severity == Severity::Error));
    assert!(issues.iter().all(|i| i.check_id == CheckId::Interstitials));
    assert!(issues.iter().all(|i| i.rendition_a.as_deref() == Some("v")));
    assert_eq!(
        list[0].errors,
        vec![
            "Missing required ID attribute",
            "Missing required START-DATE",
            "Missing X-ASSET-URI or X-ASSET-LIST (MUST have one)",
        ]
    );
}

#[test]
fn value_findings_are_exact() {
    let tag = complete(
        ",X-ASSET-LIST=\"l\",X-SNAP=\"IN, BEFORE\",X-RESTRICT=\"JUMP,FLY\",\
         X-CONTENT-MAY-VARY=\"MAYBE\",X-TIMELINE-OCCUPIES=\"LINE\",X-TIMELINE-STYLE=\"BOLD\"",
    );
    let (issues, list) = check_interstitials(&[ranges("v", &[&tag])]);
    assert_eq!(
        messages(&issues),
        vec![
            "Interstitial: [a] has both X-ASSET-URI and X-ASSET-LIST in 'v' (MUST NOT)",
            "Interstitial: [a] X-SNAP='BEFORE' invalid in 'v' (rfc8216bis §D.2: values must be OUT and/or IN).",
            "Interstitial: [a] X-RESTRICT='FLY' invalid in 'v' (rfc8216bis §D.2: values must be SKIP and/or JUMP).",
            "Interstitial: [a] X-CONTENT-MAY-VARY='MAYBE' invalid in 'v' (rfc8216bis §D.2: must be \"YES\" or \"NO\").",
            "Interstitial: [a] X-TIMELINE-OCCUPIES='LINE' invalid in 'v' (rfc8216bis §D.2: must be \"POINT\" or \"RANGE\").",
            "Interstitial: [a] X-TIMELINE-STYLE='BOLD' invalid in 'v' (rfc8216bis §D.2: must be \"HIGHLIGHT\" or \"PRIMARY\").",
        ]
    );
    let severities: Vec<Severity> = issues.iter().map(|i| i.severity).collect();
    assert_eq!(severities[0], Severity::Error);
    assert!(severities[1..].iter().all(|s| *s == Severity::Warn));
    assert_eq!(
        list[0].errors,
        vec![
            "Has both X-ASSET-URI and X-ASSET-LIST (MUST have only one)",
            "X-SNAP value 'BEFORE' invalid (must be IN or OUT)",
            "X-RESTRICT value 'FLY' invalid (must be SKIP or JUMP)",
            "X-CONTENT-MAY-VARY='MAYBE' invalid (must be YES or NO)",
            "X-TIMELINE-OCCUPIES='LINE' invalid (must be POINT or RANGE)",
            "X-TIMELINE-STYLE='BOLD' invalid (must be HIGHLIGHT or PRIMARY)",
        ]
    );
}

#[test]
fn allowed_values_pass() {
    let tag = complete(
        ",X-SNAP=\"OUT,IN\",X-RESTRICT=\"SKIP\",X-CONTENT-MAY-VARY=\"NO\",\
         X-TIMELINE-OCCUPIES=\"RANGE\",X-TIMELINE-STYLE=\"PRIMARY\",\
         X-SKIP-CONTROL-LABEL-ID=\"Skip-ad_B\",X-CUE=\"ONCE\"",
    );
    let (issues, list) = check_interstitials(&[ranges("v", &[&tag])]);
    assert!(issues.is_empty(), "{issues:?}");
    assert_eq!(list[0].snap.as_deref(), Some("OUT,IN"));
    assert_eq!(list[0].cue.as_deref(), Some("ONCE"));
    assert_eq!(list[0].timeline_style.as_deref(), Some("PRIMARY"));
    assert_eq!(list[0].rendition, "v");
    assert_eq!(list[0].rendition_url, "https://cdn.example.com/v.m3u8");
    assert_eq!(list[0].start_date, "2024-01-15T12:00:00Z");
    assert_eq!(list[0].content_duration_s, Double::zero());
    assert!(list[0].start_offset_s.is_none());
}

#[test]
fn stray_label_characters_are_shown_escaped() {
    let tag = complete(",X-SKIP-CONTROL-LABEL-ID=a'1\tz");
    let (issues, list) = check_interstitials(&[ranges("v", &[&tag])]);
    assert_eq!(
        messages(&issues),
        vec![
            "Interstitial: [a] X-SKIP-CONTROL-LABEL-ID='a'1\tz' contains invalid characters ['\\'', '1', '\\t'] in 'v' (rfc8216bis §D.3: MUST be [a-z][A-Z]'-''_' only)."
        ]
    );
    assert_eq!(issues[0].severity, Severity::Error);
    assert_eq!(
        list[0].errors,
        vec!["X-SKIP-CONTROL-LABEL-ID='a'1\tz' contains invalid chars ['\\'', '1', '\\t']"]
    );
}

#[test]
fn closing_tags_add_what_is_missing() {
    let open = complete(",X-RESUME-OFFSET=1.5,PLANNED-DURATION=30.0");
    let close = "ID=\"a\",X-PLAYOUT-LIMIT=20.25,X-RESUME-OFFSET=9";
    let late = "ID=\"a\",X-PLAYOUT-LIMIT=99";
    let other = "ID=\"b\",X-PLAYOUT-LIMIT=77";
    let (issues, list) = check_interstitials(&[ranges("v", &[other, &open, close, late])]);
    assert!(issues.is_empty());
    assert_eq!(list.len(), 1);
    assert_eq!(list[0].playout_limit, number(20.25));
    assert_eq!(list[0].resume_offset, number(1.5));
    assert_eq!(list[0].planned_duration_s, number(30.0));
}

#[test]
fn closing_tags_go_to_the_first_of_their_identifier() {
    let open = complete("");
    let close = "ID=\"a\",X-PLAYOUT-LIMIT=20";
    let (_, list) = check_interstitials(&[ranges("v", &[&open]), ranges("w", &[&open, close])]);
    assert_eq!(list.len(), 2);
    assert_eq!(list[0].playout_limit, number(20.0));
    assert!(list[1].playout_limit.is_none());
}

#[test]
fn what_is_not_a_number_is_left_out() {
    let open = complete(",X-RESUME-OFFSET=soon,X-PLAYOUT-LIMIT=1e,PLANNED-DURATION=-.5e+3");
    let close = "ID=\"a\",X-PLAYOUT-LIMIT=later";
    let last = "ID=\"a\",X-PLAYOUT-LIMIT=3";
    let (_, list) = check_interstitials(&[ranges("v", &[&open, close, last])]);
    assert!(list[0].resume_offset.is_none());
    assert_eq!(list[0].playout_limit, number(3.0));
    assert_eq!(list[0].planned_duration_s, number(-500.0));
}

#[test]
fn numbers_of_many_digits_are_kept() {
    let long = "0".repeat(20_000);
    let open = complete(&format!(
        ",X-RESUME-OFFSET={long}1.5,X-PLAYOUT-LIMIT=20.25{long},PLANNED-DURATION=1{long}"
    ));
    let (issues, list) = check_interstitials(&[ranges("v", &[&open])]);
    assert!(issues.is_empty());
    assert_eq!(list[0].resume_offset, number(1.5));
    assert_eq!(list[0].playout_limit, number(20.25));
    assert_eq!(list[0].planned_duration_s, number(f64::INFINITY));
}

#[test]
fn other_classes_and_empty_playlists_have_no_interstitials() {
    let (issues, list) =
        check_interstitials(&[ranges("v", &["ID=\"x\",CLASS=\"ad\""]), make_playlist("w", "")]);
    assert!(issues.is_empty());
    assert!(list.is_empty());
    let (_, list) =
        check_interstitials(&[ranges("v", &["ID=\"x\",CLASS=\"my.com.apple.hls.interstitial.x\""])]);
    assert_eq!(list.len(), 1);
}

#[test]
fn tags_without_an_identifier_are_never_updates() {
    let tag = format!("{CLASS},START-DATE=\"d\",X-ASSET-URI=\"u\"");
    let (issues, list) = check_interstitials(&[ranges("v", &[&tag, &tag])]);
    assert_eq!(issues.len(), 2);
    assert_eq!(list.len(), 2);
}

#[test]
fn each_playlist_has_its_own_interstitials() {
    let open = complete("");
    let (issues, list) = check_interstitials(&[ranges("v", &[&open, &open]), ranges("w", &[&open])]);
    assert!(issues.is_empty());
    let renditions: Vec<&str> = list.iter().map(|i| i.rendition.as_str()).collect();
    assert_eq!(renditions, vec!["v", "w"]);
}

#[test]
fn attribute_values_may_hold_commas_and_equals_signs() {
    let text: Vec<char> = "A=\"x,y=z\", B = 1 ,C,A=2,D=\"\",E=\"".chars().collect();
    let attributes = parse_attributes(&text);
    assert_eq!(attributes.get("A").as_deref(), Some("2"));
    assert_eq!(attributes.get("B").as_deref(), Some("1"));
    assert_eq!(attributes.get("C"), None);
    assert_eq!(attributes.get("D").as_deref(), Some(""));
    assert_eq!(attributes.get("E").as_deref(), Some("\""));
    let text: Vec<char> = "A=\"x,y=z\"".chars().collect();
    assert_eq!(parse_attributes(&text).get("A").as_deref(), Some("x,y=z"));
}

#[test]
fn numbers_are_recognised_as_the_standard_library_reads_them() {
    for text in [
        "0", "-0", "+1", "1.", ".5", "1.5", "-1.5e10", "1E-3", "1e+3", "inf", "-INF", "Infinity",
        "nan", "+NaN", "", "+", "-", ".", "1e", "e1", "1e+", "1.2.3", "1 ", " 1", "0x1", "1_0",
        "infinit", "na", "--1", "1e1.5", "٣",
    ] {
        let chars: Vec<char> = text.chars().collect();
        assert_eq!(number_like(&chars), text.parse::<f64>().is_ok(), "{text:?}");
    }
}

#[test]
fn names_are_kept_once_and_in_order() {
    let mut set = NameSet::new();
    assert!(set.is_empty());
    for name in ["b", "a", "ab", "b", "B", "é"] {
        set.insert(name.to_string());
    }
    assert_eq!(set.len(), 5);
    assert_eq!(set.join(" "), "B a ab b é");
    assert!(set.contains("ab"));
    assert!(!set.contains("c"));
    let mut sorted: Vec<String> = set.names().to_vec();
    sorted.sort();
    assert_eq!(sorted, set.names().to_vec());
}
