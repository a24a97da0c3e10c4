//! What the findings say: the words of each, with the names, numbers and times
//! of the playlists that it is about.
use crate::attributes::lookup;
use crate::checks::drift::{
    common_end, common_start, duration_rule, greatest, least, overlap_start, pdt_rule,
    total_between, total_findings, totals,
};
use crate::checks::durations::{
    compliance_rule, is_missing, long_rule, longest, slack_findings, target_findings, targets,
};
use crate::checks::headers::{
    header_rule, master_header_findings, master_tag_findings, master_version_findings,
    repeated_rule, singleton_tags, tag_count,
};
use crate::checks::interstitials::{
    asset_faults, choice_faults, id_faults, label_faults, list_faults, start_faults, stray_chars,
    tag_faults, tag_id, word_faults, word_rule,
};
use crate::checks::low_latency::{
    control_findings, edge_findings, has_parts, highest, hint_findings, hold_back_findings, lowest,
    part_inf_findings, part_ratio_findings, part_rule, report_findings, skew_findings,
    skip_findings,
};
use crate::checks::multivariant::{
    bandwidth_findings, bandwidth_rule, codecs_findings, group_findings, group_ids, missing_names,
    reference_findings, uri_members, variant_members, video_findings,
};
use crate::checks::playlists::{
    absent_findings, coverage_rule, endlist_rule, live_rule, order_findings, segment_line,
    sequence_line, undated,
};
use crate::checks::renditions::{
    all_methods, count_findings, discontinuity_findings, method_findings, mix_rule,
};
use crate::checks::versions::{feature_findings, version_rule};
use crate::double::{absolute, fixed, minus, multiple, quotient, rounded, whole, Real};
use crate::gather::{gathered, lemma_gathered_same, picked};
use crate::names::listing;
use crate::text::{
    char_debug, decimal, has_text, joined, last_piece, lines_of, pieces, text_debug, text_or,
    trimmed, without_trailing,
};
use crate::types::{
    IssueView, MasterPlaylist, MasterRendition, MediaPlaylist, MediaRendition, ServerControl,
};
use vstd::prelude::*;

verus! {

/// The header finding quotes the first line as it stands.
pub proof fn law_words_of_header(playlists: Seq<MediaPlaylist>, i: int)
    requires
        0 <= i < playlists.len(),
        header_rule(playlists)(i).len() > 0,
    ensures
        ({
            let all = lines_of(playlists[i].raw_content@);
            let first = if all.len() > 0 {
                all[0]
            } else {
                Seq::<char>::empty()
            };
            header_rule(playlists)(i)[0].message == "RFC 8216bis §4.4.1.1: Playlist '"@
                + playlists[i].name@ + "' does not start with #EXTM3U. First line: '"@ + first
                + "'"@
        }),
{
}

/// The findings on repeated tags come in the order of the tags, and say which
/// tag it is, without its colon, and in how many lines it stands.
pub proof fn law_words_of_repeated_tags(pl: MediaPlaylist, t: int)
    requires
        0 <= t < 10,
        repeated_rule(pl)(t).len() > 0,
    ensures
        singleton_tags() == seq![
            "#EXT-X-VERSION:",
            "#EXT-X-INDEPENDENT-SEGMENTS",
            "#EXT-X-START:",
            "#EXT-X-TARGETDURATION:",
            "#EXT-X-MEDIA-SEQUENCE:",
            "#EXT-X-DISCONTINUITY-SEQUENCE:",
            "#EXT-X-PLAYLIST-TYPE:",
            "#EXT-X-I-FRAMES-ONLY",
            "#EXT-X-PART-INF:",
            "#EXT-X-SERVER-CONTROL:",
        ],
        repeated_rule(pl)(t)[0].message == "RFC 8216bis §4.4.1.2/§4.4.3: Singleton tag '"@
            + without_trailing(singleton_tags()[t]@, ':') + "' appears "@ + decimal(
            tag_count(lines_of(pl.raw_content@), singleton_tags()[t]@),
        ) + " times in '"@ + pl.name@ + "'. It MUST appear at most once."@,
{
}

/// The findings on the structure of the multivariant playlist name it by its
/// URL, or as the multivariant playlist where it has none.
pub proof fn law_words_of_structure(master: MasterPlaylist, tag: Seq<char>)
    ensures
        ({
            let label = if master.url@.len() > 0 {
                master.url@
            } else {
                "multivariant playlist"@
            };
            let all = lines_of(master.raw_content@);
            let first = if all.len() > 0 {
                all[0]
            } else {
                Seq::<char>::empty()
            };
            let header = master_header_findings(master);
            let tags = master_tag_findings(master, tag);
            let version = master_version_findings(master);
            &&& header.len() > 0 ==> header[0].message
                == "RFC 8216bis §4.4.1.1: Multivariant Playlist '"@ + label
                + "' does not start with #EXTM3U. First line: '"@ + first + "'"@
            &&& tags.len() > 0 ==> tags[0].message
                == "RFC 8216bis §4.4.1.2/§4.4.2: Singleton tag '"@ + without_trailing(tag, ':')
                + "' appears "@ + decimal(tag_count(all, tag)) + " times in Multivariant Playlist '"@
                + label + "'. It MUST appear at most once."@
            &&& version.len() > 0 ==> version[0].message
                == "RFC 8216bis §8: Multivariant Playlist '"@ + label
                + "' uses EXT-X-DEFINE (variable substitution) which requires VERSION >= 8. Declared version: "@
                + decimal(master.version as nat) + "."@
        }),
{
}

/// The findings on target durations give the durations, rounded and not, and
/// the target.
pub proof fn law_words_of_target(playlists: Seq<MediaPlaylist>, i: int, k: int)
    requires
        0 <= i < playlists.len(),
        0 <= k < playlists[i].segments@.len(),
    ensures
        ({
            let pl = playlists[i];
            let target = decimal(whole(pl.target_duration@));
            let seg = pl.segments@[k];
            let most = longest(pl.segments@);
            let slack = slack_findings(pl);
            &&& is_missing(pl.target_duration@) ==> compliance_rule(playlists)(i)[0].message
                == "rfc8216bis §4.4.3.1: EXT-X-TARGETDURATION missing or zero in '"@ + pl.name@
                + "'. Every Media Playlist MUST declare a positive TARGETDURATION."@
            &&& long_rule(pl)(k).len() > 0 ==> long_rule(pl)(k)[0].message
                == "rfc8216bis §4.4.3.1: Segment "@ + decimal(k as nat) + " in '"@ + pl.name@
                + "' duration "@ + fixed(seg.duration@, 6) + "s (round="@ + decimal(
                rounded(seg.duration@),
            ) + "s) exceeds TARGETDURATION "@ + target + "s."@
            &&& slack.len() > 0 ==> slack[0].message == "rfc8216bis §4.4.3.1: TARGETDURATION="@
                + target + "s in '"@ + pl.name@
                + "' is more than 1s above the longest segment (longest="@ + fixed(most, 6)
                + "s, round="@ + decimal(rounded(most))
                + "s). Consider reducing TARGETDURATION for accuracy."@
        }),
{
}

/// The findings on single playlists say how many segments there are, and how
/// many of them lack a date.
pub proof fn law_words_of_playlists(playlists: Seq<MediaPlaylist>, i: int)
    requires
        0 <= i < playlists.len(),
    ensures
        ({
            let pl = playlists[i];
            let dates = coverage_rule(playlists)(i);
            let window = live_rule(playlists)(i);
            let end = endlist_rule(playlists)(i);
            let absent = absent_findings(pl);
            let late = order_findings(pl);
            let all = lines_of(pl.raw_content@);
            &&& dates.len() > 0 ==> dates[0].message == "RFC 8216bis §6.2.4: Playlist '"@ + pl.name@
                + "' has partial PDT coverage: "@ + decimal(undated(pl.segments@)) + " of "@
                + decimal(pl.segments@.len()) + " segments lack EXT-X-PROGRAM-DATE-TIME."@
            &&& window.len() > 0 ==> window[0].message == "RFC 8216 §6.2.2: Live playlist '"@
                + pl.name@ + "' contains only "@ + decimal(pl.segments@.len())
                + " segment(s). A Live Media Playlist MUST retain at least 3 segments."@
            &&& end.len() > 0 ==> end[0].message == "RFC 8216bis §4.4.3.5: Playlist '"@ + pl.name@
                + "' declares PLAYLIST-TYPE:VOD but is missing EXT-X-ENDLIST. A VOD playlist MUST end with EXT-X-ENDLIST."@
            &&& absent.len() > 0 ==> absent[0].message == "rfc8216bis §4.4.3.2: Live playlist '"@
                + pl.name@
                + "' does not declare EXT-X-MEDIA-SEQUENCE. For live playlists the tag SHOULD be present so clients can track the sliding window."@
            &&& late.len() > 0 ==> late[0].message
                == "rfc8216bis §4.4.3.2: EXT-X-MEDIA-SEQUENCE MUST appear before the first Media Segment URI in '"@
                + pl.name@ + "' (tag at line "@ + decimal((sequence_line(all)->0 + 1) as nat)
                + ", first segment at line "@ + decimal((segment_line(all)->0 + 1) as nat) + ")."@
        }),
{
}

/// The version findings come in the order of the versions, and say which
/// feature needs which.
pub proof fn law_words_of_versions(
    playlists: Seq<MediaPlaylist>,
    i: int,
    used: bool,
    feature: Seq<char>,
    required: nat,
)
    requires
        0 <= i < playlists.len(),
    ensures
        ({
            let pl = playlists[i];
            let text = pl.raw_content@;
            let one = feature_findings(pl, used, feature, required);
            let at = crate::checks::versions::first_fractional(pl.segments@);
            let iframes = has_text(text, "#EXT-X-I-FRAMES-ONLY"@);
            &&& one.len() > 0 ==> one[0].message == "RFC 8216bis §8: '"@ + pl.name@ + "' uses "@
                + feature + " which requires VERSION >= "@ + decimal(required)
                + ". Declared version: "@ + decimal(pl.version as nat) + "."@
            &&& version_rule(playlists)(i) == feature_findings(
                pl,
                has_text(text, "#EXT-X-KEY:"@) && has_text(text, "IV="@),
                "EXT-X-KEY with IV attribute"@,
                2,
            ) + (if at is Some {
                feature_findings(
                    pl,
                    true,
                    "floating-point EXTINF ("@ + fixed(pl.segments@[at->0].duration@, 3) + "s)"@,
                    3,
                )
            } else {
                Seq::<IssueView>::empty()
            }) + feature_findings(
                pl,
                has_text(text, "#EXT-X-BYTERANGE:"@),
                "EXT-X-BYTERANGE"@,
                4,
            ) + feature_findings(
                pl,
                has_text(text, "#EXT-X-MAP:"@),
                if iframes {
                    "EXT-X-MAP in a playlist with EXT-X-I-FRAMES-ONLY"@
                } else {
                    "EXT-X-MAP without EXT-X-I-FRAMES-ONLY"@
                },
                if iframes {
                    5
                } else {
                    6
                },
            ) + feature_findings(pl, has_text(text, "#EXT-X-SKIP:"@), "EXT-X-SKIP"@, 9)
        }),
{
}

/// The findings on entries list the groups, the codecs and the bandwidths of
/// all the entries that they are about.
pub proof fn law_words_of_entries(vs: Seq<MasterRendition>, i: int)
    requires
        0 <= i < vs.len(),
    ensures
        ({
            let v = vs[i];
            let none = "(none)"@;
            let groups = "AUDIO="@ + text_or(v.audio_group, none) + ", SUBTITLES="@ + text_or(
                v.subtitle_group,
                none,
            ) + ", CLOSED-CAPTIONS="@ + text_or(v.closed_captions, none) + ", VIDEO="@ + text_or(
                v.video_group,
                none,
            );
            let alike = variant_members(vs, i);
            let same_uri = uri_members(vs, i);
            let codecs = codecs_findings(vs, i);
            let rates = bandwidth_findings(vs, i);
            let video = video_findings(vs, i);
            let missing = bandwidth_rule(vs)(i);
            &&& codecs.len() > 0 ==> codecs[0].message
                == "rfc8216bis §4.4.6.2: Multiple EXT-X-STREAM-INF tags share URI '"@ + v.uri@
                + "' and the same Rendition Groups ("@ + groups
                + ") but declare different CODECS values: "@ + joined(
                Seq::new(alike.len(), |k: int| "CODECS="@ + text_or(vs[alike[k]].codecs, none)),
                ", "@,
            ) + ". One of them misdescribes what the URI contains."@
            &&& rates.len() > 0 ==> rates[0].message
                == "rfc8216bis §4.4.6.2: Multiple EXT-X-STREAM-INF tags share URI '"@ + v.uri@
                + "' and the same Rendition Groups ("@ + groups
                + ") but declare different BANDWIDTH values: "@ + joined(
                Seq::new(
                    alike.len(),
                    |k: int|
                        "BANDWIDTH="@ + if vs[alike[k]].bandwidth is Some {
                            decimal(vs[alike[k]].bandwidth->0 as nat)
                        } else {
                            none
                        },
                ),
                ", "@,
            ) + ". BANDWIDTH is the peak bit rate of the same media in each case."@
            &&& video.len() > 0 ==> video[0].message
                == "rfc8216bis §6.2.4: Multiple EXT-X-STREAM-INF tags share URI '"@ + v.uri@
                + "' but declare different video codecs: "@ + joined(
                Seq::new(
                    same_uri.len(),
                    |k: int|
                        "AUDIO="@ + text_or(vs[same_uri[k]].audio_group, none) + " CODECS="@
                            + text_or(vs[same_uri[k]].codecs, none),
                ),
                ", "@,
            )
                + ". The same media cannot be encoded two ways, and every Variant Stream of a presentation MUST use the same video encoding."@
            &&& missing.len() > 0 ==> missing[0].message
                == "RFC 8216bis §4.4.6.2: EXT-X-STREAM-INF for URI '"@ + v.uri@
                + "' is missing the BANDWIDTH attribute, which is REQUIRED."@
        }),
{
    let none = "(none)"@;
    let alike = variant_members(vs, i);
    let same_uri = uri_members(vs, i);
    assert(crate::checks::multivariant::codecs_details(vs, alike) =~= Seq::new(
        alike.len(),
        |k: int| "CODECS="@ + text_or(vs[alike[k]].codecs, none),
    ));
    assert(crate::checks::multivariant::bandwidth_details(vs, alike) =~= Seq::new(
        alike.len(),
        |k: int|
            "BANDWIDTH="@ + if vs[alike[k]].bandwidth is Some {
                decimal(vs[alike[k]].bandwidth->0 as nat)
            } else {
                none
            },
    ));
    assert(crate::checks::multivariant::video_details(vs, same_uri) =~= Seq::new(
        same_uri.len(),
        |k: int|
            "AUDIO="@ + text_or(vs[same_uri[k]].audio_group, none) + " CODECS="@ + text_or(
                vs[same_uri[k]].codecs,
                none,
            ),
    ));
}

/// The entries that are listed are, in order, those that pair the URI with the
/// same groups, and those with the same URI.
pub proof fn law_listed_entries(vs: Seq<MasterRendition>, i: int, j: int)
    requires
        0 <= i < vs.len(),
        0 <= j < vs.len(),
    ensures
        variant_members(vs, i).contains(j) <==> crate::laws::variants::pair_alike(vs[j], vs[i]),
        uri_members(vs, i).contains(j) <==> vs[j].uri@ == vs[i].uri@,
        forall|x: int, y: int|
            0 <= x < y < variant_members(vs, i).len() ==> #[trigger] variant_members(vs, i)[x]
                < #[trigger] variant_members(vs, i)[y],
        forall|x: int, y: int|
            0 <= x < y < uri_members(vs, i).len() ==> #[trigger] uri_members(vs, i)[x]
                < #[trigger] uri_members(vs, i)[y],
{
    let p = crate::checks::multivariant::like_variant(vs, i);
    let q = crate::checks::multivariant::like_uri(vs, i);
    crate::gather::lemma_picked(vs.len(), p);
    crate::gather::lemma_picked(vs.len(), q);
    if variant_members(vs, i).contains(j) {
        let x = choose|x: int|
            0 <= x < variant_members(vs, i).len() && variant_members(vs, i)[x] == j;
        assert(p(j));
    }
    if uri_members(vs, i).contains(j) {
        let x = choose|x: int| 0 <= x < uri_members(vs, i).len() && uri_members(vs, i)[x] == j;
        assert(q(j));
    }
    if crate::laws::variants::pair_alike(vs[j], vs[i]) {
        assert(p(j));
    }
    if vs[j].uri@ == vs[i].uri@ {
        assert(q(j));
    }
}

/// The findings on groups say what was asked for and list what there is, in
/// the order of the names.
pub proof fn law_words_of_groups(
    rs: Seq<MediaRendition>,
    uri: Seq<char>,
    attr: Seq<char>,
    group: Seq<char>,
)
    ensures
        ({
            let found = reference_findings(rs, uri, attr, Some(group));
            let ids = group_ids(rs, attr);
            let known = if ids.len() == 0 {
                "(none)"@
            } else {
                joined(listing(ids), ", "@)
            };
            let missing = listing(missing_names(rs, attr, group));
            let incomplete = group_findings(rs, attr, group);
            &&& found.len() > 0 ==> found[0].message
                == "rfc8216bis §4.4.6.2: EXT-X-STREAM-INF for URI '"@ + uri + "' has "@ + attr
                + "=\""@ + group + "\" but no EXT-X-MEDIA tag with TYPE="@ + attr
                + " declares that GROUP-ID. The attribute value MUST match the GROUP-ID of a Rendition Group of that type (declared "@
                + attr + " groups: "@ + known + ")."@
            &&& incomplete.len() > 0 ==> incomplete[0].message == "rfc8216bis §4.4.6.1.1: "@ + attr
                + " Group '"@ + group
                + "' is missing member(s) present in other groups of the same type: "@ + joined(
                Seq::new(missing.len(), |k: int| "'"@ + missing[k] + "'"@),
                ", "@,
            ) + ". All groups of the same TYPE MUST have the same set of members."@
        }),
{
    let missing = listing(missing_names(rs, attr, group));
    assert(missing.map_values(|n: Seq<char>| crate::checks::multivariant::quoted(n)) =~= Seq::new(
        missing.len(),
        |k: int| "'"@ + missing[k] + "'"@,
    ));
}

/// The findings on what renditions have in common list the renditions that are
/// compared, each with its own value.
pub proof fn law_words_of_agreement(playlists: Seq<MediaPlaylist>, i: int)
    requires
        0 <= i < playlists.len(),
    ensures
        ({
            let n = playlists.len();
            let targets_found = target_findings(playlists);
            let gaps = discontinuity_findings(playlists);
            let numbers = count_findings(playlists);
            let mix = mix_rule(playlists)(i);
            let methods = method_findings(playlists);
            let shown = listing(playlists[i].encryption_methods@);
            &&& targets_found.len() > 0 ==> targets_found[0].message
                == "rfc8216bis §6.2.4: EXT-X-TARGETDURATION values differ across renditions ("@
                + decimal(targets(playlists).to_set().len())
                + " distinct values). Every Media Playlist of a presentation MUST declare the same TARGETDURATION, apart from I-frame playlists with PLAYLIST-TYPE:VOD, which are excluded here. Details: "@
                + joined(
                Seq::new(
                    n,
                    |k: int|
                        playlists[k].name@ + "="@ + fixed(playlists[k].target_duration@, 0) + "s"@,
                ),
                ", "@,
            )
            &&& targets(playlists) == Seq::new(n, |k: int| whole(playlists[k].target_duration@))
            &&& gaps.len() > 0 ==> gaps[0].message
                == "rfc8216bis §6.2.4: EXT-X-DISCONTINUITY-SEQUENCE values differ across renditions: "@
                + joined(
                Seq::new(
                    n,
                    |k: int|
                        playlists[k].name@ + "="@ + decimal(
                            playlists[k].discontinuity_sequence as nat,
                        ),
                ),
                ", "@,
            )
                + ". Renditions of the same presentation MUST carry matching discontinuity sequence numbers so clients can align their timelines."@
            &&& numbers.len() > 0 ==> numbers[0].message
                == "Segment count mismatch across VIDEO renditions: "@ + joined(
                Seq::new(
                    n,
                    |k: int| playlists[k].name@ + "="@ + decimal(playlists[k].segments@.len()),
                ),
                ", "@,
            ) + ". All video renditions should have the same number of segments."@
            &&& mix.len() > 0 ==> mix[0].message == "RFC 8216bis §4.4.4.4: Playlist '"@
                + playlists[i].name@ + "' uses multiple encryption methods: "@ + ("["@ + joined(
                Seq::new(shown.len(), |k: int| text_debug(shown[k])),
                ", "@,
            ) + "]"@) + "."@
            &&& methods.len() > 0 ==> methods[0].message
                == "rfc8216bis §4.4.4.4: Renditions declare different EXT-X-KEY METHOD values: "@
                + joined(listing(all_methods(playlists)), ", "@)
                + ". Check this is intended — a client that can decrypt one rendition may not be able to switch to another."@
        }),
{
    let n = playlists.len();
    let shown = listing(playlists[i].encryption_methods@);
    assert(crate::checks::durations::target_details(playlists) =~= Seq::new(
        n,
        |k: int| playlists[k].name@ + "="@ + fixed(playlists[k].target_duration@, 0) + "s"@,
    ));
    assert(targets(playlists) =~= Seq::new(n, |k: int| whole(playlists[k].target_duration@)));
    assert(crate::checks::renditions::discontinuity_details(playlists) =~= Seq::new(
        n,
        |k: int| playlists[k].name@ + "="@ + decimal(playlists[k].discontinuity_sequence as nat),
    ));
    assert(crate::checks::renditions::count_details(playlists) =~= Seq::new(
        n,
        |k: int| playlists[k].name@ + "="@ + decimal(playlists[k].segments@.len()),
    ));
    assert(shown.map_values(|t: Seq<char>| text_debug(t)) =~= Seq::new(
        shown.len(),
        |k: int| text_debug(shown[k]),
    ));
}

/// The findings on drift give the number, the times and their difference.
pub proof fn law_words_of_drift(a: MediaPlaylist, b: MediaPlaylist, tolerance: Real, k: int)
    ensures
        ({
            let n = overlap_start(a, b) + k;
            let x = a.segments@[n - a.media_sequence - a.skipped_segments];
            let y = b.segments@[n - b.media_sequence - b.skipped_segments];
            let drift = duration_rule(a, b, tolerance)(k);
            let dates = pdt_rule(a, b, tolerance)(k);
            &&& drift.len() > 0 ==> drift[0].message == "EXTINF drift at MSN "@ + decimal(n as nat)
                + ": '"@ + a.name@ + "' has "@ + fixed(x.duration@, 3) + "s vs '"@ + b.name@
                + "' has "@ + fixed(y.duration@, 3) + "s (diff="@ + fixed(
                absolute(minus(x.duration@, y.duration@)),
                3,
            ) + "s, tolerance="@ + fixed(tolerance, 3) + "s)."@
            &&& dates.len() > 0 ==> dates[0].message == "PDT misalignment at MSN "@ + decimal(
                n as nat,
            ) + ": diff="@ + fixed(absolute(minus((x.pdt->0)@, (y.pdt->0)@)), 3)
                + "s (tolerance="@ + fixed(tolerance, 3) + "s)."@
        }),
{
}

/// The finding on total durations gives the greatest difference, the common
/// window and each total.
pub proof fn law_words_of_totals(pls: Seq<MediaPlaylist>, tolerance: Real)
    requires
        total_findings(pls, tolerance).len() > 0,
    ensures
        ({
            let start = common_start(pls);
            let end = common_end(pls);
            total_findings(pls, tolerance)[0].message
                == "Cumulative EXTINF drift across renditions: "@ + fixed(
                minus(greatest(totals(pls)), least(totals(pls))),
                3,
            ) + "s (tolerance="@ + fixed(tolerance, 3) + "s) over "@ + decimal(
                (end - start) as nat,
            ) + " common segments (MSN "@ + decimal(start as nat) + "-"@ + decimal(
                (end - 1) as nat,
            ) + "). Totals: "@ + joined(
                Seq::new(
                    pls.len(),
                    |k: int|
                        pls[k].name@ + "="@ + fixed(total_between(pls[k], start, end), 3) + "s"@,
                ),
                ", "@,
            )
        }),
{
    let start = common_start(pls);
    let end = common_end(pls);
    assert(crate::checks::drift::total_details(pls, totals(pls)) =~= Seq::new(
        pls.len(),
        |k: int| pls[k].name@ + "="@ + fixed(total_between(pls[k], start, end), 3) + "s"@,
    ));
}

/// The findings on partial segments say what is missing or too long.
pub proof fn law_words_of_parts(pl: MediaPlaylist, k: int)
    ensures
        ({
            let name = pl.name@;
            let inf = part_inf_findings(pl);
            let hold = hold_back_findings(pl);
            let long = part_rule(pl)(k);
            let hint = hint_findings(pl);
            let reports = report_findings(pl);
            &&& inf.len() > 0 ==> inf[0].message == "LL-HLS §6.2.5.2: '"@ + name
                + "' contains EXT-X-PART tags but no EXT-X-PART-INF. PART-TARGET is required."@
            &&& hold.len() > 0 ==> hold[0].message == "rfc8216bis §4.4.3.8: '"@ + name
                + "' declares EXT-X-PART-INF but EXT-X-SERVER-CONTROL has no PART-HOLD-BACK. The attribute is REQUIRED when the playlist contains EXT-X-PART-INF."@
            &&& long.len() > 0 ==> long[0].message == "LL-HLS §4.4.4.9: Part "@ + decimal(k as nat)
                + " in '"@ + name + "' has duration "@ + fixed(pl.parts@[k].duration@, 5)
                + "s exceeding PART-TARGET "@ + fixed((pl.part_target->0)@, 5) + "s."@
                && long[0].uri_a == Some(pl.parts@[k].uri@) && long[0].segment_index
                == crate::types::index_number(k)
            &&& hint.len() > 0 ==> hint[0].message == "LL-HLS §4.4.5.3: '"@ + name
                + "' is missing EXT-X-PRELOAD-HINT with TYPE=PART at the playlist tail. Clients cannot prefetch the next partial segment."@
            &&& reports.len() > 0 ==> reports[0].message == "LL-HLS §4.4.5.4: '"@ + name
                + "' has no EXT-X-RENDITION-REPORT tags. Each media playlist should report the last MSN/Part of every other rendition so clients can switch without extra fetches."@
        }),
{
}

/// The findings on server control give the time, the target, the least time
/// that is asked for, and the ratio.
pub proof fn law_words_of_server_control(pl: MediaPlaylist, sc: ServerControl)
    requires
        pl.server_control == Some(sc),
    ensures
        ({
            let target = pl.target_duration@;
            let part = (pl.part_target->0)@;
            let csu = (sc.can_skip_until->0)@;
            let phb = (sc.part_hold_back->0)@;
            let hb = (sc.hold_back->0)@;
            let skip = skip_findings(pl);
            let ratio = part_ratio_findings(pl);
            let edge = edge_findings(pl);
            let two = crate::checks::low_latency::falls_short(phb, part, 2);
            &&& skip.len() > 0 ==> skip[0].message == "rfc8216bis §4.4.3.8: '"@ + pl.name@
                + "' CAN-SKIP-UNTIL="@ + fixed(csu, 3) + "s < 6× TARGETDURATION="@ + fixed(
                target,
                3,
            ) + "s (MUST be ≥ "@ + fixed(multiple(target, 6), 3) + "s)."@ && skip[0].uri_note
                == Some("ratio="@ + fixed(quotient(csu, target), 2) + "×, minimum 6.00×"@)
            &&& ratio.len() > 0 && two ==> ratio[0].message == "LL-HLS §4.4.3.8: '"@ + pl.name@
                + "' PART-HOLD-BACK="@ + fixed(phb, 5) + "s < 2× PART-TARGET="@ + fixed(part, 5)
                + "s (MUST be ≥ "@ + fixed(multiple(part, 2), 5) + "s)."@ && ratio[0].uri_note
                == Some("ratio="@ + fixed(quotient(phb, part), 3) + "×, MUST be ≥ 2.000×"@)
            &&& ratio.len() > 0 && !two ==> ratio[0].message == "LL-HLS §4.4.3.8: '"@ + pl.name@
                + "' PART-HOLD-BACK="@ + fixed(phb, 5) + "s < 3× PART-TARGET="@ + fixed(part, 5)
                + "s (SHOULD be ≥ "@ + fixed(multiple(part, 3), 5) + "s)."@ && ratio[0].uri_note
                == Some("ratio="@ + fixed(quotient(phb, part), 3) + "×, SHOULD be ≥ 3.000×"@)
            &&& edge.len() > 0 ==> edge[0].message == "LL-HLS §4.4.3.8: '"@ + pl.name@
                + "' HOLD-BACK="@ + fixed(hb, 3) + "s < 3× TARGETDURATION="@ + fixed(target, 3)
                + "s (MUST be ≥ "@ + fixed(multiple(target, 3), 3) + "s)."@ && edge[0].uri_note
                == Some("ratio="@ + fixed(quotient(hb, target), 2) + "×, minimum 3.00×"@)
        }),
{
}

/// The findings across low-latency playlists give the numbers furthest apart,
/// with the last part of the URI, and the names of the playlists compared.
pub proof fn law_words_across_playlists(
    playlists: Seq<MediaPlaylist>,
    rs: Seq<(Seq<char>, int)>,
    uri: Seq<char>,
)
    ensures
        ({
            let high = highest(rs, uri);
            let low = lowest(rs, uri);
            let skew = skew_findings(rs, uri);
            let control = control_findings(playlists);
            let m = picked(playlists.len(), has_parts(playlists));
            &&& skew.len() > 0 ==> skew[0].message
                == "LL-HLS §4.4.5.4: EXT-X-RENDITION-REPORT LAST-MSN skew of "@ + decimal(
                (high - low) as nat,
            ) + " segments for '"@ + last_piece(uri, '/') + "' (reported MSNs: "@ + decimal(
                low as nat,
            ) + "–"@ + decimal(high as nat)
                + "). All renditions should report the same LAST-MSN ±1 segment."@
            &&& control.len() > 0 ==> control[0].message
                == "LL-HLS §6.2.4: EXT-X-SERVER-CONTROL attributes differ across renditions ["@
                + joined(Seq::new(m.len(), |k: int| playlists[m[k]].name@), ", "@)
                + "]. All Media Playlists MUST carry identical SERVER-CONTROL values."@
        }),
{
    let m = picked(playlists.len(), has_parts(playlists));
    assert(crate::checks::low_latency::part_names(playlists) =~= Seq::new(
        m.len(),
        |k: int| playlists[m[k]].name@,
    ));
}

/// What is noted with an interstitial and what is reported on it say what is
/// missing in the tag.
pub proof fn law_words_of_needed_attributes(
    id: Seq<char>,
    start: Seq<char>,
    uri: bool,
    list: bool,
    name: Seq<char>,
)
    ensures
        ({
            let no_id = id_faults(id, name);
            let no_start = start_faults(id, start, name);
            let assets = asset_faults(id, uri, list, name);
            &&& no_id.len() > 0 ==> no_id[0].note == "Missing required ID attribute"@
                && no_id[0].message == "Interstitial: DATERANGE in '"@ + name
                + "' missing ID (MUST)"@
            &&& no_start.len() > 0 ==> no_start[0].note == "Missing required START-DATE"@
                && no_start[0].message == "Interstitial: ["@ + id + "] missing START-DATE in '"@
                + name + "'"@
            &&& assets.len() > 0 && !uri ==> assets[0].note
                == "Missing X-ASSET-URI or X-ASSET-LIST (MUST have one)"@ && assets[0].message
                == "Interstitial: ["@ + id + "] missing X-ASSET-URI/X-ASSET-LIST in '"@ + name
                + "'"@
            &&& assets.len() > 0 && uri ==> assets[0].note
                == "Has both X-ASSET-URI and X-ASSET-LIST (MUST have only one)"@
                && assets[0].message == "Interstitial: ["@ + id
                + "] has both X-ASSET-URI and X-ASSET-LIST in '"@ + name + "' (MUST NOT)"@
        }),
{
}

/// What is noted with an interstitial and what is reported on it quote the
/// value that is not allowed and name those that are.
pub proof fn law_words_of_values(
    id: Seq<char>,
    key: Seq<char>,
    value: Seq<char>,
    one: Seq<char>,
    two: Seq<char>,
    allowed: Seq<char>,
    name: Seq<char>,
)
    ensures
        ({
            let word = word_faults(id, key, value, one, two, allowed, name);
            let choice = choice_faults(id, key, Some(value), one, two, name);
            let label = label_faults(id, Some(value), name);
            let stray = stray_chars(value);
            let shown = "["@ + joined(Seq::new(stray.len(), |k: int| char_debug(stray[k])), ", "@)
                + "]"@;
            &&& word.len() > 0 ==> word[0].note == key + " value '"@ + value
                + "' invalid (must be "@ + one + " or "@ + two + ")"@ && word[0].message
                == "Interstitial: ["@ + id + "] "@ + key + "='"@ + value + "' invalid in '"@ + name
                + "' (rfc8216bis §D.2: values must be "@ + allowed + ")."@
            &&& choice.len() > 0 ==> choice[0].note == key + "='"@ + value
                + "' invalid (must be "@ + one + " or "@ + two + ")"@ && choice[0].message
                == "Interstitial: ["@ + id + "] "@ + key + "='"@ + value + "' invalid in '"@ + name
                + "' (rfc8216bis §D.2: must be \""@ + one + "\" or \""@ + two + "\")."@
            &&& label.len() > 0 ==> label[0].note == "X-SKIP-CONTROL-LABEL-ID='"@ + value
                + "' contains invalid chars "@ + shown && label[0].message == "Interstitial: ["@
                + id + "] X-SKIP-CONTROL-LABEL-ID='"@ + value + "' contains invalid characters "@
                + shown + " in '"@ + name
                + "' (rfc8216bis §D.3: MUST be [a-z][A-Z]'-''_' only)."@
        }),
{
    let stray = stray_chars(value);
    assert(stray.map_values(|c: char| char_debug(c)) =~= Seq::new(
        stray.len(),
        |k: int| char_debug(stray[k]),
    ));
}

/// The faults of a tag come in a fixed order, each on its own attribute.
pub proof fn law_order_of_faults(a: Seq<(Seq<char>, Seq<char>)>, name: Seq<char>, id: Seq<char>)
    requires
        lookup(a, "ID"@) == Some(id) || lookup(a, "ID"@) is None && id == Seq::<char>::empty(),
    ensures
        ({
            let start = if lookup(a, "START-DATE"@) is Some {
                lookup(a, "START-DATE"@)->0
            } else {
                Seq::<char>::empty()
            };
            tag_faults(a, name) == id_faults(id, name) + start_faults(id, start, name)
                + asset_faults(
                id,
                lookup(a, "X-ASSET-URI"@) is Some,
                lookup(a, "X-ASSET-LIST"@) is Some,
                name,
            ) + list_faults(
                id,
                "X-SNAP"@,
                lookup(a, "X-SNAP"@),
                "IN"@,
                "OUT"@,
                "OUT and/or IN"@,
                name,
            ) + list_faults(
                id,
                "X-RESTRICT"@,
                lookup(a, "X-RESTRICT"@),
                "SKIP"@,
                "JUMP"@,
                "SKIP and/or JUMP"@,
                name,
            ) + choice_faults(
                id,
                "X-CONTENT-MAY-VARY"@,
                lookup(a, "X-CONTENT-MAY-VARY"@),
                "YES"@,
                "NO"@,
                name,
            ) + choice_faults(
                id,
                "X-TIMELINE-OCCUPIES"@,
                lookup(a, "X-TIMELINE-OCCUPIES"@),
                "POINT"@,
                "RANGE"@,
                name,
            ) + choice_faults(
                id,
                "X-TIMELINE-STYLE"@,
                lookup(a, "X-TIMELINE-STYLE"@),
                "HIGHLIGHT"@,
                "PRIMARY"@,
                name,
            ) + label_faults(id, lookup(a, "X-SKIP-CONTROL-LABEL-ID"@), name)
        }),
{
    if lookup(a, "ID"@) is None {
        assert(tag_id(a) =~= id);
    }
}

/// The words of a list are looked at one by one, without the white space round
/// them.
pub proof fn law_words_one_by_one(
    id: Seq<char>,
    key: Seq<char>,
    value: Seq<char>,
    one: Seq<char>,
    two: Seq<char>,
    allowed: Seq<char>,
    name: Seq<char>,
)
    ensures
        ({
            let words = pieces(value, ',');
            list_faults(id, key, Some(value), one, two, allowed, name) == gathered(
                words.len(),
                |k: int| word_faults(id, key, trimmed(words[k]), one, two, allowed, name),
            )
        }),
{
    let words = pieces(value, ',');
    lemma_gathered_same(
        words.len(),
        word_rule(id, key, value, one, two, allowed, name),
        |k: int| word_faults(id, key, trimmed(words[k]), one, two, allowed, name),
    );
}

} // verus!
