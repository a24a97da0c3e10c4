//! Low-latency playlists: partial segments, server control and rendition
//! reports.
use crate::gather::{
    all_raised_by, disagree, gathered, lemma_disagree, lemma_gathered_raised_by, picked, positions,
};
use crate::double::{
    fixed, less, minus, multiple, plus, quotient, thousandth, whole, zero, Double, Real, THOUSANDTH,
};
use crate::text::{
    add_text, after_last, chars_of, decimal, is_text, join, joined, last_piece, number, optional,
    same_text, string_of, texts,
};
use crate::types::{
    findings, named, produced_by, report, CheckId, Issue, IssueView, MediaPlaylist, Severity,
};
use vstd::prelude::*;

verus! {

/// A playlist with partial segments declares their target duration.
pub open spec fn part_inf_findings(pl: MediaPlaylist) -> Seq<IssueView> {
    if pl.parts@.len() > 0 && pl.part_target is None {
        seq![
            IssueView::on_rendition(
                Severity::Error,
                pl.name@,
                "LL-HLS §6.2.5.2: '"@ + pl.name@
                    + "' contains EXT-X-PART tags but no EXT-X-PART-INF. PART-TARGET is required."@,
            ),
        ]
    } else {
        seq![]
    }
}

/// The PART-HOLD-BACK that a playlist declares.
pub open spec fn part_hold_back(pl: MediaPlaylist) -> Option<Double> {
    match pl.server_control {
        Some(sc) => sc.part_hold_back,
        None => None,
    }
}

/// A playlist that declares a target duration for partial segments says how
/// far from the live edge a client may start playing them.
pub open spec fn hold_back_findings(pl: MediaPlaylist) -> Seq<IssueView> {
    if pl.part_target is Some && part_hold_back(pl) is None {
        seq![
            IssueView::on_rendition(
                Severity::Error,
                pl.name@,
                "rfc8216bis §4.4.3.8: '"@ + pl.name@
                    + "' declares EXT-X-PART-INF but EXT-X-SERVER-CONTROL has no PART-HOLD-BACK. The attribute is REQUIRED when the playlist contains EXT-X-PART-INF."@,
            ),
        ]
    } else {
        seq![]
    }
}

pub open spec fn part_rule(pl: MediaPlaylist) -> spec_fn(int) -> Seq<IssueView> {
    |i: int|
        {
            let part = pl.parts@[i];
            let target = pl.part_target->0;
            if less(plus(target@, thousandth()), part.duration@) {
                seq![
                    IssueView::on_segment(
                        Severity::Error,
                        i,
                        pl.name@,
                        part.uri@,
                        "LL-HLS §4.4.4.9: Part "@ + decimal(i as nat) + " in '"@ + pl.name@
                            + "' has duration "@ + fixed(part.duration@, 5)
                            + "s exceeding PART-TARGET "@ + fixed(target@, 5) + "s."@,
                    ),
                ]
            } else {
                seq![]
            }
        }
}

/// No partial segment is longer than the target by more than a millisecond.
pub open spec fn part_findings(pl: MediaPlaylist) -> Seq<IssueView> {
    if pl.part_target is Some {
        gathered(pl.parts@.len(), part_rule(pl))
    } else {
        seq![]
    }
}

/// A playlist with partial segments hints at the next one.
pub open spec fn hint_findings(pl: MediaPlaylist) -> Seq<IssueView> {
    if pl.parts@.len() > 0 && !(pl.preload_hint_uri is Some && optional(pl.preload_hint_type)
        == Some("PART"@)) {
        seq![
            IssueView::on_rendition(
                Severity::Warn,
                pl.name@,
                "LL-HLS §4.4.5.3: '"@ + pl.name@
                    + "' is missing EXT-X-PRELOAD-HINT with TYPE=PART at the playlist tail. Clients cannot prefetch the next partial segment."@,
            ),
        ]
    } else {
        seq![]
    }
}

/// A playlist with partial segments reports on the other renditions.
pub open spec fn report_findings(pl: MediaPlaylist) -> Seq<IssueView> {
    if pl.parts@.len() > 0 && pl.rendition_reports@.len() == 0 {
        seq![
            IssueView::on_rendition(
                Severity::Warn,
                pl.name@,
                "LL-HLS §4.4.5.4: '"@ + pl.name@
                    + "' has no EXT-X-RENDITION-REPORT tags. Each media playlist should report the last MSN/Part of every other rendition so clients can switch without extra fetches."@,
            ),
        ]
    } else {
        seq![]
    }
}

/// Whether a time is below a multiple of another by more than a millisecond.
pub open spec fn falls_short(x: Real, base: Real, factor: nat) -> bool {
    less(x, minus(multiple(base, factor), thousandth()))
}

/// CAN-SKIP-UNTIL is at least six target durations.
pub open spec fn skip_findings(pl: MediaPlaylist) -> Seq<IssueView> {
    match pl.server_control {
        Some(sc) => match sc.can_skip_until {
            Some(csu) => if less(zero(), pl.target_duration@) && falls_short(
                csu@,
                pl.target_duration@,
                6,
            ) {
                seq![
                    IssueView::on_rendition(
                        Severity::Error,
                        pl.name@,
                        "rfc8216bis §4.4.3.8: '"@ + pl.name@ + "' CAN-SKIP-UNTIL="@ + fixed(csu@, 3)
                            + "s < 6× TARGETDURATION="@ + fixed(pl.target_duration@, 3)
                            + "s (MUST be ≥ "@ + fixed(multiple(pl.target_duration@, 6), 3) + "s)."@,
                    ).noted(
                        "ratio="@ + fixed(quotient(csu@, pl.target_duration@), 2)
                            + "×, minimum 6.00×"@,
                    ),
                ]
            } else {
                seq![]
            },
            None => seq![],
        },
        None => seq![],
    }
}

/// PART-HOLD-BACK is at least two part targets, and should be three.
pub open spec fn part_ratio_findings(pl: MediaPlaylist) -> Seq<IssueView> {
    match (part_hold_back(pl), pl.part_target) {
        (Some(phb), Some(pt)) => if falls_short(phb@, pt@, 2) {
            seq![
                IssueView::on_rendition(
                    Severity::Error,
                    pl.name@,
                    "LL-HLS §4.4.3.8: '"@ + pl.name@ + "' PART-HOLD-BACK="@ + fixed(phb@, 5)
                        + "s < 2× PART-TARGET="@ + fixed(pt@, 5) + "s (MUST be ≥ "@ + fixed(
                        multiple(pt@, 2),
                        5,
                    ) + "s)."@,
                ).noted("ratio="@ + fixed(quotient(phb@, pt@), 3) + "×, MUST be ≥ 2.000×"@),
            ]
        } else if falls_short(phb@, pt@, 3) {
            seq![
                IssueView::on_rendition(
                    Severity::Warn,
                    pl.name@,
                    "LL-HLS §4.4.3.8: '"@ + pl.name@ + "' PART-HOLD-BACK="@ + fixed(phb@, 5)
                        + "s < 3× PART-TARGET="@ + fixed(pt@, 5) + "s (SHOULD be ≥ "@ + fixed(
                        multiple(pt@, 3),
                        5,
                    ) + "s)."@,
                ).noted("ratio="@ + fixed(quotient(phb@, pt@), 3) + "×, SHOULD be ≥ 3.000×"@),
            ]
        } else {
            seq![]
        },
        _ => seq![],
    }
}

/// HOLD-BACK is at least three target durations.
pub open spec fn edge_findings(pl: MediaPlaylist) -> Seq<IssueView> {
    match pl.server_control {
        Some(sc) => match sc.hold_back {
            Some(hb) => if less(zero(), pl.target_duration@) && falls_short(
                hb@,
                pl.target_duration@,
                3,
            ) {
                seq![
                    IssueView::on_rendition(
                        Severity::Error,
                        pl.name@,
                        "LL-HLS §4.4.3.8: '"@ + pl.name@ + "' HOLD-BACK="@ + fixed(hb@, 3)
                            + "s < 3× TARGETDURATION="@ + fixed(pl.target_duration@, 3)
                            + "s (MUST be ≥ "@ + fixed(multiple(pl.target_duration@, 3), 3) + "s)."@,
                    ).noted("ratio="@ + fixed(quotient(hb@, pl.target_duration@), 2) + "×, minimum 3.00×"@),
                ]
            } else {
                seq![]
            },
            None => seq![],
        },
        None => seq![],
    }
}

/// The findings on the partial segments of a playlist and what goes with them.
pub open spec fn partial_findings(pl: MediaPlaylist) -> Seq<IssueView> {
    part_inf_findings(pl) + hold_back_findings(pl) + part_findings(pl) + hint_findings(pl)
        + report_findings(pl)
}

/// The findings on the times that a server promises.
pub open spec fn server_findings(pl: MediaPlaylist) -> Seq<IssueView> {
    skip_findings(pl) + part_ratio_findings(pl) + edge_findings(pl)
}

/// The findings on one low-latency playlist by itself.
pub open spec fn playlist_findings(pl: MediaPlaylist) -> Seq<IssueView> {
    partial_findings(pl) + server_findings(pl)
}

pub open spec fn playlist_rule(playlists: Seq<MediaPlaylist>) -> spec_fn(int) -> Seq<IssueView> {
    |i: int| playlist_findings(playlists[i])
}

pub open spec fn reported_rule(pl: MediaPlaylist) -> spec_fn(int) -> Seq<(Seq<char>, int)> {
    |i: int|
        {
            let rr = pl.rendition_reports@[i];
            if rr.last_msn >= 0 {
                seq![(rr.uri@, rr.last_msn as int)]
            } else {
                seq![]
            }
        }
}

pub open spec fn reporting_rule(playlists: Seq<MediaPlaylist>) -> spec_fn(int) -> Seq<
    (Seq<char>, int),
> {
    |i: int|
        if playlists[i].parts@.len() > 0 {
            gathered(playlists[i].rendition_reports@.len(), reported_rule(playlists[i]))
        } else {
            seq![]
        }
}

/// The last media sequence numbers that the playlists with partial segments
/// report, each with the URI it is reported for.
pub open spec fn reported(playlists: Seq<MediaPlaylist>) -> Seq<(Seq<char>, int)> {
    gathered(playlists.len(), reporting_rule(playlists))
}

/// The highest number reported for `uri`, -1 if there is none.
pub open spec fn highest(rs: Seq<(Seq<char>, int)>, uri: Seq<char>) -> int
    decreases rs.len(),
{
    if rs.len() == 0 {
        -1
    } else {
        let rest = highest(rs.drop_last(), uri);
        if rs.last().0 == uri && rs.last().1 > rest {
            rs.last().1
        } else {
            rest
        }
    }
}

/// The lowest number reported for `uri`, the greatest `i64` if there is none.
pub open spec fn lowest(rs: Seq<(Seq<char>, int)>, uri: Seq<char>) -> int
    decreases rs.len(),
{
    if rs.len() == 0 {
        i64::MAX as int
    } else {
        let rest = lowest(rs.drop_last(), uri);
        if rs.last().0 == uri && rs.last().1 < rest {
            rs.last().1
        } else {
            rest
        }
    }
}

/// Whether no report before `k` is for the same URI.
pub open spec fn is_first_report(rs: Seq<(Seq<char>, int)>, k: int) -> bool {
    forall|j: int| 0 <= j < k ==> (#[trigger] rs[j]).0 != rs[k].0
}

/// The reports for one URI are at most one segment apart.
pub open spec fn skew_findings(rs: Seq<(Seq<char>, int)>, uri: Seq<char>) -> Seq<IssueView> {
    let high = highest(rs, uri);
    let low = lowest(rs, uri);
    if high - low > 1 {
        seq![
            IssueView::general(
                Severity::Warn,
                "LL-HLS §4.4.5.4: EXT-X-RENDITION-REPORT LAST-MSN skew of "@ + decimal(
                    (high - low) as nat,
                ) + " segments for '"@ + last_piece(uri, '/') + "' (reported MSNs: "@ + decimal(
                    low as nat,
                ) + "–"@ + decimal(high as nat)
                    + "). All renditions should report the same LAST-MSN ±1 segment."@,
            ),
        ]
    } else {
        seq![]
    }
}

pub open spec fn skew_rule(rs: Seq<(Seq<char>, int)>) -> spec_fn(int) -> Seq<IssueView> {
    |k: int|
        if is_first_report(rs, k) {
            skew_findings(rs, rs[k].0)
        } else {
            seq![]
        }
}

/// The whole seconds of an optional time, none counting as zero.
pub open spec fn whole_or_zero(t: Option<Double>) -> nat {
    match t {
        Some(s) => whole(s@),
        None => 0,
    }
}

/// What the renditions have in common: the server control attributes, times
/// in whole seconds.
pub open spec fn control_key(pl: MediaPlaylist) -> (nat, nat, bool, nat) {
    match pl.server_control {
        Some(sc) => (
            whole_or_zero(sc.hold_back),
            whole_or_zero(sc.part_hold_back),
            sc.can_block_reload,
            whole_or_zero(sc.can_skip_until),
        ),
        None => (0, 0, false, 0),
    }
}

pub open spec fn has_parts(playlists: Seq<MediaPlaylist>) -> spec_fn(int) -> bool {
    |i: int| playlists[i].parts@.len() > 0
}

/// The server control of each playlist with partial segments.
pub open spec fn control_keys(playlists: Seq<MediaPlaylist>) -> Seq<(nat, nat, bool, nat)> {
    picked(playlists.len(), has_parts(playlists)).map_values(|i: int| control_key(playlists[i]))
}

/// The name of each playlist with partial segments.
pub open spec fn part_names(playlists: Seq<MediaPlaylist>) -> Seq<Seq<char>> {
    picked(playlists.len(), has_parts(playlists)).map_values(|i: int| playlists[i].name@)
}

/// The playlists with partial segments have the same server control.
pub open spec fn control_findings(playlists: Seq<MediaPlaylist>) -> Seq<IssueView> {
    if disagree(control_keys(playlists)) {
        seq![
            IssueView::general(
                Severity::Error,
                "LL-HLS §6.2.4: EXT-X-SERVER-CONTROL attributes differ across renditions ["@
                    + joined(part_names(playlists), ", "@)
                    + "]. All Media Playlists MUST carry identical SERVER-CONTROL values."@,
            ),
        ]
    } else {
        seq![]
    }
}

/// The findings of the low-latency check.
pub open spec fn low_latency_findings(playlists: Seq<MediaPlaylist>) -> Seq<IssueView> {
    gathered(playlists.len(), playlist_rule(playlists)) + gathered(
        reported(playlists).len(),
        skew_rule(reported(playlists)),
    ) + control_findings(playlists)
}

/// Whether a time is below a multiple of another by more than a millisecond.
fn is_short(x: Double, base: Double, factor: u32) -> (r: bool)
    ensures
        r == falls_short(x@, base@, factor as nat),
{
    x.less(base.multiple(factor).minus(Double::from_bits(THOUSANDTH)))
}

/// Whether a time is above another by more than a millisecond.
fn runs_over(x: Double, limit: Double) -> (r: bool)
    ensures
        r == less(plus(limit@, thousandth()), x@),
{
    limit.plus(Double::from_bits(THOUSANDTH)).less(x)
}

fn check_part_inf(pl: &MediaPlaylist, issues: &mut Vec<Issue>)
    ensures
        findings(final(issues)@) == findings(old(issues)@) + part_inf_findings(*pl),
{
    if pl.parts.len() > 0 && pl.part_target.is_none() {
        report(
            issues,
            Issue::on_rendition(
                Severity::Error,
                pl.name.as_str(),
                "LL-HLS §6.2.5.2: '".to_owned().concat(pl.name.as_str()).concat(
                    "' contains EXT-X-PART tags but no EXT-X-PART-INF. PART-TARGET is required.",
                ),
            ),
        );
    }
    assert(findings(issues@) =~= findings(old(issues)@) + part_inf_findings(*pl));
}

fn check_hold_back(pl: &MediaPlaylist, issues: &mut Vec<Issue>)
    ensures
        findings(final(issues)@) == findings(old(issues)@) + hold_back_findings(*pl),
{
    let declared = match &pl.server_control {
        Some(sc) => sc.part_hold_back.is_some(),
        None => false,
    };
    if pl.part_target.is_some() && !declared {
        report(
            issues,
            Issue::on_rendition(
                Severity::Error,
                pl.name.as_str(),
                "rfc8216bis §4.4.3.8: '".to_owned().concat(pl.name.as_str()).concat(
                    "' declares EXT-X-PART-INF but EXT-X-SERVER-CONTROL has no PART-HOLD-BACK. The attribute is REQUIRED when the playlist contains EXT-X-PART-INF.",
                ),
            ),
        );
    }
    assert(findings(issues@) =~= findings(old(issues)@) + hold_back_findings(*pl));
}

fn check_parts(pl: &MediaPlaylist, issues: &mut Vec<Issue>)
    ensures
        findings(final(issues)@) == findings(old(issues)@) + part_findings(*pl),
{
    let ghost before = findings(issues@);
    if let Some(target) = pl.part_target {
        let mut i: usize = 0;
        assert(before + gathered(0, part_rule(*pl)) =~= before);
        while i < pl.parts.len()
            invariant
                i <= pl.parts.len(),
                pl.part_target == Some(target),
                findings(issues@) == before + gathered(i as nat, part_rule(*pl)),
            decreases pl.parts.len() - i,
        {
            let part = &pl.parts[i];
            if runs_over(part.duration, target) {
                report(
                    issues,
                    Issue::on_segment(
                        Severity::Error,
                        i,
                        pl.name.as_str(),
                        part.uri.as_str(),
                        "LL-HLS §4.4.4.9: Part ".to_owned().concat(
                            number(i as u128).as_str(),
                        ).concat(" in '").concat(pl.name.as_str()).concat("' has duration ").concat(
                            part.duration.fixed(5).as_str(),
                        ).concat("s exceeding PART-TARGET ").concat(
                            target.fixed(5).as_str(),
                        ).concat("s."),
                    ),
                );
            }
            i = i + 1;
            assert(findings(issues@) =~= before + gathered(i as nat, part_rule(*pl)));
        }
    } else {
        assert(findings(issues@) =~= before + part_findings(*pl));
    }
}

fn check_hint(pl: &MediaPlaylist, issues: &mut Vec<Issue>)
    ensures
        findings(final(issues)@) == findings(old(issues)@) + hint_findings(*pl),
{
    let hinted = pl.preload_hint_uri.is_some() && is_text(&pl.preload_hint_type, "PART");
    if pl.parts.len() > 0 && !hinted {
        report(
            issues,
            Issue::on_rendition(
                Severity::Warn,
                pl.name.as_str(),
                "LL-HLS §4.4.5.3: '".to_owned().concat(pl.name.as_str()).concat(
                    "' is missing EXT-X-PRELOAD-HINT with TYPE=PART at the playlist tail. Clients cannot prefetch the next partial segment.",
                ),
            ),
        );
    }
    assert(findings(issues@) =~= findings(old(issues)@) + hint_findings(*pl));
}

fn check_reports(pl: &MediaPlaylist, issues: &mut Vec<Issue>)
    ensures
        findings(final(issues)@) == findings(old(issues)@) + report_findings(*pl),
{
    if pl.parts.len() > 0 && pl.rendition_reports.len() == 0 {
        report(
            issues,
            Issue::on_rendition(
                Severity::Warn,
                pl.name.as_str(),
                "LL-HLS §4.4.5.4: '".to_owned().concat(pl.name.as_str()).concat(
                    "' has no EXT-X-RENDITION-REPORT tags. Each media playlist should report the last MSN/Part of every other rendition so clients can switch without extra fetches.",
                ),
            ),
        );
    }
    assert(findings(issues@) =~= findings(old(issues)@) + report_findings(*pl));
}

fn check_skip(pl: &MediaPlaylist, issues: &mut Vec<Issue>)
    ensures
        findings(final(issues)@) == findings(old(issues)@) + skip_findings(*pl),
{
    if let Some(sc) = &pl.server_control {
        if let Some(csu) = sc.can_skip_until {
            let td = pl.target_duration;
            if td.is_positive() && is_short(csu, td, 6) {
                report(
                    issues,
                    Issue::on_rendition(
                        Severity::Error,
                        pl.name.as_str(),
                        "rfc8216bis §4.4.3.8: '".to_owned().concat(pl.name.as_str()).concat(
                            "' CAN-SKIP-UNTIL=",
                        ).concat(csu.fixed(3).as_str()).concat("s < 6× TARGETDURATION=").concat(
                            td.fixed(3).as_str(),
                        ).concat("s (MUST be ≥ ").concat(td.multiple(6).fixed(3).as_str()).concat("s)."),
                    ).noted(
                        "ratio=".to_owned().concat(csu.quotient(td).fixed(2).as_str()).concat(
                            "×, minimum 6.00×",
                        ),
                    ),
                );
            }
        }
    }
    assert(findings(issues@) =~= findings(old(issues)@) + skip_findings(*pl));
}

fn check_part_ratio(pl: &MediaPlaylist, issues: &mut Vec<Issue>)
    ensures
        findings(final(issues)@) == findings(old(issues)@) + part_ratio_findings(*pl),
{
    let declared = match &pl.server_control {
        Some(sc) => sc.part_hold_back,
        None => None,
    };
    if let (Some(phb), Some(pt)) = (declared, pl.part_target) {
        if is_short(phb, pt, 2) {
            report(
                issues,
                Issue::on_rendition(
                    Severity::Error,
                    pl.name.as_str(),
                    "LL-HLS §4.4.3.8: '".to_owned().concat(pl.name.as_str()).concat(
                        "' PART-HOLD-BACK=",
                    ).concat(phb.fixed(5).as_str()).concat("s < 2× PART-TARGET=").concat(
                        pt.fixed(5).as_str(),
                    ).concat("s (MUST be ≥ ").concat(pt.multiple(2).fixed(5).as_str()).concat("s)."),
                ).noted(
                    "ratio=".to_owned().concat(phb.quotient(pt).fixed(3).as_str()).concat(
                        "×, MUST be ≥ 2.000×",
                    ),
                ),
            );
        } else if is_short(phb, pt, 3) {
            report(
                issues,
                Issue::on_rendition(
                    Severity::Warn,
                    pl.name.as_str(),
                    "LL-HLS §4.4.3.8: '".to_owned().concat(pl.name.as_str()).concat(
                        "' PART-HOLD-BACK=",
                    ).concat(phb.fixed(5).as_str()).concat("s < 3× PART-TARGET=").concat(
                        pt.fixed(5).as_str(),
                    ).concat("s (SHOULD be ≥ ").concat(pt.multiple(3).fixed(5).as_str()).concat("s)."),
                ).noted(
                    "ratio=".to_owned().concat(phb.quotient(pt).fixed(3).as_str()).concat(
                        "×, SHOULD be ≥ 3.000×",
                    ),
                ),
            );
        }
    }
    assert(findings(issues@) =~= findings(old(issues)@) + part_ratio_findings(*pl));
}

fn check_edge(pl: &MediaPlaylist, issues: &mut Vec<Issue>)
    ensures
        findings(final(issues)@) == findings(old(issues)@) + edge_findings(*pl),
{
    if let Some(sc) = &pl.server_control {
        if let Some(hb) = sc.hold_back {
            let td = pl.target_duration;
            if td.is_positive() && is_short(hb, td, 3) {
                report(
                    issues,
                    Issue::on_rendition(
                        Severity::Error,
                        pl.name.as_str(),
                        "LL-HLS §4.4.3.8: '".to_owned().concat(pl.name.as_str()).concat(
                            "' HOLD-BACK=",
                        ).concat(hb.fixed(3).as_str()).concat("s < 3× TARGETDURATION=").concat(
                            td.fixed(3).as_str(),
                        ).concat("s (MUST be ≥ ").concat(td.multiple(3).fixed(3).as_str()).concat("s)."),
                    ).noted(
                        "ratio=".to_owned().concat(hb.quotient(td).fixed(2).as_str()).concat(
                            "×, minimum 3.00×",
                        ),
                    ),
                );
            }
        }
    }
    assert(findings(issues@) =~= findings(old(issues)@) + edge_findings(*pl));
}

/// Checks the partial segments of a playlist and what goes with them.
fn check_partials(pl: &MediaPlaylist, issues: &mut Vec<Issue>)
    ensures
        findings(final(issues)@) == findings(old(issues)@) + partial_findings(*pl),
{
    check_part_inf(pl, issues);
    check_hold_back(pl, issues);
    check_parts(pl, issues);
    check_hint(pl, issues);
    check_reports(pl, issues);
    assert(findings(issues@) =~= findings(old(issues)@) + partial_findings(*pl));
}

/// Checks the times that a server promises.
fn check_server(pl: &MediaPlaylist, issues: &mut Vec<Issue>)
    ensures
        findings(final(issues)@) == findings(old(issues)@) + server_findings(*pl),
{
    check_skip(pl, issues);
    check_part_ratio(pl, issues);
    check_edge(pl, issues);
    assert(findings(issues@) =~= findings(old(issues)@) + server_findings(*pl));
}

/// Checks one playlist by itself.
fn check_playlist(pl: &MediaPlaylist, issues: &mut Vec<Issue>)
    ensures
        findings(final(issues)@) == findings(old(issues)@) + playlist_findings(*pl),
{
    check_partials(pl, issues);
    check_server(pl, issues);
    assert(findings(issues@) =~= findings(old(issues)@) + playlist_findings(*pl));
}

/// The reports as texts and numbers.
pub open spec fn reports_of(v: Seq<(String, i64)>) -> Seq<(Seq<char>, int)> {
    v.map_values(|r: (String, i64)| (r.0@, r.1 as int))
}

/// Collects the numbers that one playlist reports.
fn collect_reports(pl: &MediaPlaylist, list: &mut Vec<(String, i64)>)
    requires
        forall|k: int| 0 <= k < old(list)@.len() ==> (#[trigger] old(list)@[k]).1 >= 0,
    ensures
        reports_of(final(list)@) == reports_of(old(list)@) + gathered(
            pl.rendition_reports@.len(),
            reported_rule(*pl),
        ),
        forall|k: int| 0 <= k < final(list)@.len() ==> (#[trigger] final(list)@[k]).1 >= 0,
{
    let ghost before = reports_of(list@);
    let mut i: usize = 0;
    assert(before + gathered(0, reported_rule(*pl)) =~= before);
    while i < pl.rendition_reports.len()
        invariant
            i <= pl.rendition_reports.len(),
            reports_of(list@) == before + gathered(i as nat, reported_rule(*pl)),
            forall|k: int| 0 <= k < list@.len() ==> (#[trigger] list@[k]).1 >= 0,
        decreases pl.rendition_reports.len() - i,
    {
        let rr = &pl.rendition_reports[i];
        let ghost now = reports_of(list@);
        if rr.last_msn >= 0 {
            list.push((rr.uri.clone(), rr.last_msn));
            assert(reports_of(list@) =~= now.push((rr.uri@, rr.last_msn as int)));
        }
        i = i + 1;
        assert(reports_of(list@) =~= before + gathered(i as nat, reported_rule(*pl)));
    }
}

/// The highest and the lowest number reported for `uri`.
fn extremes(list: &Vec<(String, i64)>, uri: &str) -> (r: (i64, i64))
    requires
        forall|k: int| 0 <= k < list@.len() ==> (#[trigger] list@[k]).1 >= 0,
    ensures
        r.0 == highest(reports_of(list@), uri@),
        r.1 == lowest(reports_of(list@), uri@),
        r.0 >= -1,
        r.1 >= 0,
{
    let ghost rs = reports_of(list@);
    let mut high: i64 = -1;
    let mut low: i64 = i64::MAX;
    let mut i: usize = 0;
    while i < list.len()
        invariant
            i <= list.len(),
            rs == reports_of(list@),
            forall|k: int| 0 <= k < list@.len() ==> (#[trigger] list@[k]).1 >= 0,
            high == highest(rs.take(i as int), uri@),
            low == lowest(rs.take(i as int), uri@),
            high >= -1,
            low >= 0,
        decreases list.len() - i,
    {
        let entry = &list[i];
        assert(rs.take(i + 1).drop_last() =~= rs.take(i as int));
        assert(rs.take(i + 1).last() == (entry.0@, entry.1 as int));
        if same_text(entry.0.as_str(), uri) {
            if entry.1 > high {
                high = entry.1;
            }
            if entry.1 < low {
                low = entry.1;
            }
        }
        i = i + 1;
    }
    assert(rs.take(i as int) =~= rs);
    (high, low)
}

/// Whether no report before `k` is for the same URI.
fn first_report(list: &Vec<(String, i64)>, k: usize) -> (r: bool)
    requires
        k < list.len(),
    ensures
        r == is_first_report(reports_of(list@), k as int),
{
    let ghost rs = reports_of(list@);
    let mut j: usize = 0;
    while j < k
        invariant
            j <= k < list.len(),
            rs == reports_of(list@),
            forall|m: int| 0 <= m < j ==> (#[trigger] rs[m]).0 != rs[k as int].0,
        decreases k - j,
    {
        assert(rs[j as int].0 == list@[j as int].0@);
        assert(rs[k as int].0 == list@[k as int].0@);
        if same_text(list[j].0.as_str(), list[k].0.as_str()) {
            return false;
        }
        j = j + 1;
    }
    true
}

/// The reports for each URI are at most one segment apart.
fn check_skew(list: &Vec<(String, i64)>, issues: &mut Vec<Issue>)
    requires
        forall|k: int| 0 <= k < list@.len() ==> (#[trigger] list@[k]).1 >= 0,
    ensures
        findings(final(issues)@) == findings(old(issues)@) + gathered(
            reports_of(list@).len(),
            skew_rule(reports_of(list@)),
        ),
{
    let ghost rs = reports_of(list@);
    let ghost before = findings(issues@);
    let mut k: usize = 0;
    assert(before + gathered(0, skew_rule(rs)) =~= before);
    while k < list.len()
        invariant
            k <= list.len(),
            rs == reports_of(list@),
            forall|m: int| 0 <= m < list@.len() ==> (#[trigger] list@[m]).1 >= 0,
            findings(issues@) == before + gathered(k as nat, skew_rule(rs)),
        decreases list.len() - k,
    {
        if first_report(list, k) {
            let uri = &list[k].0;
            assert(rs[k as int].0 == uri@);
            let (high, low) = extremes(list, uri.as_str());
            if high as i128 - low as i128 > 1 {
                let chars = chars_of(uri.as_str());
                let short = string_of(after_last(chars.as_slice(), '/'));
                report(
                    issues,
                    Issue::warn(
                        "LL-HLS §4.4.5.4: EXT-X-RENDITION-REPORT LAST-MSN skew of ".to_owned().concat(
                            number((high - low) as u128).as_str(),
                        ).concat(" segments for '").concat(short.as_str()).concat(
                            "' (reported MSNs: ",
                        ).concat(number(low as u128).as_str()).concat("–").concat(
                            number(high as u128).as_str(),
                        ).concat(
                            "). All renditions should report the same LAST-MSN ±1 segment.",
                        ),
                    ),
                );
            }
        }
        k = k + 1;
        assert(findings(issues@) =~= before + gathered(k as nat, skew_rule(rs)));
    }
}

/// The whole seconds of an optional time, none counting as zero.
fn seconds_or_zero(t: Option<Double>) -> (r: u64)
    ensures
        r == whole_or_zero(t),
{
    match t {
        Some(s) => s.whole(),
        None => 0,
    }
}

/// Whether two playlists have the same server control.
fn same_control(a: &MediaPlaylist, b: &MediaPlaylist) -> (r: bool)
    ensures
        r == (control_key(*a) == control_key(*b)),
{
    let x = match &a.server_control {
        Some(sc) => (
            seconds_or_zero(sc.hold_back),
            seconds_or_zero(sc.part_hold_back),
            sc.can_block_reload,
            seconds_or_zero(sc.can_skip_until),
        ),
        None => (0, 0, false, 0),
    };
    let y = match &b.server_control {
        Some(sc) => (
            seconds_or_zero(sc.hold_back),
            seconds_or_zero(sc.part_hold_back),
            sc.can_block_reload,
            seconds_or_zero(sc.can_skip_until),
        ),
        None => (0, 0, false, 0),
    };
    x.0 == y.0 && x.1 == y.1 && x.2 == y.2 && x.3 == y.3
}

/// The playlists with partial segments have the same server control.
fn check_control(playlists: &[MediaPlaylist], issues: &mut Vec<Issue>)
    ensures
        findings(final(issues)@) == findings(old(issues)@) + control_findings(playlists@),
{
    let ghost p = has_parts(playlists@);
    let mut chosen: Vec<usize> = Vec::new();
    let mut names: Vec<String> = Vec::new();
    let mut differ = false;
    let mut i: usize = 0;
    while i < playlists.len()
        invariant
            i <= playlists.len(),
            p == has_parts(playlists@),
            positions(chosen@) == picked(i as nat, p),
            forall|k: int| 0 <= k < chosen@.len() ==> (#[trigger] chosen@[k]) < playlists@.len(),
            texts(names@) == picked(i as nat, p).map_values(|k: int| playlists@[k].name@),
            differ == exists|k: int|
                0 <= k < chosen@.len() && control_key(playlists@[#[trigger] chosen@[k] as int])
                    != control_key(playlists@[chosen@[0] as int]),
        decreases playlists.len() - i,
    {
        let pl = &playlists[i];
        if pl.parts.len() > 0 {
            let ghost chosen_before = chosen@;
            let ghost picked_before = positions(chosen@);
            if chosen.len() > 0 && !same_control(&playlists[chosen[0]], pl) {
                differ = true;
            }
            chosen.push(i);
            add_text(&mut names, pl.name.clone());
            proof {
                assert(positions(chosen@) =~= picked_before.push(i as int));
                assert(picked((i + 1) as nat, p) == picked(i as nat, p).push(i as int));
                assert(texts(names@) =~= picked((i + 1) as nat, p).map_values(
                    |k: int| playlists@[k].name@,
                ));
                assert(chosen@[chosen_before.len() as int] == i);
                assert(forall|k: int| 0 <= k < chosen_before.len() ==> chosen@[k]
                    == chosen_before[k]);
            }
        }
        i = i + 1;
    }
    proof {
        let keys = control_keys(playlists@);
        assert forall|k: int| 0 <= k < keys.len() implies #[trigger] keys[k] == control_key(
            playlists@[chosen@[k] as int],
        ) by {
            assert(positions(chosen@)[k] == chosen@[k] as int);
        }
        assert(keys.len() == chosen@.len());
        lemma_disagree(keys);
        if differ {
            let k = choose|k: int|
                0 <= k < chosen@.len() && control_key(playlists@[#[trigger] chosen@[k] as int])
                    != control_key(playlists@[chosen@[0] as int]);
            assert(keys[k] != keys[0]);
        }
        if disagree(keys) {
            let k = choose|k: int| 0 <= k < keys.len() && #[trigger] keys[k] != keys[0];
            assert(keys[k] == control_key(playlists@[chosen@[k] as int]));
        }
        assert(differ == disagree(keys));
    }
    if differ {
        report(
            issues,
            Issue::error(
                "LL-HLS §6.2.4: EXT-X-SERVER-CONTROL attributes differ across renditions [".to_owned().concat(
                    join(names.as_slice(), ", ").as_str(),
                ).concat(
                    "]. All Media Playlists MUST carry identical SERVER-CONTROL values.",
                ),
            ),
        );
    }
    assert(findings(issues@) =~= findings(old(issues)@) + control_findings(playlists@));
}

/// Low-latency playlists declare what their clients need, keep to the bounds
/// that their targets set, and agree with each other.
pub fn check_ll_hls_compliance(playlists: &[MediaPlaylist]) -> (r: Vec<Issue>)
    ensures
        findings(r@) == named(CheckId::LlHls, low_latency_findings(playlists@)),
        all_raised_by(findings(r@), CheckId::LlHls),
{
    let mut issues: Vec<Issue> = Vec::new();
    let mut list: Vec<(String, i64)> = Vec::new();
    let mut i: usize = 0;
    while i < playlists.len()
        invariant
            i <= playlists.len(),
            findings(issues@) == gathered(i as nat, playlist_rule(playlists@)),
            reports_of(list@) == gathered(i as nat, reporting_rule(playlists@)),
            forall|k: int| 0 <= k < list@.len() ==> (#[trigger] list@[k]).1 >= 0,
        decreases playlists.len() - i,
    {
        let pl = &playlists[i];
        let ghost now = reports_of(list@);
        check_playlist(pl, &mut issues);
        if pl.parts.len() > 0 {
            collect_reports(pl, &mut list);
        }
        i = i + 1;
        assert(reports_of(list@) =~= gathered(i as nat, reporting_rule(playlists@)));
    }
    check_skew(&list, &mut issues);
    check_control(playlists, &mut issues);
    proof {
        lemma_unassigned(playlists@);
    }
    produced_by(CheckId::LlHls, issues)
}

/// The findings name no check of their own.
proof fn lemma_unassigned(playlists: Seq<MediaPlaylist>)
    ensures
        all_raised_by(low_latency_findings(playlists), CheckId::Unassigned),
{
    let id = CheckId::Unassigned;
    assert forall|i: int| 0 <= i < playlists.len() implies all_raised_by(
        #[trigger] playlist_rule(playlists)(i),
        id,
    ) by {
        let pl = playlists[i];
        lemma_gathered_raised_by(pl.parts@.len(), part_rule(pl), id);
        assert(all_raised_by(part_inf_findings(pl) + hold_back_findings(pl), id));
        assert(all_raised_by(partial_findings(pl), id));
        assert(all_raised_by(server_findings(pl), id));
    }
    lemma_gathered_raised_by(playlists.len(), playlist_rule(playlists), id);
    lemma_gathered_raised_by(reported(playlists).len(), skew_rule(reported(playlists)), id);
}

} // verus!
