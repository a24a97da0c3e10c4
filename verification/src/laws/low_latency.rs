//! Laws of the low-latency checks.
use crate::checks::low_latency::{
    control_findings, control_key, control_keys, edge_findings, falls_short, has_parts, highest,
    hint_findings, hold_back_findings, is_first_report, low_latency_findings, lowest, part_findings,
    part_hold_back, part_inf_findings, part_ratio_findings, part_rule, partial_findings,
    playlist_findings, playlist_rule, report_findings, reported, reported_rule, reporting_rule,
    server_findings, skew_findings, skew_rule, skip_findings,
};
use crate::double::{less, minus, multiple, plus, thousandth, whole, zero, Double};
use crate::gather::{
    disagree, gathered, lemma_gathered_empty, lemma_gathered_holds, lemma_gathered_origin,
    lemma_gathered_same, lemma_picked, picked,
};
use crate::laws::tags::one_if;
use crate::text::optional;
use crate::types::{IssueView, MediaPlaylist, ServerControl, Severity};
use vstd::prelude::*;

verus! {

/// Whether two playlists have the same partial segments, but for whether they
/// can be decoded on their own.
pub open spec fn same_but_independence(a: MediaPlaylist, b: MediaPlaylist) -> bool {
    &&& a.parts@.len() == b.parts@.len()
    &&& forall|i: int|
        0 <= i < a.parts@.len() ==> (#[trigger] a.parts@[i]).uri@ == b.parts@[i].uri@
            && a.parts@[i].duration == b.parts@[i].duration
}

/// Whether two playlists have the same server control, but for whether the
/// server can hold a request back.
pub open spec fn same_but_blocking(a: MediaPlaylist, b: MediaPlaylist) -> bool {
    match (a.server_control, b.server_control) {
        (Some(x), Some(y)) => x == (ServerControl { can_block_reload: x.can_block_reload, ..y }),
        (None, None) => true,
        _ => false,
    }
}

/// Nothing is asked of INDEPENDENT and of CAN-BLOCK-RELOAD in one playlist by
/// itself: a playlist that differs in them only has the same findings.
pub proof fn law_optional_attributes_are_free(a: MediaPlaylist, b: MediaPlaylist)
    requires
        a == (MediaPlaylist { parts: a.parts, server_control: a.server_control, ..b }),
        same_but_independence(a, b),
        same_but_blocking(a, b),
    ensures
        playlist_findings(a) == playlist_findings(b),
{
    assert forall|i: int| 0 <= i < a.parts@.len() implies #[trigger] part_rule(a)(i) == part_rule(
        b,
    )(i) by {
        assert(a.parts@[i].uri@ == b.parts@[i].uri@);
    }
    lemma_gathered_same(a.parts@.len(), part_rule(a), part_rule(b));
}

/// A playlist with neither partial segments nor a target duration for them nor
/// server control has no findings.
pub proof fn law_ordinary_playlists_are_exempt(pl: MediaPlaylist)
    requires
        pl.parts@.len() == 0,
        pl.part_target is None,
        pl.server_control is None,
    ensures
        playlist_findings(pl).len() == 0,
{
}

/// PART-HOLD-BACK is required exactly where partial segments have a target
/// duration.
pub proof fn law_part_hold_back_is_required(pl: MediaPlaylist)
    ensures
        hold_back_findings(pl).len() == 0 <==> (pl.part_target is Some ==> part_hold_back(
            pl,
        ) is Some),
{
}

/// A PART-HOLD-BACK that falls short of neither two nor three part targets has
/// no findings, and one that does not fall short of two has no errors.
pub proof fn law_part_hold_back_ratio(pl: MediaPlaylist, phb: Double, pt: Double)
    requires
        pl.part_target == Some(pt),
        part_hold_back(pl) == Some(phb),
    ensures
        part_ratio_findings(pl).len() == 0 <==> !falls_short(phb@, pt@, 2) && !falls_short(
            phb@,
            pt@,
            3,
        ),
        !falls_short(phb@, pt@, 2) ==> forall|k: int|
            0 <= k < part_ratio_findings(pl).len() ==> (#[trigger] part_ratio_findings(
                pl,
            )[k]).severity == Severity::Warn,
{
}

/// Playlists without partial segments have nothing to report and no server
/// control to share: only what is asked of each by itself is found.
pub proof fn law_only_parts_are_compared(playlists: Seq<MediaPlaylist>)
    requires
        forall|i: int| 0 <= i < playlists.len() ==> (#[trigger] playlists[i]).parts@.len() == 0,
    ensures
        low_latency_findings(playlists) == gathered(playlists.len(), playlist_rule(playlists)),
{
    let n = playlists.len();
    lemma_gathered_empty(n, reporting_rule(playlists));
    lemma_picked(n, has_parts(playlists));
    let m = picked(n, has_parts(playlists));
    if m.len() > 0 {
        assert(has_parts(playlists)(m[0]));
        assert(playlists[m[0]].parts@.len() == 0);
    }
    assert(low_latency_findings(playlists) =~= gathered(n, playlist_rule(playlists)));
}

/// The highest and the lowest report for a URI bound the reports for it and,
/// if there are any, are among them.
pub proof fn law_highest_and_lowest(rs: Seq<(Seq<char>, int)>, uri: Seq<char>)
    requires
        forall|i: int| 0 <= i < rs.len() ==> 0 <= (#[trigger] rs[i]).1 <= i64::MAX,
    ensures
        forall|i: int|
            0 <= i < rs.len() && (#[trigger] rs[i]).0 == uri ==> lowest(rs, uri) <= rs[i].1
                <= highest(rs, uri),
        highest(rs, uri) == -1 && lowest(rs, uri) == i64::MAX || {
            &&& exists|i: int|
                0 <= i < rs.len() && (#[trigger] rs[i]).0 == uri && rs[i].1 == highest(rs, uri)
            &&& exists|i: int|
                0 <= i < rs.len() && (#[trigger] rs[i]).0 == uri && rs[i].1 == lowest(rs, uri)
        },
    decreases rs.len(),
{
    if rs.len() > 0 {
        let rest = rs.drop_last();
        assert(forall|i: int| 0 <= i < rest.len() ==> rest[i] == rs[i]);
        law_highest_and_lowest(rest, uri);
        let last = rs.len() - 1;
        assert(rs[last] == rs.last());
        assert forall|i: int| 0 <= i < rs.len() && (#[trigger] rs[i]).0 == uri implies lowest(
            rs,
            uri,
        ) <= rs[i].1 <= highest(rs, uri) by {
            if i < rest.len() {
                assert(rest[i].0 == uri);
            }
        }
        if highest(rest, uri) != -1 || lowest(rest, uri) != i64::MAX {
            let i = choose|i: int|
                0 <= i < rest.len() && (#[trigger] rest[i]).0 == uri && rest[i].1 == highest(
                    rest,
                    uri,
                );
            let j = choose|j: int|
                0 <= j < rest.len() && (#[trigger] rest[j]).0 == uri && rest[j].1 == lowest(
                    rest,
                    uri,
                );
            assert(rs[i].0 == uri && rs[j].0 == uri);
        }
    }
}

/// Renditions report the same segment, give or take one: the reports for a URI
/// have a finding exactly when two of them are further apart.
pub proof fn law_reports_give_or_take_one(rs: Seq<(Seq<char>, int)>, uri: Seq<char>)
    requires
        forall|i: int| 0 <= i < rs.len() ==> 0 <= (#[trigger] rs[i]).1 <= i64::MAX,
    ensures
        skew_findings(rs, uri).len() == 0 <==> forall|i: int, j: int|
            0 <= i < rs.len() && 0 <= j < rs.len() && (#[trigger] rs[i]).0 == uri && (
            #[trigger] rs[j]).0 == uri ==> rs[i].1 - rs[j].1 <= 1,
{
    law_highest_and_lowest(rs, uri);
    let high = highest(rs, uri);
    let low = lowest(rs, uri);
    if high != -1 || low != i64::MAX {
        let i = choose|i: int| 0 <= i < rs.len() && (#[trigger] rs[i]).0 == uri && rs[i].1 == high;
        let j = choose|j: int| 0 <= j < rs.len() && (#[trigger] rs[j]).0 == uri && rs[j].1 == low;
        assert(rs[i].0 == uri && rs[j].0 == uri);
    }
}

/// The whole seconds of a time; a time that is not given counts as none.
pub open spec fn seconds(t: Option<Double>) -> nat {
    if t is Some {
        whole((t->0)@)
    } else {
        0
    }
}

/// Whether the server control of two playlists differs: in the whole seconds of
/// HOLD-BACK, of PART-HOLD-BACK or of CAN-SKIP-UNTIL, or in CAN-BLOCK-RELOAD.
/// A playlist without server control gives no times and does not block.
pub open spec fn controls_differ(a: MediaPlaylist, b: MediaPlaylist) -> bool {
    match (a.server_control, b.server_control) {
        (Some(x), Some(y)) => {
            ||| seconds(x.hold_back) != seconds(y.hold_back)
            ||| seconds(x.part_hold_back) != seconds(y.part_hold_back)
            ||| seconds(x.can_skip_until) != seconds(y.can_skip_until)
            ||| x.can_block_reload != y.can_block_reload
        },
        (Some(x), None) => seconds(x.hold_back) > 0 || seconds(x.part_hold_back) > 0 || seconds(
            x.can_skip_until,
        ) > 0 || x.can_block_reload,
        (None, Some(y)) => seconds(y.hold_back) > 0 || seconds(y.part_hold_back) > 0 || seconds(
            y.can_skip_until,
        ) > 0 || y.can_block_reload,
        (None, None) => false,
    }
}

/// Playlists with partial segments share their server control: there is one
/// error, on no playlist in particular, exactly when two of them differ in it.
/// Playlists without partial segments are not compared.
pub proof fn law_server_control_is_shared(playlists: Seq<MediaPlaylist>)
    ensures
        control_findings(playlists).len() == one_if(
            exists|i: int, j: int|
                0 <= i < playlists.len() && 0 <= j < playlists.len()
                    && (#[trigger] playlists[i]).parts@.len() > 0
                    && (#[trigger] playlists[j]).parts@.len() > 0 && controls_differ(
                    playlists[i],
                    playlists[j],
                ),
        ),
        forall|k: int|
            0 <= k < control_findings(playlists).len() ==> (#[trigger] control_findings(
                playlists,
            )[k]).severity == Severity::Error,
{
    let p = has_parts(playlists);
    let m = picked(playlists.len(), p);
    lemma_picked(playlists.len(), p);
    let keys = control_keys(playlists);
    assert forall|i: int, j: int| #[trigger] controls_differ(playlists[i], playlists[j]) == (
    control_key(playlists[i]) != control_key(playlists[j])) by {}
    if disagree(keys) {
        let (x, y) = choose|x: int, y: int|
            0 <= x < keys.len() && 0 <= y < keys.len() && keys[x] != keys[y];
        assert(p(m[x]) && p(m[y]));
        assert(controls_differ(playlists[m[x]], playlists[m[y]]));
    }
    if exists|i: int, j: int|
        0 <= i < playlists.len() && 0 <= j < playlists.len()
            && (#[trigger] playlists[i]).parts@.len() > 0
            && (#[trigger] playlists[j]).parts@.len() > 0 && controls_differ(
            playlists[i],
            playlists[j],
        ) {
        let (i, j) = choose|i: int, j: int|
            0 <= i < playlists.len() && 0 <= j < playlists.len()
                && (#[trigger] playlists[i]).parts@.len() > 0
                && (#[trigger] playlists[j]).parts@.len() > 0 && controls_differ(
                playlists[i],
                playlists[j],
            );
        assert(p(i) && p(j));
        assert(m.contains(i) && m.contains(j));
        let x = choose|x: int| 0 <= x < m.len() && m[x] == i;
        let y = choose|y: int| 0 <= y < m.len() && m[y] == j;
        assert(keys[x] != keys[y]);
    }
}

/// Whether a playlist with partial segments reports the number `msn` as the
/// last of the rendition at `uri`; a negative number reports nothing.
pub open spec fn says(pl: MediaPlaylist, uri: Seq<char>, msn: int) -> bool {
    pl.parts@.len() > 0 && msn >= 0 && exists|k: int|
        0 <= k < pl.rendition_reports@.len() && (#[trigger] pl.rendition_reports@[k]).uri@ == uri
            && pl.rendition_reports@[k].last_msn == msn
}

/// Whether some playlist reports the number.
pub open spec fn is_said(playlists: Seq<MediaPlaylist>, uri: Seq<char>, msn: int) -> bool {
    exists|i: int| 0 <= i < playlists.len() && says(#[trigger] playlists[i], uri, msn)
}

/// The reports are what the playlists say.
proof fn lemma_reported(playlists: Seq<MediaPlaylist>)
    ensures
        forall|k: int|
            0 <= k < reported(playlists).len() ==> is_said(
                playlists,
                (#[trigger] reported(playlists)[k]).0,
                reported(playlists)[k].1,
            ) && 0 <= reported(playlists)[k].1 <= i64::MAX,
        forall|uri: Seq<char>, msn: int|
            is_said(playlists, uri, msn) ==> #[trigger] reported(playlists).contains((uri, msn)),
{
    let n = playlists.len();
    let f = reporting_rule(playlists);
    let rs = reported(playlists);
    assert forall|k: int| 0 <= k < rs.len() implies is_said(
        playlists,
        (#[trigger] rs[k]).0,
        rs[k].1,
    ) && 0 <= rs[k].1 <= i64::MAX by {
        let at = lemma_gathered_origin(n, f, k);
        let pl = playlists[at.0];
        let g = reported_rule(pl);
        let m = pl.rendition_reports@.len();
        let in_list = lemma_gathered_origin(m, g, at.1);
        let rr = pl.rendition_reports@[in_list.0];
        assert(rs[k] == (rr.uri@, rr.last_msn as int));
        assert(says(pl, rs[k].0, rs[k].1));
    }
    assert forall|uri: Seq<char>, msn: int| is_said(playlists, uri, msn) implies #[trigger] rs.contains(
        (uri, msn),
    ) by {
        let i = choose|i: int| 0 <= i < playlists.len() && says(#[trigger] playlists[i], uri, msn);
        let pl = playlists[i];
        let k = choose|k: int|
            0 <= k < pl.rendition_reports@.len() && (#[trigger] pl.rendition_reports@[k]).uri@
                == uri && pl.rendition_reports@[k].last_msn == msn;
        let g = reported_rule(pl);
        let m = pl.rendition_reports@.len();
        assert(g(k).len() == 1 && g(k)[0] == (uri, msn));
        lemma_gathered_holds(m, g, k, 0);
        let j = choose|j: int| 0 <= j < gathered(m, g).len() && gathered(m, g)[j] == (uri, msn);
        assert(f(i)[j] == (uri, msn));
        lemma_gathered_holds(n, f, i, j);
    }
}

/// The first report for the URI of report `k`.
proof fn lemma_first_report(rs: Seq<(Seq<char>, int)>, k: int) -> (f: int)
    requires
        0 <= k < rs.len(),
    ensures
        0 <= f <= k,
        rs[f].0 == rs[k].0,
        is_first_report(rs, f),
    decreases k,
{
    if is_first_report(rs, k) {
        k
    } else {
        let j = choose|j: int| 0 <= j < k && (#[trigger] rs[j]).0 == rs[k].0;
        lemma_first_report(rs, j)
    }
}

/// The findings of the check are those on each playlist, those on the reports
/// and the one on server control, in this order. There is a warning on the
/// reports exactly when two playlists with partial segments report numbers for
/// one URI that are more than one apart.
pub proof fn law_reports_agree(playlists: Seq<MediaPlaylist>)
    ensures
        ({
            let skews = gathered(reported(playlists).len(), skew_rule(reported(playlists)));
            &&& low_latency_findings(playlists) == gathered(
                playlists.len(),
                playlist_rule(playlists),
            ) + skews + control_findings(playlists)
            &&& skews.len() > 0 <==> exists|uri: Seq<char>, m: int, n: int| #[trigger]
                is_said(playlists, uri, m) && #[trigger] is_said(playlists, uri, n) && m > n + 1
            &&& forall|k: int|
                0 <= k < skews.len() ==> (#[trigger] skews[k]).severity == Severity::Warn
        }),
{
    let rs = reported(playlists);
    let f = skew_rule(rs);
    let skews = gathered(rs.len(), f);
    lemma_reported(playlists);
    assert forall|k: int| 0 <= k < skews.len() implies (#[trigger] skews[k]).severity
        == Severity::Warn by {
        let at = lemma_gathered_origin(rs.len(), f, k);
        assert(f(at.0)[at.1].severity == Severity::Warn);
    }
    if skews.len() > 0 {
        let at = lemma_gathered_origin(rs.len(), f, 0);
        let uri = rs[at.0].0;
        law_reports_give_or_take_one(rs, uri);
        let (i, j) = choose|i: int, j: int|
            0 <= i < rs.len() && 0 <= j < rs.len() && (#[trigger] rs[i]).0 == uri && (
            #[trigger] rs[j]).0 == uri && !(rs[i].1 - rs[j].1 <= 1);
        assert(is_said(playlists, uri, rs[i].1) && is_said(playlists, uri, rs[j].1));
    }
    if exists|uri: Seq<char>, m: int, n: int| #[trigger]
        is_said(playlists, uri, m) && #[trigger] is_said(playlists, uri, n) && m > n + 1 {
        let (uri, m, n) = choose|uri: Seq<char>, m: int, n: int| #[trigger]
            is_said(playlists, uri, m) && #[trigger] is_said(playlists, uri, n) && m > n + 1;
        assert(rs.contains((uri, m)) && rs.contains((uri, n)));
        let i = choose|i: int| 0 <= i < rs.len() && rs[i] == (uri, m);
        let j = choose|j: int| 0 <= j < rs.len() && rs[j] == (uri, n);
        law_reports_give_or_take_one(rs, uri);
        assert(rs[i].0 == uri && rs[j].0 == uri && rs[i].1 - rs[j].1 > 1);
        let first = lemma_first_report(rs, i);
        assert(f(first).len() > 0);
        lemma_gathered_holds(rs.len(), f, first, 0);
    }
}

/// Each URI has at most one warning: the positions that give one have URIs of
/// their own.
pub proof fn law_one_warning_per_report(rs: Seq<(Seq<char>, int)>, i: int, j: int)
    requires
        0 <= i < j < rs.len(),
        skew_rule(rs)(i).len() > 0,
        skew_rule(rs)(j).len() > 0,
    ensures
        rs[i].0 != rs[j].0,
        skew_rule(rs)(i).len() == 1,
{
}

/// Whether partial segment `k` is longer than the target by more than a
/// millisecond.
pub open spec fn is_long(pl: MediaPlaylist, k: int) -> bool {
    pl.part_target is Some && less(
        plus((pl.part_target->0)@, thousandth()),
        pl.parts@[k].duration@,
    )
}

/// How many of the first `n` partial segments are too long.
pub open spec fn long_parts(pl: MediaPlaylist, n: nat) -> nat
    decreases n,
{
    if n == 0 {
        0
    } else {
        long_parts(pl, (n - 1) as nat) + one_if(is_long(pl, n - 1))
    }
}

/// Each partial segment that is too long has one error.
proof fn lemma_long_parts(pl: MediaPlaylist, n: nat)
    requires
        pl.part_target is Some,
    ensures
        gathered(n, part_rule(pl)).len() == long_parts(pl, n),
        all_severe(gathered(n, part_rule(pl)), Severity::Error),
    decreases n,
{
    if n > 0 {
        lemma_long_parts(pl, (n - 1) as nat);
    }
}

/// No part is too long where there is no target.
proof fn lemma_no_target(pl: MediaPlaylist, n: nat)
    requires
        pl.part_target is None,
    ensures
        long_parts(pl, n) == 0,
    decreases n,
{
    if n > 0 {
        lemma_no_target(pl, (n - 1) as nat);
    }
}

/// Whether all findings are equally serious.
pub open spec fn all_severe(s: Seq<IssueView>, severity: Severity) -> bool {
    forall|k: int| 0 <= k < s.len() ==> (#[trigger] s[k]).severity == severity
}

/// Findings that are equally serious are so together.
proof fn lemma_all_severe(a: Seq<IssueView>, b: Seq<IssueView>, severity: Severity)
    requires
        all_severe(a, severity),
        all_severe(b, severity),
    ensures
        all_severe(a + b, severity),
{
}

/// Errors, then warnings.
proof fn lemma_errors_first(x: Seq<IssueView>, y: Seq<IssueView>)
    requires
        all_severe(x, Severity::Error),
        all_severe(y, Severity::Warn),
    ensures
        forall|k: int|
            0 <= k < (x + y).len() ==> (#[trigger] (x + y)[k]).severity == if k < x.len() {
                Severity::Error
            } else {
                Severity::Warn
            },
{
}

/// Whether a time is given and, with a millisecond to spare, below the given
/// multiple of another.
pub open spec fn is_below(t: Option<Double>, base: Double, factor: nat) -> bool {
    t is Some && less((t->0)@, minus(multiple(base@, factor), thousandth()))
}

/// What is asked of the partial segments of a playlist, in order: an error if
/// it has some but no target for them, an error if it has a target but no
/// PART-HOLD-BACK, an error for each of them above the target by more than a
/// millisecond, a warning if it has some but no hint of the type `PART`, and a
/// warning if it has some but no reports.
pub proof fn law_partial_segments(pl: MediaPlaylist)
    ensures
        ({
            let found = partial_findings(pl);
            let some = pl.parts@.len() > 0;
            let held = pl.server_control is Some && (pl.server_control->0).part_hold_back is Some;
            let errors = one_if(some && pl.part_target is None) + one_if(
                pl.part_target is Some && !held,
            ) + long_parts(pl, pl.parts@.len());
            &&& found.len() == errors + one_if(
                some && (pl.preload_hint_uri is None || optional(pl.preload_hint_type) != Some(
                    "PART"@,
                )),
            ) + one_if(some && pl.rendition_reports@.len() == 0)
            &&& forall|k: int|
                0 <= k < found.len() ==> (#[trigger] found[k]).severity == if k < errors {
                    Severity::Error
                } else {
                    Severity::Warn
                }
        }),
{
    if pl.part_target is Some {
        lemma_long_parts(pl, pl.parts@.len());
    } else {
        lemma_no_target(pl, pl.parts@.len());
    }
    let e = Severity::Error;
    let w = Severity::Warn;
    let a = part_inf_findings(pl);
    let b = hold_back_findings(pl);
    let c = part_findings(pl);
    let y = hint_findings(pl);
    let z = report_findings(pl);
    assert(all_severe(a, e) && all_severe(b, e) && all_severe(c, e));
    assert(all_severe(y, w) && all_severe(z, w));
    lemma_all_severe(a, b, e);
    lemma_all_severe(a + b, c, e);
    lemma_all_severe(y, z, w);
    lemma_errors_first(a + b + c, y + z);
    assert(partial_findings(pl) =~= a + b + c + (y + z));
}

/// What is asked of the times that a server promises, in order: an error if
/// CAN-SKIP-UNTIL is below six target durations, an error if PART-HOLD-BACK is
/// below two part targets, or else a warning if it is below three, and an error
/// if HOLD-BACK is below three target durations. A millisecond may be missing,
/// and a target duration that is not positive asks for nothing.
pub proof fn law_server_times(pl: MediaPlaylist, sc: ServerControl)
    requires
        pl.server_control == Some(sc),
    ensures
        ({
            let found = server_findings(pl);
            let asked = less(zero(), pl.target_duration@);
            let skip = asked && is_below(sc.can_skip_until, pl.target_duration, 6);
            let hold = asked && is_below(sc.hold_back, pl.target_duration, 3);
            let two = pl.part_target is Some && is_below(
                sc.part_hold_back,
                pl.part_target->0,
                2,
            );
            let three = !two && pl.part_target is Some && is_below(
                sc.part_hold_back,
                pl.part_target->0,
                3,
            );
            &&& found.len() == one_if(skip) + one_if(two) + one_if(three) + one_if(hold)
            &&& forall|k: int|
                0 <= k < found.len() ==> (#[trigger] found[k]).severity == if three && k == one_if(
                    skip,
                ) {
                    Severity::Warn
                } else {
                    Severity::Error
                }
        }),
{
}

/// Without server control there is nothing that it promises; what is found on a
/// playlist is what is found on its partial segments and on its server control,
/// and all of it names the playlist.
pub proof fn law_low_latency_playlists(playlists: Seq<MediaPlaylist>, i: int)
    requires
        0 <= i < playlists.len(),
    ensures
        ({
            let pl = playlists[i];
            let found = playlist_rule(playlists)(i);
            &&& found == partial_findings(pl) + server_findings(pl)
            &&& pl.server_control is None ==> server_findings(pl).len() == 0
            &&& all_on(partial_findings(pl), pl.name@)
            &&& all_on(server_findings(pl), pl.name@)
        }),
{
    lemma_partial_on(playlists[i]);
    lemma_server_on(playlists[i]);
}

/// Whether all findings are on the playlist of the given name.
pub open spec fn all_on(s: Seq<IssueView>, name: Seq<char>) -> bool {
    forall|k: int| 0 <= k < s.len() ==> (#[trigger] s[k]).rendition_a == Some(name)
}

/// Findings on one playlist are on it together.
proof fn lemma_all_on(a: Seq<IssueView>, b: Seq<IssueView>, name: Seq<char>)
    requires
        all_on(a, name),
        all_on(b, name),
    ensures
        all_on(a + b, name),
{
}

/// The findings on partial segments are on their playlist.
proof fn lemma_parts_on(pl: MediaPlaylist)
    ensures
        all_on(part_findings(pl), pl.name@),
{
    let parts = part_findings(pl);
    assert forall|k: int| 0 <= k < parts.len() implies (#[trigger] parts[k]).rendition_a == Some(
        pl.name@,
    ) by {
        let at = lemma_gathered_origin(pl.parts@.len(), part_rule(pl), k);
        assert(part_rule(pl)(at.0)[at.1].rendition_a == Some(pl.name@));
    }
}

/// What is found on the partial segments of a playlist is on the playlist.
proof fn lemma_partial_on(pl: MediaPlaylist)
    ensures
        all_on(partial_findings(pl), pl.name@),
{
    let name = pl.name@;
    lemma_parts_on(pl);
    let a = part_inf_findings(pl);
    let b = hold_back_findings(pl);
    let c = part_findings(pl);
    let d = hint_findings(pl);
    let e = report_findings(pl);
    assert(all_on(a, name) && all_on(b, name) && all_on(d, name) && all_on(e, name));
    lemma_all_on(a, b, name);
    lemma_all_on(a + b, c, name);
    lemma_all_on(a + b + c, d, name);
    lemma_all_on(a + b + c + d, e, name);
}

/// What is found on the server control of a playlist is on the playlist.
proof fn lemma_server_on(pl: MediaPlaylist)
    ensures
        all_on(server_findings(pl), pl.name@),
{
    let name = pl.name@;
    let a = skip_findings(pl);
    let b = part_ratio_findings(pl);
    let c = edge_findings(pl);
    assert(all_on(a, name));
    assert(all_on(b, name));
    assert(all_on(c, name));
    lemma_all_on(a, b, name);
    lemma_all_on(a + b, c, name);
}

} // verus!
