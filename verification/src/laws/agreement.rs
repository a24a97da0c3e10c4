//! Laws of what the renditions of a presentation have in common, and of the
//! durations in one playlist, stated on what the playlists declare.
use crate::checks::drift::{video_at, videos};
use crate::checks::durations::{
    comparable, comparable_at, compliance_rule, durations_fit, long_rule, longest, longest_fits,
    slack_findings, target_findings,
};
use crate::checks::low_latency::{has_parts, part_names};
use crate::checks::playlists::{coverage_rule, undated};
use crate::checks::renditions::{
    all_methods, count_findings, counted, counted_at, counts, counts_method, discontinuities,
    discontinuity_findings, encryption_findings, method_findings, mix_rule, stands_for_name,
};
use crate::double::{less, rounded, whole, zero, Real};
use crate::gather::{disagree, gathered, lemma_picked, picked};
use crate::laws::drift::shows_video;
use crate::laws::playlists::{law_dates_all_or_none, law_longest};
use crate::laws::renditions::law_targets_agree;
use crate::laws::tags::one_if;
use crate::names::text_before;
use crate::text::optional;
use crate::types::{index_number, MediaPlaylist, Segment, Severity};
use vstd::arithmetic::div_mod::lemma_fundamental_div_mod;
use vstd::arithmetic::power2::{lemma_pow2_pos, pow2};
use vstd::prelude::*;

verus! {

/// The playlists have one error exactly when two of them have other
/// discontinuity sequence numbers.
pub proof fn law_discontinuities_match(playlists: Seq<MediaPlaylist>)
    ensures
        ({
            let found = discontinuity_findings(playlists);
            &&& found.len() == one_if(
                exists|i: int, j: int|
                    0 <= i < playlists.len() && 0 <= j < playlists.len() && (
                    #[trigger] playlists[i]).discontinuity_sequence < (
                    #[trigger] playlists[j]).discontinuity_sequence,
            )
            &&& forall|k: int|
                0 <= k < found.len() ==> (#[trigger] found[k]).severity == Severity::Error
        }),
{
    let all = discontinuities(playlists);
    if disagree(all) {
        let (i, j) = choose|i: int, j: int|
            0 <= i < all.len() && 0 <= j < all.len() && all[i] != all[j];
        let (x, y) = (playlists[i], playlists[j]);
        assert(x.discontinuity_sequence < y.discontinuity_sequence || y.discontinuity_sequence
            < x.discontinuity_sequence);
    }
    if exists|i: int, j: int|
        0 <= i < playlists.len() && 0 <= j < playlists.len() && (
        #[trigger] playlists[i]).discontinuity_sequence < (
        #[trigger] playlists[j]).discontinuity_sequence {
        let (i, j) = choose|i: int, j: int|
            0 <= i < playlists.len() && 0 <= j < playlists.len() && (
            #[trigger] playlists[i]).discontinuity_sequence < (
            #[trigger] playlists[j]).discontinuity_sequence;
        assert(all[i] != all[j]);
    }
}

/// Whether a playlist is finished video, other than of I-frames.
pub open spec fn is_finished_video(pl: MediaPlaylist) -> bool {
    pl.has_endlist && pl.media_type@ == "VIDEO"@ && pl.is_iframe == false
}

/// The playlists have one warning exactly when two finished video renditions
/// have other numbers of segments.
pub proof fn law_segment_counts_match(playlists: Seq<MediaPlaylist>)
    ensures
        ({
            let found = count_findings(counted(playlists));
            &&& found.len() == one_if(
                exists|i: int, j: int|
                    0 <= i < playlists.len() && 0 <= j < playlists.len() && is_finished_video(
                        #[trigger] playlists[i],
                    ) && is_finished_video(#[trigger] playlists[j])
                        && playlists[i].segments@.len() < playlists[j].segments@.len(),
            )
            &&& forall|k: int|
                0 <= k < found.len() ==> (#[trigger] found[k]).severity == Severity::Warn
        }),
{
    let p = counted_at(playlists);
    let m = picked(playlists.len(), p);
    lemma_picked(playlists.len(), p);
    let pls = counted(playlists);
    let all = counts(pls);
    if disagree(all) {
        let (x, y) = choose|x: int, y: int|
            0 <= x < all.len() && 0 <= y < all.len() && all[x] != all[y];
        assert(p(m[x]) && p(m[y]));
        assert(is_finished_video(playlists[m[x]]) && is_finished_video(playlists[m[y]]));
    }
    if exists|i: int, j: int|
        0 <= i < playlists.len() && 0 <= j < playlists.len() && is_finished_video(
            #[trigger] playlists[i],
        ) && is_finished_video(#[trigger] playlists[j]) && playlists[i].segments@.len()
            < playlists[j].segments@.len() {
        let (i, j) = choose|i: int, j: int|
            0 <= i < playlists.len() && 0 <= j < playlists.len() && is_finished_video(
                #[trigger] playlists[i],
            ) && is_finished_video(#[trigger] playlists[j]) && playlists[i].segments@.len()
                < playlists[j].segments@.len();
        assert(p(i) && p(j));
        assert(m.contains(i) && m.contains(j));
        let x = choose|x: int| 0 <= x < m.len() && m[x] == i;
        let y = choose|y: int| 0 <= y < m.len() && m[y] == j;
        assert(all[x] != all[y]);
    }
}

/// Whether a playlist has a positive target duration and is not an I-frame
/// playlist of the type `VOD`.
pub open spec fn has_shared_target(pl: MediaPlaylist) -> bool {
    less(zero(), pl.target_duration@) && !(optional(pl.playlist_type) == Some("VOD"@) && (
    pl.is_iframe || pl.iframes_only))
}

/// The playlists have one error exactly when two that have a positive target
/// duration, I-frame playlists of the type `VOD` aside, have other target
/// durations in whole seconds.
pub proof fn law_target_durations_match(playlists: Seq<MediaPlaylist>)
    ensures
        ({
            let found = target_findings(comparable(playlists));
            &&& found.len() == one_if(
                exists|i: int, j: int|
                    0 <= i < playlists.len() && 0 <= j < playlists.len() && has_shared_target(
                        #[trigger] playlists[i],
                    ) && has_shared_target(#[trigger] playlists[j]) && whole(
                        playlists[i].target_duration@,
                    ) < whole(playlists[j].target_duration@),
            )
            &&& forall|k: int|
                0 <= k < found.len() ==> (#[trigger] found[k]).severity == Severity::Error
        }),
{
    let p = comparable_at(playlists);
    let m = picked(playlists.len(), p);
    lemma_picked(playlists.len(), p);
    let pls = comparable(playlists);
    law_targets_agree(pls);
    if target_findings(pls).len() > 0 {
        let (x, y) = choose|x: int, y: int|
            0 <= x < pls.len() && 0 <= y < pls.len() && whole((#[trigger] pls[x]).target_duration@)
                != whole((#[trigger] pls[y]).target_duration@);
        assert(p(m[x]) && p(m[y]));
        assert(has_shared_target(playlists[m[x]]) && has_shared_target(playlists[m[y]]));
    }
    if exists|i: int, j: int|
        0 <= i < playlists.len() && 0 <= j < playlists.len() && has_shared_target(
            #[trigger] playlists[i],
        ) && has_shared_target(#[trigger] playlists[j]) && whole(playlists[i].target_duration@)
            < whole(playlists[j].target_duration@) {
        let (i, j) = choose|i: int, j: int|
            0 <= i < playlists.len() && 0 <= j < playlists.len() && has_shared_target(
                #[trigger] playlists[i],
            ) && has_shared_target(#[trigger] playlists[j]) && whole(playlists[i].target_duration@)
                < whole(playlists[j].target_duration@);
        assert(p(i) && p(j));
        assert(m.contains(i) && m.contains(j));
        let x = choose|x: int| 0 <= x < m.len() && m[x] == i;
        let y = choose|y: int| 0 <= y < m.len() && m[y] == j;
        assert(whole(pls[x].target_duration@) != whole(pls[y].target_duration@));
    }
}

/// Whether playlist `i` declares methods and no later one of its name does.
pub open spec fn speaks_for_its_name(playlists: Seq<MediaPlaylist>, i: int) -> bool {
    playlists[i].encryption_methods@.len() > 0 && !exists|j: int|
        i < j < playlists.len() && (#[trigger] playlists[j]).name@ == playlists[i].name@
            && playlists[j].encryption_methods@.len() > 0
}

/// Whether methods may stand in one playlist: one alone, or `NONE` beside
/// `AES-128` or beside `SAMPLE-AES`.
pub open spec fn may_be_mixed(methods: Set<Seq<char>>) -> bool {
    ||| methods.len() == 1
    ||| methods == Set::<Seq<char>>::empty().insert("NONE"@).insert("AES-128"@)
    ||| methods == Set::<Seq<char>>::empty().insert("NONE"@).insert("SAMPLE-AES"@)
}

/// A set of two texts, of which two are known, holds no others.
proof fn lemma_pair(s: Set<Seq<char>>, a: Seq<char>, b: Seq<char>)
    requires
        s.finite(),
        a != b,
    ensures
        s.len() == 2 && s.contains(a) && s.contains(b) <==> s == Set::<Seq<char>>::empty().insert(
            a,
        ).insert(b),
{
    let two = Set::<Seq<char>>::empty().insert(a).insert(b);
    assert(two.len() == 2);
    if s.len() == 2 && s.contains(a) && s.contains(b) {
        assert(two.subset_of(s));
        vstd::set_lib::lemma_subset_equality(two, s);
    }
}

/// Methods go together exactly when they may be mixed.
proof fn lemma_mix(methods: Set<Seq<char>>)
    requires
        methods.finite(),
        methods.len() > 0,
    ensures
        crate::checks::renditions::is_usual_mix(methods) == may_be_mixed(methods),
{
    reveal_strlit("NONE");
    reveal_strlit("AES-128");
    reveal_strlit("SAMPLE-AES");
    assert("NONE"@.len() == 4 && "AES-128"@.len() == 7 && "SAMPLE-AES"@.len() == 10);
    lemma_pair(methods, "NONE"@, "AES-128"@);
    lemma_pair(methods, "NONE"@, "SAMPLE-AES"@);
}

/// A playlist that speaks for its name has one warning exactly when its methods
/// may not be mixed; the other playlists have none.
pub proof fn law_methods_in_one_playlist(playlists: Seq<MediaPlaylist>, i: int)
    requires
        0 <= i < playlists.len(),
        playlists[i].encryption_methods@.finite(),
    ensures
        ({
            let found = mix_rule(playlists)(i);
            &&& found.len() == one_if(
                speaks_for_its_name(playlists, i) && !may_be_mixed(
                    playlists[i].encryption_methods@,
                ),
            )
            &&& forall|k: int|
                0 <= k < found.len() ==> (#[trigger] found[k]).severity == Severity::Warn
            &&& encryption_findings(playlists) == gathered(playlists.len(), mix_rule(playlists))
                + method_findings(playlists)
        }),
{
    lemma_speaks(playlists, i);
    if speaks_for_its_name(playlists, i) {
        lemma_mix(playlists[i].encryption_methods@);
    }
}

/// A playlist stands for its name exactly when it speaks for it.
proof fn lemma_speaks(playlists: Seq<MediaPlaylist>, i: int)
    ensures
        stands_for_name(playlists, i) == speaks_for_its_name(playlists, i),
{
}

/// Whether playlist `i` is encrypted by the method: it speaks for its name and
/// declares the method; `NONE` counts only where it is the only one.
pub open spec fn is_encrypted_by(
    playlists: Seq<MediaPlaylist>,
    i: int,
    method: Seq<char>,
) -> bool {
    speaks_for_its_name(playlists, i) && playlists[i].encryption_methods@.contains(method) && (
    method == "NONE"@ ==> playlists[i].encryption_methods@.len() == 1)
}

/// The methods of the first playlists are finitely many.
proof fn lemma_methods_finite(playlists: Seq<MediaPlaylist>, n: nat)
    requires
        n <= playlists.len(),
        forall|i: int|
            0 <= i < playlists.len() ==> (#[trigger] playlists[i]).encryption_methods@.finite(),
    ensures
        Set::<Seq<char>>::new(
            |x: Seq<char>| exists|i: int| 0 <= i < n && #[trigger] counts_method(playlists, i, x),
        ).finite(),
    decreases n,
{
    let some = Set::<Seq<char>>::new(
        |x: Seq<char>| exists|i: int| 0 <= i < n && #[trigger] counts_method(playlists, i, x),
    );
    if n == 0 {
        assert(some =~= Set::<Seq<char>>::empty());
    } else {
        let less = Set::<Seq<char>>::new(
            |x: Seq<char>|
                exists|i: int| 0 <= i < n - 1 && #[trigger] counts_method(playlists, i, x),
        );
        lemma_methods_finite(playlists, (n - 1) as nat);
        assert(playlists[n - 1].encryption_methods@.finite());
        let more = less.union(playlists[n - 1].encryption_methods@);
        assert(some.subset_of(more)) by {
            assert forall|x: Seq<char>| some.contains(x) implies more.contains(x) by {
                let i = choose|i: int| 0 <= i < n && #[trigger] counts_method(playlists, i, x);
                if i < n - 1 {
                    assert(less.contains(x));
                }
            }
        }
        vstd::set_lib::lemma_set_subset_finite(more, some);
    }
}

/// The playlists have one warning, after those on single playlists, exactly
/// when two methods by which some of them are encrypted differ.
pub proof fn law_methods_across_playlists(playlists: Seq<MediaPlaylist>)
    requires
        forall|i: int|
            0 <= i < playlists.len() ==> (#[trigger] playlists[i]).encryption_methods@.finite(),
    ensures
        ({
            let found = method_findings(playlists);
            &&& found.len() == one_if(
                exists|i: int, j: int, x: Seq<char>, y: Seq<char>|
                    0 <= i < playlists.len() && 0 <= j < playlists.len() && x != y
                        && #[trigger] is_encrypted_by(playlists, i, x)
                        && #[trigger] is_encrypted_by(playlists, j, y),
            )
            &&& forall|k: int|
                0 <= k < found.len() ==> (#[trigger] found[k]).severity == Severity::Warn
        }),
{
    let all = all_methods(playlists);
    lemma_methods_finite(playlists, playlists.len());
    assert(all.finite());
    assert forall|i: int, x: Seq<char>| #[trigger] is_encrypted_by(playlists, i, x)
        == counts_method(playlists, i, x) by {
        lemma_speaks(playlists, i);
    }
    if all.len() > 1 {
        let x = all.choose();
        let rest = all.remove(x);
        assert(rest.len() > 0);
        let y = rest.choose();
        assert(all.contains(x) && rest.contains(y) && all.contains(y));
        let i = choose|i: int|
            0 <= i < playlists.len() && #[trigger] counts_method(playlists, i, x);
        let j = choose|j: int|
            0 <= j < playlists.len() && #[trigger] counts_method(playlists, j, y);
        assert(is_encrypted_by(playlists, i, x) && is_encrypted_by(playlists, j, y));
    }
    if exists|i: int, j: int, x: Seq<char>, y: Seq<char>|
        0 <= i < playlists.len() && 0 <= j < playlists.len() && x != y
            && #[trigger] is_encrypted_by(playlists, i, x) && #[trigger] is_encrypted_by(
            playlists,
            j,
            y,
        ) {
        let (i, j, x, y) = choose|i: int, j: int, x: Seq<char>, y: Seq<char>|
            0 <= i < playlists.len() && 0 <= j < playlists.len() && x != y
                && #[trigger] is_encrypted_by(playlists, i, x) && #[trigger] is_encrypted_by(
                playlists,
                j,
                y,
            );
        assert(counts_method(playlists, i, x) && counts_method(playlists, j, y));
        let two = Set::<Seq<char>>::empty().insert(x).insert(y);
        assert(two.len() == 2);
        assert(two.subset_of(all));
        vstd::set_lib::lemma_len_subset(two, all);
    }
}

/// A playlist has one warning exactly when one of its segments has a program
/// date and another has none.
pub proof fn law_partial_dates(playlists: Seq<MediaPlaylist>, i: int)
    requires
        0 <= i < playlists.len(),
    ensures
        ({
            let s = playlists[i].segments@;
            let found = coverage_rule(playlists)(i);
            &&& found.len() == one_if(
                (exists|k: int| 0 <= k < s.len() && (#[trigger] s[k]).pdt is Some) && (exists|
                    k: int,
                |
                    0 <= k < s.len() && (#[trigger] s[k]).pdt is None),
            )
            &&& forall|k: int|
                0 <= k < found.len() ==> (#[trigger] found[k]).severity == Severity::Warn
                    && found[k].rendition_a == Some(playlists[i].name@)
        }),
{
    law_dates_all_or_none(playlists[i]);
    let s = playlists[i].segments@;
    if exists|k: int| 0 <= k < s.len() && (#[trigger] s[k]).pdt is Some {
        let k = choose|k: int| 0 <= k < s.len() && (#[trigger] s[k]).pdt is Some;
        assert(!(s[k].pdt is None));
    }
    if exists|k: int| 0 <= k < s.len() && (#[trigger] s[k]).pdt is None {
        let k = choose|k: int| 0 <= k < s.len() && (#[trigger] s[k]).pdt is None;
        assert(!(s[k].pdt is Some));
    }
}

/// Segments without a date are counted one by one.
pub proof fn law_undated_are_counted(a: Seq<Segment>, b: Seq<Segment>, s: Segment)
    ensures
        undated(a + b) == undated(a) + undated(b),
        undated(seq![s]) == one_if(s.pdt is None),
    decreases b.len(),
{
    assert(seq![s].drop_last() =~= Seq::<Segment>::empty());
    assert(undated(Seq::<Segment>::empty()) == 0);
    if b.len() == 0 {
        assert(a + b =~= a);
    } else {
        assert((a + b).drop_last() =~= a + b.drop_last());
        law_undated_are_counted(a, b.drop_last(), s);
    }
}

/// A number of seconds rounds to more than `n` exactly when it is half a second
/// above `n` or more, and has a whole part of more than `n` exactly when it is
/// a second above it or more; numbers below zero and what is no number count as
/// nothing, and nothing is above the greatest number.
pub proof fn law_rounding(x: Real, n: nat)
    requires
        n < u64::MAX,
    ensures
        x matches Real::Finite(false, size) ==> (rounded(x) > n <==> 2 * size >= (2 * n + 1)
            * pow2(1074)) && (whole(x) > n <==> size >= (n + 1) * pow2(1074)),
        x is Nan || x matches Real::Finite(true, _) || x == Real::Infinite(true) ==> rounded(x)
            == 0 && whole(x) == 0,
        x == Real::Infinite(false) ==> rounded(x) == u64::MAX && whole(x) == u64::MAX,
        rounded(x) <= u64::MAX && whole(x) <= u64::MAX,
{
    if let Real::Finite(false, size) = x {
        let p = pow2(1074);
        lemma_pow2_pos(1074);
        let q = size / p;
        let r = size % p;
        lemma_fundamental_div_mod(size as int, p as int);
        assert(q > n <==> size >= (n + 1) * p) by (nonlinear_arith)
            requires
                size == p * q + r,
                0 <= r < p,
                p > 0,
        ;
        let a = (2 * size + p) as int;
        let d = (2 * p) as int;
        let h = a / d;
        let s = a % d;
        lemma_fundamental_div_mod(a, d);
        assert(h > n <==> 2 * size >= (2 * n + 1) * p) by (nonlinear_arith)
            requires
                2 * size + p == 2 * p * h + s,
                0 <= s < 2 * p,
                p > 0,
        ;
    }
}

/// Whether a target duration is not above zero.
pub open spec fn is_no_target(x: Real) -> bool {
    x matches Real::Finite(negative, size) && (negative || size == 0) || x == Real::Infinite(true)
}

/// A playlist whose target duration is not above zero has that one error. In
/// another each segment that rounds to more seconds than the target has has one
/// error, and there is one warning at the end exactly when all of them round to
/// more than a second below it.
pub proof fn law_target_covers_segments(playlists: Seq<MediaPlaylist>, i: int)
    requires
        0 <= i < playlists.len(),
    ensures
        ({
            let pl = playlists[i];
            let s = pl.segments@;
            let target = whole(pl.target_duration@);
            let found = compliance_rule(playlists)(i);
            let slack = slack_findings(pl);
            &&& is_no_target(pl.target_duration@) ==> found.len() == 1 && found[0].severity
                == Severity::Error && found[0].rendition_a == Some(pl.name@)
                && found[0].segment_index == -1
            &&& !is_no_target(pl.target_duration@) ==> found == gathered(s.len(), long_rule(pl))
                + slack
            &&& forall|k: int|
                0 <= k < s.len() ==> (#[trigger] long_rule(pl)(k)).len() == one_if(
                    rounded(s[k].duration@) > target,
                )
            &&& forall|k: int|
                0 <= k < s.len() && (#[trigger] long_rule(pl)(k)).len() > 0 ==> {
                    let issue = long_rule(pl)(k)[0];
                    &&& issue.severity == Severity::Error
                    &&& issue.rendition_a == Some(pl.name@)
                    &&& issue.uri_a == Some(s[k].uri@)
                    &&& issue.segment_index == index_number(k)
                }
            &&& slack.len() == one_if(
                s.len() > 0 && forall|k: int|
                    0 <= k < s.len() ==> rounded((#[trigger] s[k]).duration@) + 1 < target,
            )
            &&& forall|k: int|
                0 <= k < slack.len() ==> (#[trigger] slack[k]).severity == Severity::Warn
                    && slack[k].rendition_a == Some(pl.name@)
        }),
{
    let pl = playlists[i];
    let s = pl.segments@;
    if s.len() > 0 {
        law_longest(s);
        let k = choose|k: int| 0 <= k < s.len() && (#[trigger] s[k]).duration@ == longest(s);
        assert(s[k].duration@ == longest(s));
        assert forall|k: int| 0 <= k < s.len() implies rounded((#[trigger] s[k]).duration@)
            <= rounded(longest(s)) by {
            crate::double::lemma_rounded_order(s[k].duration@, longest(s));
        }
    }
}

/// Durations are in range exactly when no segment of a playlist with a target
/// duration above zero rounds to the greatest number.
pub proof fn law_durations_fit(playlists: Seq<MediaPlaylist>)
    ensures
        durations_fit(playlists) <==> forall|i: int, k: int|
            0 <= i < playlists.len() && 0 <= k < (#[trigger] playlists[i]).segments@.len()
                && !is_no_target(playlists[i].target_duration@) ==> rounded(
                (#[trigger] playlists[i].segments@[k]).duration@,
            ) < u64::MAX,
{
    assert forall|i: int| 0 <= i < playlists.len() implies longest_fits(#[trigger] playlists[i])
        == (is_no_target(playlists[i].target_duration@) || forall|k: int|
        0 <= k < playlists[i].segments@.len() ==> rounded(
            (#[trigger] playlists[i].segments@[k]).duration@,
        ) < u64::MAX) by {
        let s = playlists[i].segments@;
        if s.len() > 0 {
            law_longest(s);
            let k = choose|k: int| 0 <= k < s.len() && (#[trigger] s[k]).duration@ == longest(s);
            assert(s[k].duration@ == longest(s));
            assert forall|k: int| 0 <= k < s.len() implies rounded((#[trigger] s[k]).duration@)
                <= rounded(longest(s)) by {
                crate::double::lemma_rounded_order(s[k].duration@, longest(s));
            }
        }
    }
    if durations_fit(playlists) {
        assert forall|i: int, k: int|
            0 <= i < playlists.len() && 0 <= k < (#[trigger] playlists[i]).segments@.len()
                && !is_no_target(playlists[i].target_duration@) implies rounded(
            (#[trigger] playlists[i].segments@[k]).duration@,
        ) < u64::MAX by {
            assert(longest_fits(playlists[i]));
        }
    }
}

/// Texts are ordered by the first characters in which they differ, and a text
/// comes before those that go on from it.
pub proof fn law_order_of_texts(
    common: Seq<char>,
    x: char,
    y: char,
    s: Seq<char>,
    t: Seq<char>,
)
    requires
        x != y,
    ensures
        text_before(common.push(x) + s, common.push(y) + t) <==> x < y,
        text_before(common, common.push(x) + s),
        !text_before(common.push(x) + s, common),
    decreases common.len(),
{
    let a = common.push(x) + s;
    let b = common.push(y) + t;
    if common.len() > 0 {
        let rest = common.drop_first();
        law_order_of_texts(rest, x, y, s, t);
        assert(a.drop_first() =~= rest.push(x) + s);
        assert(b.drop_first() =~= rest.push(y) + t);
    }
}

/// The methods that are listed are those by which some playlist is encrypted.
pub proof fn law_listed_methods(playlists: Seq<MediaPlaylist>, method: Seq<char>)
    ensures
        all_methods(playlists).contains(method) <==> exists|i: int|
            0 <= i < playlists.len() && #[trigger] is_encrypted_by(playlists, i, method),
        encryption_findings(playlists) == gathered(playlists.len(), mix_rule(playlists))
            + method_findings(playlists),
{
    if all_methods(playlists).contains(method) {
        let i = choose|i: int|
            0 <= i < playlists.len() && #[trigger] counts_method(playlists, i, method);
        lemma_speaks(playlists, i);
        assert(is_encrypted_by(playlists, i, method));
    }
    if exists|i: int|
        0 <= i < playlists.len() && #[trigger] is_encrypted_by(playlists, i, method) {
        let i = choose|i: int|
            0 <= i < playlists.len() && #[trigger] is_encrypted_by(playlists, i, method);
        lemma_speaks(playlists, i);
        assert(counts_method(playlists, i, method));
    }
}

/// The elements at the positions picked are the elements that pass.
proof fn lemma_filtered(
    s: Seq<MediaPlaylist>,
    n: nat,
    p: spec_fn(int) -> bool,
    q: spec_fn(MediaPlaylist) -> bool,
)
    requires
        n <= s.len(),
        forall|i: int| 0 <= i < n ==> #[trigger] p(i) == q(s[i]),
    ensures
        picked(n, p).map_values(|i: int| s[i]) == s.take(n as int).filter(q),
    decreases n,
{
    reveal(Seq::filter);
    let at = |i: int| s[i];
    if n > 0 {
        let m = (n - 1) as nat;
        lemma_filtered(s, m, p, q);
        assert(s.take(n as int).drop_last() =~= s.take(m as int));
        assert(p(m as int) == q(s[m as int]));
        assert(picked(m, p).push(m as int).map_values(at) =~= picked(m, p).map_values(at).push(
            s[m as int],
        ));
    } else {
        assert(picked(n, p).map_values(at) =~= s.take(0).filter(q));
    }
}

/// The playlists that are compared are, in their order, those that have a
/// target to share, those that are finished video, those that show video, and
/// those that have partial segments.
pub proof fn law_compared_playlists(playlists: Seq<MediaPlaylist>)
    ensures
        comparable(playlists) == playlists.filter(|pl: MediaPlaylist| has_shared_target(pl)),
        counted(playlists) == playlists.filter(|pl: MediaPlaylist| is_finished_video(pl)),
        videos(playlists) == playlists.filter(|pl: MediaPlaylist| shows_video(pl)),
        part_names(playlists) == playlists.filter(
            |pl: MediaPlaylist| pl.parts@.len() > 0,
        ).map_values(|pl: MediaPlaylist| pl.name@),
{
    let n = playlists.len();
    assert(playlists.take(n as int) =~= playlists);
    let targets = |pl: MediaPlaylist| has_shared_target(pl);
    let finished = |pl: MediaPlaylist| is_finished_video(pl);
    let video = |pl: MediaPlaylist| shows_video(pl);
    let parts = |pl: MediaPlaylist| pl.parts@.len() > 0;
    lemma_filtered(playlists, n, comparable_at(playlists), targets);
    lemma_filtered(playlists, n, counted_at(playlists), finished);
    lemma_filtered(playlists, n, video_at(playlists), video);
    lemma_filtered(playlists, n, has_parts(playlists), parts);
    let m = picked(n, has_parts(playlists));
    assert(part_names(playlists) =~= m.map_values(|i: int| playlists[i]).map_values(
        |pl: MediaPlaylist| pl.name@,
    ));
}

} // verus!
