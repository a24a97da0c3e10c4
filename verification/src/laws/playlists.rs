//! Laws of the checks that look at one media playlist at a time.
use crate::checks::durations::{compliance_rule, long_rule, longest, slack_findings};
use crate::checks::headers::{duplicates_rule, header_rule};
use crate::checks::interstitials::interstitial_rule;
use crate::checks::low_latency::playlist_rule;
use crate::checks::playlists::{
    announced_before, coverage_findings, coverage_rule, endlist_findings, endlist_rule, is_tag,
    is_uri_line, live_findings, live_rule, order_findings, segment_line, segment_uri_at,
    sequence_findings, sequence_line, sequence_rule, sequence_tag_at, undated,
};
use crate::checks::versions::{version_findings, version_rule};
use crate::gather::{
    earliest, gathered, lemma_gathered_empty, lemma_gathered_same, lemma_gathered_split,
};
use crate::double::{lemma_rounded_order, less, rounded, whole};
use crate::text::{has_text, lines_from, lines_of, optional, position, trimmed, without_return};
use crate::types::{index_number, named, CheckId, IssueView, MediaPlaylist, Segment, Severity};
use vstd::prelude::*;

verus! {

/// Naming the producer gives every finding a check, leaves alone the findings
/// that have one, and doing it again, for any check, changes nothing.
pub proof fn law_named_once(id: CheckId, other: CheckId, s: Seq<IssueView>)
    requires
        id != CheckId::Unassigned,
    ensures
        named(id, s).len() == s.len(),
        forall|k: int|
            0 <= k < s.len() ==> (#[trigger] named(id, s)[k]).check_id != CheckId::Unassigned,
        forall|k: int|
            0 <= k < s.len() && s[k].check_id != CheckId::Unassigned ==> #[trigger] named(
                id,
                s,
            )[k] == s[k],
        forall|k: int|
            0 <= k < s.len() && s[k].check_id == CheckId::Unassigned ==> #[trigger] named(
                id,
                s,
            )[k] == s[k].raised_by(id),
        named(other, named(id, s)) == named(id, s),
{
    assert(named(other, named(id, s)) =~= named(id, s));
}

/// What is gathered is what the positions give, in their order: nothing from
/// none, what the first gives from one, and what more positions give after it.
pub proof fn law_gathered_in_order(m: nat, n: nat, f: spec_fn(int) -> Seq<IssueView>)
    ensures
        gathered(0, f) == Seq::<IssueView>::empty(),
        gathered(1, f) == f(0),
        gathered(m + n, f) == gathered(m, f) + gathered(n, |i: int| f(m + i)),
{
    assert(gathered(0, f) =~= Seq::<IssueView>::empty());
    assert(gathered(0, f) + f(0) =~= f(0));
    lemma_gathered_split(m, n, f, |i: int| f(m + i));
}

/// The checks of single playlists find in some playlists what they find in the
/// first of them, and then what they find in the others: no playlist bears on
/// the findings of another.
pub proof fn law_playlists_apart(a: Seq<MediaPlaylist>, b: Seq<MediaPlaylist>)
    ensures
        ({
            let n = (a + b).len();
            &&& gathered(n, header_rule(a + b)) == gathered(a.len(), header_rule(a)) + gathered(
                b.len(),
                header_rule(b),
            )
            &&& gathered(n, duplicates_rule(a + b)) == gathered(a.len(), duplicates_rule(a))
                + gathered(b.len(), duplicates_rule(b))
            &&& gathered(n, compliance_rule(a + b)) == gathered(a.len(), compliance_rule(a))
                + gathered(b.len(), compliance_rule(b))
            &&& gathered(n, coverage_rule(a + b)) == gathered(a.len(), coverage_rule(a))
                + gathered(b.len(), coverage_rule(b))
            &&& gathered(n, version_rule(a + b)) == gathered(a.len(), version_rule(a)) + gathered(
                b.len(),
                version_rule(b),
            )
            &&& gathered(n, live_rule(a + b)) == gathered(a.len(), live_rule(a)) + gathered(
                b.len(),
                live_rule(b),
            )
            &&& gathered(n, endlist_rule(a + b)) == gathered(a.len(), endlist_rule(a)) + gathered(
                b.len(),
                endlist_rule(b),
            )
            &&& gathered(n, sequence_rule(a + b)) == gathered(a.len(), sequence_rule(a))
                + gathered(b.len(), sequence_rule(b))
            &&& gathered(n, interstitial_rule(a + b)) == gathered(a.len(), interstitial_rule(a))
                + gathered(b.len(), interstitial_rule(b))
            &&& gathered(n, playlist_rule(a + b)) == gathered(a.len(), playlist_rule(a))
                + gathered(b.len(), playlist_rule(b))
        }),
{
    lemma_header_apart(a, b);
    lemma_duplicates_apart(a, b);
    lemma_compliance_apart(a, b);
    lemma_coverage_apart(a, b);
    lemma_version_apart(a, b);
    lemma_live_apart(a, b);
    lemma_endlist_apart(a, b);
    lemma_sequence_apart(a, b);
    lemma_interstitial_apart(a, b);
    lemma_playlist_apart(a, b);
}

/// A rule that looks at one playlist at a time can be applied part by part.
proof fn lemma_apart(
    a: Seq<MediaPlaylist>,
    b: Seq<MediaPlaylist>,
    all: spec_fn(int) -> Seq<IssueView>,
    first: spec_fn(int) -> Seq<IssueView>,
    second: spec_fn(int) -> Seq<IssueView>,
)
    requires
        forall|i: int| 0 <= i < a.len() ==> #[trigger] all(i) == first(i),
        forall|i: int| 0 <= i < b.len() ==> #[trigger] second(i) == all(a.len() + i),
    ensures
        gathered((a + b).len(), all) == gathered(a.len(), first) + gathered(b.len(), second),
{
    lemma_gathered_split(a.len(), b.len(), all, second);
    lemma_gathered_same(a.len(), all, first);
}

proof fn lemma_header_apart(a: Seq<MediaPlaylist>, b: Seq<MediaPlaylist>)
    ensures
        gathered((a + b).len(), header_rule(a + b)) == gathered(a.len(), header_rule(a)) + gathered(
            b.len(),
            header_rule(b),
        ),
{
    lemma_apart(a, b, header_rule(a + b), header_rule(a), header_rule(b));
}

proof fn lemma_duplicates_apart(a: Seq<MediaPlaylist>, b: Seq<MediaPlaylist>)
    ensures
        gathered((a + b).len(), duplicates_rule(a + b)) == gathered(a.len(), duplicates_rule(a)) + gathered(
            b.len(),
            duplicates_rule(b),
        ),
{
    lemma_apart(a, b, duplicates_rule(a + b), duplicates_rule(a), duplicates_rule(b));
}

proof fn lemma_compliance_apart(a: Seq<MediaPlaylist>, b: Seq<MediaPlaylist>)
    ensures
        gathered((a + b).len(), compliance_rule(a + b)) == gathered(a.len(), compliance_rule(a)) + gathered(
            b.len(),
            compliance_rule(b),
        ),
{
    lemma_apart(a, b, compliance_rule(a + b), compliance_rule(a), compliance_rule(b));
}

proof fn lemma_coverage_apart(a: Seq<MediaPlaylist>, b: Seq<MediaPlaylist>)
    ensures
        gathered((a + b).len(), coverage_rule(a + b)) == gathered(a.len(), coverage_rule(a)) + gathered(
            b.len(),
            coverage_rule(b),
        ),
{
    lemma_apart(a, b, coverage_rule(a + b), coverage_rule(a), coverage_rule(b));
}

proof fn lemma_version_apart(a: Seq<MediaPlaylist>, b: Seq<MediaPlaylist>)
    ensures
        gathered((a + b).len(), version_rule(a + b)) == gathered(a.len(), version_rule(a)) + gathered(
            b.len(),
            version_rule(b),
        ),
{
    lemma_apart(a, b, version_rule(a + b), version_rule(a), version_rule(b));
}

proof fn lemma_live_apart(a: Seq<MediaPlaylist>, b: Seq<MediaPlaylist>)
    ensures
        gathered((a + b).len(), live_rule(a + b)) == gathered(a.len(), live_rule(a)) + gathered(
            b.len(),
            live_rule(b),
        ),
{
    lemma_apart(a, b, live_rule(a + b), live_rule(a), live_rule(b));
}

proof fn lemma_endlist_apart(a: Seq<MediaPlaylist>, b: Seq<MediaPlaylist>)
    ensures
        gathered((a + b).len(), endlist_rule(a + b)) == gathered(a.len(), endlist_rule(a)) + gathered(
            b.len(),
            endlist_rule(b),
        ),
{
    lemma_apart(a, b, endlist_rule(a + b), endlist_rule(a), endlist_rule(b));
}

proof fn lemma_sequence_apart(a: Seq<MediaPlaylist>, b: Seq<MediaPlaylist>)
    ensures
        gathered((a + b).len(), sequence_rule(a + b)) == gathered(a.len(), sequence_rule(a)) + gathered(
            b.len(),
            sequence_rule(b),
        ),
{
    lemma_apart(a, b, sequence_rule(a + b), sequence_rule(a), sequence_rule(b));
}

proof fn lemma_interstitial_apart(a: Seq<MediaPlaylist>, b: Seq<MediaPlaylist>)
    ensures
        gathered((a + b).len(), interstitial_rule(a + b)) == gathered(a.len(), interstitial_rule(a)) + gathered(
            b.len(),
            interstitial_rule(b),
        ),
{
    lemma_apart(a, b, interstitial_rule(a + b), interstitial_rule(a), interstitial_rule(b));
}

proof fn lemma_playlist_apart(a: Seq<MediaPlaylist>, b: Seq<MediaPlaylist>)
    ensures
        gathered((a + b).len(), playlist_rule(a + b)) == gathered(a.len(), playlist_rule(a)) + gathered(
            b.len(),
            playlist_rule(b),
        ),
{
    lemma_apart(a, b, playlist_rule(a + b), playlist_rule(a), playlist_rule(b));
}

/// How many segments are undated says whether all or none of them are.
proof fn lemma_undated(s: Seq<Segment>)
    ensures
        undated(s) <= s.len(),
        undated(s) == 0 <==> forall|i: int| 0 <= i < s.len() ==> (#[trigger] s[i]).pdt is Some,
        undated(s) == s.len() <==> forall|i: int|
            0 <= i < s.len() ==> (#[trigger] s[i]).pdt is None,
    decreases s.len(),
{
    if s.len() > 0 {
        let rest = s.drop_last();
        lemma_undated(rest);
        assert(forall|i: int| 0 <= i < rest.len() ==> rest[i] == s[i]);
        assert(s[s.len() - 1] == s.last());
        if undated(s) == 0 {
            assert forall|i: int| 0 <= i < s.len() implies (#[trigger] s[i]).pdt is Some by {
                if i < rest.len() {
                    assert(rest[i].pdt is Some);
                }
            }
        }
        if undated(s) == s.len() {
            assert forall|i: int| 0 <= i < s.len() implies (#[trigger] s[i]).pdt is None by {
                if i < rest.len() {
                    assert(rest[i].pdt is None);
                }
            }
        }
        if forall|i: int| 0 <= i < s.len() ==> (#[trigger] s[i]).pdt is Some {
            assert(forall|i: int| 0 <= i < rest.len() ==> (#[trigger] rest[i]).pdt is Some);
        }
        if forall|i: int| 0 <= i < s.len() ==> (#[trigger] s[i]).pdt is None {
            assert(forall|i: int| 0 <= i < rest.len() ==> (#[trigger] rest[i]).pdt is None);
        }
    }
}

/// If any segment has a program date, all should: a playlist has a finding
/// exactly when some segment has a date and some segment has none.
pub proof fn law_dates_all_or_none(pl: MediaPlaylist)
    ensures
        coverage_findings(pl).len() == 0 <==> {
            ||| forall|i: int|
                0 <= i < pl.segments@.len() ==> (#[trigger] pl.segments@[i]).pdt is Some
            ||| forall|i: int|
                0 <= i < pl.segments@.len() ==> (#[trigger] pl.segments@[i]).pdt is None
        },
{
    lemma_undated(pl.segments@);
}

/// A playlist of an event may be without an end, as the event may go on.
pub proof fn law_event_may_go_on(pl: MediaPlaylist)
    requires
        optional(pl.playlist_type) == Some("EVENT"@),
    ensures
        endlist_findings(pl).len() == 0,
{
    reveal_strlit("EVENT");
    reveal_strlit("VOD");
    assert("EVENT"@.len() != "VOD"@.len());
}

/// What is asked of live playlists is not asked of one that is at its end, and
/// a playlist at its end needs no end.
pub proof fn law_finished_is_not_live(pl: MediaPlaylist)
    requires
        pl.has_endlist,
    ensures
        live_findings(pl).len() == 0,
        endlist_findings(pl).len() == 0,
        pl.segments@.len() > 0 ==> sequence_findings(pl) == order_findings(pl),
{
    assert(Seq::<IssueView>::empty() + order_findings(pl) =~= order_findings(pl));
}

/// No segment is longer than the longest, which is one of them.
pub proof fn law_longest(s: Seq<Segment>)
    requires
        s.len() > 0,
    ensures
        forall|i: int| 0 <= i < s.len() ==> !less(longest(s), (#[trigger] s[i]).duration@),
        exists|i: int| 0 <= i < s.len() && (#[trigger] s[i]).duration@ == longest(s),
        longest(s) is Nan ==> forall|i: int|
            0 <= i < s.len() ==> (#[trigger] s[i]).duration@ is Nan,
    decreases s.len(),
{
    if s.len() == 1 {
        assert(s[0].duration@ == longest(s));
    } else {
        let rest = s.drop_last();
        law_longest(rest);
        assert(forall|i: int| 0 <= i < rest.len() ==> rest[i] == s[i]);
        assert(s[s.len() - 1] == s.last());
        assert forall|i: int| 0 <= i < s.len() implies !less(
            longest(s),
            (#[trigger] s[i]).duration@,
        ) by {
            if i < rest.len() {
                assert(!less(longest(rest), rest[i].duration@));
            }
        }
        if !(longest(rest) is Nan || less(longest(rest), s.last().duration@)) {
            let i = choose|i: int|
                0 <= i < rest.len() && (#[trigger] rest[i]).duration@ == longest(rest);
            assert(s[i].duration@ == longest(s));
        }
    }
}

/// A target duration is never reported both as too low for a segment and as
/// too high for all of them.
pub proof fn law_target_low_or_high(pl: MediaPlaylist)
    ensures
        slack_findings(pl).len() == 0 || gathered(pl.segments@.len(), long_rule(pl)).len() == 0,
{
    if slack_findings(pl).len() > 0 {
        law_longest(pl.segments@);
        assert forall|i: int| 0 <= i < pl.segments@.len() implies (#[trigger] long_rule(pl)(
            i,
        )).len() == 0 by {
            assert(!less(longest(pl.segments@), pl.segments@[i].duration@));
            lemma_rounded_order(pl.segments@[i].duration@, longest(pl.segments@));
        }
        lemma_gathered_empty(pl.segments@.len(), long_rule(pl));
    }
}

/// Every segment, rounded to the nearest second, is within the target duration
/// exactly when no segment is reported as too long.
pub proof fn law_target_bounds_segments(pl: MediaPlaylist)
    ensures
        gathered(pl.segments@.len(), long_rule(pl)).len() == 0 <==> forall|i: int|
            0 <= i < pl.segments@.len() ==> rounded((#[trigger] pl.segments@[i]).duration@)
                <= whole(pl.target_duration@),
{
    let n = pl.segments@.len();
    let rule = long_rule(pl);
    if forall|i: int|
        0 <= i < n ==> rounded((#[trigger] pl.segments@[i]).duration@) <= whole(
            pl.target_duration@,
        ) {
        assert forall|i: int| 0 <= i < n implies (#[trigger] rule(i)).len() == 0 by {
            assert(rounded(pl.segments@[i].duration@) <= whole(pl.target_duration@));
        }
        lemma_gathered_empty(n, rule);
    }
    if gathered(n, rule).len() == 0 {
        assert forall|i: int| 0 <= i < n implies rounded((#[trigger] pl.segments@[i]).duration@)
            <= whole(pl.target_duration@) by {
            if rounded(pl.segments@[i].duration@) > whole(pl.target_duration@) {
                assert(rule(i).len() == 1);
                crate::gather::lemma_gathered_holds(n, rule, i, 0);
            }
        }
    }
}

/// A playlist that declares a higher version has no more findings on its
/// version, and the highest version that a feature needs ends them all.
pub proof fn law_higher_version_allows_more(pl: MediaPlaylist, newer: MediaPlaylist)
    requires
        newer == (MediaPlaylist { version: newer.version, ..pl }),
        newer.version >= pl.version,
    ensures
        version_findings(newer).len() <= version_findings(pl).len(),
        newer.version >= 9 ==> version_findings(newer).len() == 0,
{
}

/// Lines that are the same but for the URIs in them.
pub open spec fn same_but_uris(a: Seq<Seq<char>>, b: Seq<Seq<char>>) -> bool {
    &&& a.len() == b.len()
    &&& forall|i: int|
        0 <= i < a.len() ==> #[trigger] a[i] == b[i] || is_uri_line(a[i]) && is_uri_line(b[i])
}

/// Lines that are the same but for the URIs in them have their media sequence
/// tag and their first segment at the same places.
proof fn lemma_same_but_uris(a: Seq<Seq<char>>, b: Seq<Seq<char>>)
    requires
        same_but_uris(a, b),
    ensures
        sequence_line(a) == sequence_line(b),
        segment_line(a) == segment_line(b),
{
    reveal_strlit("#EXT-X-MEDIA-SEQUENCE:");
    reveal_strlit("#EXTINF:");
    assert forall|l: Seq<char>| #[trigger] is_uri_line(l) implies !is_tag(
        l,
        "#EXT-X-MEDIA-SEQUENCE:"@,
    ) && !is_tag(l, "#EXTINF:"@) by {
        let t = trimmed(l);
        assert(t.take("#EXT-X-MEDIA-SEQUENCE:"@.len() as int)[0] == t[0]
            || t.len() < "#EXT-X-MEDIA-SEQUENCE:"@.len());
        assert(t.take("#EXTINF:"@.len() as int)[0] == t[0] || t.len() < "#EXTINF:"@.len());
    }
    let n = a.len();
    assert forall|i: int| 0 <= i < n implies is_tag(#[trigger] a[i], "#EXTINF:"@) == is_tag(
        b[i],
        "#EXTINF:"@,
    ) by {}
    assert forall|i: int| 0 <= i < n implies #[trigger] sequence_tag_at(a)(i)
        == sequence_tag_at(b)(i) by {
        assert(a[i] == b[i] || is_uri_line(a[i]) && is_uri_line(b[i]));
    }
    assert forall|i: int| 0 <= i < n implies #[trigger] segment_uri_at(a)(i) == segment_uri_at(
        b,
    )(i) by {
        assert(a[i] == b[i] || is_uri_line(a[i]) && is_uri_line(b[i]));
        if announced_before(a, i) {
            let j = choose|j: int| 0 <= j < i && is_tag(#[trigger] a[j], "#EXTINF:"@);
            assert(is_tag(b[j], "#EXTINF:"@));
        }
        if announced_before(b, i) {
            let j = choose|j: int| 0 <= j < i && is_tag(#[trigger] b[j], "#EXTINF:"@);
            assert(is_tag(a[j], "#EXTINF:"@));
        }
    }
    lemma_earliest_same(n, sequence_tag_at(a), sequence_tag_at(b));
    lemma_earliest_same(n, segment_uri_at(a), segment_uri_at(b));
}

/// Conditions that agree have the same earliest position.
proof fn lemma_earliest_same(n: nat, p: spec_fn(int) -> bool, q: spec_fn(int) -> bool)
    requires
        forall|i: int| 0 <= i < n ==> #[trigger] p(i) == q(i),
    ensures
        earliest(n, p) == earliest(n, q),
    decreases n,
{
    if n > 0 {
        lemma_earliest_same((n - 1) as nat, p, q);
        assert(p(n - 1) == q(n - 1));
    }
}

/// Nothing is read out of segment URIs: with other URIs in their places the
/// findings on the media sequence tag are the same. URIs that hold the tag's
/// own text are left out, as a playlist is searched for that text.
pub proof fn law_segment_names_are_free(pl: MediaPlaylist, renamed: MediaPlaylist)
    requires
        renamed.name@ == pl.name@,
        renamed.has_endlist == pl.has_endlist,
        renamed.segments@.len() == pl.segments@.len(),
        same_but_uris(lines_of(pl.raw_content@), lines_of(renamed.raw_content@)),
        has_text(pl.raw_content@, "#EXT-X-MEDIA-SEQUENCE:"@) == has_text(
            renamed.raw_content@,
            "#EXT-X-MEDIA-SEQUENCE:"@,
        ),
    ensures
        sequence_findings(renamed) == sequence_findings(pl),
{
    lemma_same_but_uris(lines_of(pl.raw_content@), lines_of(renamed.raw_content@));
}

/// The first position of a character is one where it stands, and the first.
proof fn lemma_position(s: Seq<char>, c: char, from: int)
    requires
        0 <= from <= s.len(),
    ensures
        from <= position(s, c, from) <= s.len(),
        position(s, c, from) < s.len() ==> s[position(s, c, from)] == c,
        forall|k: int| from <= k < position(s, c, from) ==> #[trigger] s[k] != c,
    decreases s.len() - from,
{
    if from < s.len() && s[from] != c {
        lemma_position(s, c, from + 1);
    }
}

/// Whether `p` stands in `s` at some position from `from` on.
pub open spec fn has_text_from(s: Seq<char>, p: Seq<char>, from: int) -> bool {
    exists|i: int|
        from <= i <= s.len() - p.len() && #[trigger] s.subrange(i, i + p.len()) == p
}

/// Whether `p` stands in one of the lines.
pub open spec fn some_line_has(all: Seq<Seq<char>>, p: Seq<char>) -> bool {
    exists|k: int| 0 <= k < all.len() && has_text(#[trigger] all[k], p)
}

/// A text that holds no line ending stands in the first line or after it.
proof fn lemma_first_line_or_rest(s: Seq<char>, p: Seq<char>, from: int, line: Seq<char>, end: int)
    requires
        0 <= from < s.len(),
        p.len() > 0,
        !p.contains('\n'),
        !p.contains('\r'),
        end == position(s, '\n', from),
        line == s.subrange(from, end) || end < s.len() && line == without_return(
            s.subrange(from, end),
        ),
    ensures
        has_text_from(s, p, from) <==> has_text(line, p) || has_text_from(s, p, end + 1),
{
    lemma_position(s, '\n', from);
    let row = s.subrange(from, end);
    if has_text_from(s, p, from) {
        let i = choose|i: int|
            from <= i <= s.len() - p.len() && #[trigger] s.subrange(i, i + p.len()) == p;
        let found = s.subrange(i, i + p.len());
        if i <= end {
            if end < i + p.len() {
                assert(end < s.len());
                assert(found[end - i] == '\n');
                assert(p.contains('\n'));
            }
            let last = i + p.len() - 1;
            assert(found[p.len() - 1] == s[last]);
            if line != row && last == end - 1 {
                assert(row.last() == s[last]);
                assert(p[p.len() - 1] == '\r');
            }
            assert(line.subrange(i - from, i - from + p.len()) =~= p) by {
                assert forall|k: int| 0 <= k < p.len() implies line[i - from + k] == p[k] by {
                    assert(found[k] == s[i + k]);
                }
            }
        } else {
            assert(s.subrange(i, i + p.len()) == p);
        }
    }
    if has_text(line, p) {
        let i = choose|i: int|
            0 <= i <= line.len() - p.len() && #[trigger] line.subrange(i, i + p.len()) == p;
        assert(s.subrange(from + i, from + i + p.len()) =~= p) by {
            assert forall|k: int| 0 <= k < p.len() implies s[from + i + k] == p[k] by {
                assert(line.subrange(i, i + p.len())[k] == line[i + k]);
            }
        }
    }
}

/// A text that holds no line ending stands in a text from some line on exactly
/// when it stands in one of those lines.
proof fn lemma_text_in_lines_from(s: Seq<char>, p: Seq<char>, from: int)
    requires
        0 <= from,
        p.len() > 0,
        !p.contains('\n'),
        !p.contains('\r'),
    ensures
        has_text_from(s, p, from) <==> some_line_has(lines_from(s, from), p),
    decreases s.len() + 1 - from,
{
    let all = lines_from(s, from);
    if from < s.len() {
        lemma_position(s, '\n', from);
        let end = position(s, '\n', from);
        lemma_first_line_or_rest(s, p, from, all[0], end);
        lemma_text_in_lines_from(s, p, end + 1);
        let rest = lines_from(s, end + 1);
        if end < s.len() {
            assert(all =~= seq![all[0]] + rest);
        } else {
            assert(rest.len() == 0);
        }
        if some_line_has(rest, p) {
            let k = choose|k: int| 0 <= k < rest.len() && has_text(#[trigger] rest[k], p);
            assert(all[k + 1] == rest[k]);
        }
        if some_line_has(all, p) {
            let k = choose|k: int| 0 <= k < all.len() && has_text(#[trigger] all[k], p);
            if k > 0 {
                assert(all[k] == rest[k - 1]);
            }
        }
        if has_text(all[0], p) {
            assert(some_line_has(all, p));
        }
    }
}

/// A tag stands in a playlist exactly when it stands in one of its lines.
proof fn lemma_text_in_lines(s: Seq<char>, p: Seq<char>)
    requires
        p.len() > 0,
        !p.contains('\n'),
        !p.contains('\r'),
    ensures
        has_text(s, p) <==> some_line_has(lines_of(s), p),
{
    lemma_text_in_lines_from(s, p, 0);
    if has_text(s, p) {
        let i = choose|i: int|
            0 <= i <= s.len() - p.len() && #[trigger] s.subrange(i, i + p.len()) == p;
        assert(s.subrange(i, i + p.len()) == p);
    }
}

/// Lines that are the same but for URIs in them that hold no `#`.
pub open spec fn same_but_plain_uris(a: Seq<Seq<char>>, b: Seq<Seq<char>>) -> bool {
    &&& a.len() == b.len()
    &&& forall|i: int|
        0 <= i < a.len() ==> #[trigger] a[i] == b[i] || is_plain_uri(a[i]) && is_plain_uri(b[i])
}

/// Whether a line holds a URI and no `#`.
pub open spec fn is_plain_uri(line: Seq<char>) -> bool {
    is_uri_line(line) && !line.contains('#')
}

/// Texts whose lines are the same but for URIs without `#` hold the media
/// sequence tag alike.
proof fn lemma_plain_uris_hold_no_tag(s: Seq<char>, t: Seq<char>)
    requires
        same_but_plain_uris(lines_of(s), lines_of(t)),
    ensures
        has_text(s, "#EXT-X-MEDIA-SEQUENCE:"@) == has_text(t, "#EXT-X-MEDIA-SEQUENCE:"@),
{
    let p = "#EXT-X-MEDIA-SEQUENCE:"@;
    reveal_strlit("#EXT-X-MEDIA-SEQUENCE:");
    assert(!p.contains('\n') && !p.contains('\r'));
    assert(p[0] == '#');
    lemma_text_in_lines(s, p);
    lemma_text_in_lines(t, p);
    let a = lines_of(s);
    let b = lines_of(t);
    assert forall|l: Seq<char>| is_plain_uri(l) implies !#[trigger] has_text(l, p) by {
        if has_text(l, p) {
            let i = choose|i: int|
                0 <= i <= l.len() - p.len() && #[trigger] l.subrange(i, i + p.len()) == p;
            assert(l.subrange(i, i + p.len())[0] == l[i]);
        }
    }
    if some_line_has(a, p) {
        let k = choose|k: int| 0 <= k < a.len() && has_text(#[trigger] a[k], p);
        assert(has_text(b[k], p));
    }
    if some_line_has(b, p) {
        let k = choose|k: int| 0 <= k < b.len() && has_text(#[trigger] b[k], p);
        assert(a[k] == b[k] || is_plain_uri(a[k]) && is_plain_uri(b[k]));
        assert(has_text(a[k], p));
    }
}

/// Nothing is read out of segment URIs: playlists whose lines are the same but
/// for URIs, which are replaced one for one by others and hold no `#`, have the
/// same findings on the media sequence tag.
pub proof fn law_segment_uris_are_free(
    playlists: Seq<MediaPlaylist>,
    renamed: Seq<MediaPlaylist>,
)
    requires
        playlists.len() == renamed.len(),
        forall|i: int|
            0 <= i < playlists.len() ==> {
                let pl = #[trigger] playlists[i];
                &&& renamed[i].name@ == pl.name@
                &&& renamed[i].has_endlist == pl.has_endlist
                &&& renamed[i].segments@.len() == pl.segments@.len()
                &&& same_but_plain_uris(
                    lines_of(pl.raw_content@),
                    lines_of(renamed[i].raw_content@),
                )
            },
    ensures
        gathered(renamed.len(), sequence_rule(renamed)) == gathered(
            playlists.len(),
            sequence_rule(playlists),
        ),
{
    assert forall|i: int| 0 <= i < playlists.len() implies #[trigger] sequence_rule(renamed)(i)
        == sequence_rule(playlists)(i) by {
        let pl = playlists[i];
        lemma_plain_uris_hold_no_tag(pl.raw_content@, renamed[i].raw_content@);
        law_segment_names_are_free(pl, renamed[i]);
    }
    lemma_gathered_same(playlists.len(), sequence_rule(renamed), sequence_rule(playlists));
}

/// A finding names what it is about and nothing else: where it names no segment
/// its index is -1, and it names no check until the check does.
pub proof fn law_shapes_of_findings(
    severity: Severity,
    index: int,
    name: Seq<char>,
    other: Seq<char>,
    uri: Seq<char>,
    other_uri: Seq<char>,
    message: Seq<char>,
)
    ensures
        ({
            let plain = IssueView {
                severity,
                check_id: CheckId::Unassigned,
                segment_index: -1,
                rendition_a: None,
                rendition_b: None,
                uri_a: None,
                uri_b: None,
                message,
                uri_note: None,
            };
            &&& IssueView::general(severity, message) == plain
            &&& IssueView::on_rendition(severity, name, message) == (IssueView {
                rendition_a: Some(name),
                ..plain
            })
            &&& IssueView::on_uri(severity, uri, message) == (IssueView {
                uri_a: Some(uri),
                ..plain
            })
            &&& IssueView::on_segment(severity, index, name, uri, message) == (IssueView {
                segment_index: index_number(index),
                rendition_a: Some(name),
                uri_a: Some(uri),
                ..plain
            })
            &&& IssueView::on_pair(index, (name, other), (uri, other_uri), message) == (IssueView {
                severity: Severity::Warn,
                segment_index: index_number(index),
                rendition_a: Some(name),
                rendition_b: Some(other),
                uri_a: Some(uri),
                uri_b: Some(other_uri),
                ..plain
            })
            &&& plain.noted(other) == (IssueView { uri_note: Some(other), ..plain })
        }),
{
}

} // verus!
