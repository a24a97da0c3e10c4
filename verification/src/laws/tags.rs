//! Laws of the tags of a playlist: the first line, the tags that may stand
//! once, the versions that features need, and the media sequence tag.
use crate::checks::headers::{
    duplicates_rule, header_rule, repeated_rule, singleton_tags, structure_findings, tag_count,
};
use crate::checks::playlists::{
    announced_before, endlist_rule, live_rule, segment_line, segment_uri_at, sequence_line,
    sequence_rule, sequence_tag_at,
};
use crate::checks::versions::{fractional_at, version_rule};
use crate::double::Real;
use crate::gather::{gathered, lemma_earliest, lemma_gathered_none, lemma_gathered_origin};
use crate::laws::text::law_first_line;
use crate::text::{has_prefix, has_text, lines_of, optional, trimmed};
use crate::types::{CheckId, IssueView, MasterPlaylist, MediaPlaylist, Severity};
use vstd::arithmetic::power2::pow2;
use vstd::prelude::*;

verus! {

/// One where something holds, nothing where it does not.
pub open spec fn one_if(b: bool) -> nat {
    if b {
        1
    } else {
        0
    }
}

/// Whether two lines at different positions are the given tag.
pub open spec fn stands_twice(all: Seq<Seq<char>>, tag: Seq<char>) -> bool {
    exists|i: int, j: int|
        0 <= i < j < all.len() && has_prefix(trimmed(#[trigger] all[i]), tag) && has_prefix(
            trimmed(#[trigger] all[j]),
            tag,
        )
}

/// Whether some line is the given tag.
pub open spec fn stands(all: Seq<Seq<char>>, tag: Seq<char>) -> bool {
    exists|i: int| 0 <= i < all.len() && has_prefix(trimmed(#[trigger] all[i]), tag)
}

/// A tag is counted more than once exactly when it stands twice.
proof fn lemma_counted_twice(all: Seq<Seq<char>>, tag: Seq<char>)
    ensures
        tag_count(all, tag) >= 1 <==> stands(all, tag),
        tag_count(all, tag) >= 2 <==> stands_twice(all, tag),
    decreases all.len(),
{
    if all.len() > 0 {
        let rest = all.drop_last();
        let last = all.len() - 1;
        lemma_counted_twice(rest, tag);
        assert(all[last] == all.last());
        assert(forall|i: int| 0 <= i < rest.len() ==> rest[i] == all[i]);
        if stands(rest, tag) {
            let i = choose|i: int|
                0 <= i < rest.len() && has_prefix(trimmed(#[trigger] rest[i]), tag);
            assert(has_prefix(trimmed(all[i]), tag));
            if has_prefix(trimmed(all[last]), tag) {
                assert(stands_twice(all, tag));
            }
        }
        if stands(all, tag) {
            let i = choose|i: int|
                0 <= i < all.len() && has_prefix(trimmed(#[trigger] all[i]), tag);
            if i < last {
                assert(has_prefix(trimmed(rest[i]), tag));
            }
        }
        if stands_twice(rest, tag) {
            let (i, j) = choose|i: int, j: int|
                0 <= i < j < rest.len() && has_prefix(trimmed(#[trigger] rest[i]), tag)
                    && has_prefix(trimmed(#[trigger] rest[j]), tag);
            assert(has_prefix(trimmed(all[i]), tag) && has_prefix(trimmed(all[j]), tag));
        }
        if stands_twice(all, tag) {
            let (i, j) = choose|i: int, j: int|
                0 <= i < j < all.len() && has_prefix(trimmed(#[trigger] all[i]), tag)
                    && has_prefix(trimmed(#[trigger] all[j]), tag);
            assert(has_prefix(trimmed(rest[i]), tag));
            if j < last {
                assert(has_prefix(trimmed(rest[j]), tag));
            }
        }
    }
}

/// Lines are counted one by one: a line that begins with the tag, but for
/// white space, counts one, and another line counts nothing.
pub proof fn law_tags_are_counted(
    a: Seq<Seq<char>>,
    b: Seq<Seq<char>>,
    line: Seq<char>,
    tag: Seq<char>,
)
    ensures
        tag_count(a + b, tag) == tag_count(a, tag) + tag_count(b, tag),
        tag_count(seq![line], tag) == one_if(has_prefix(trimmed(line), tag)),
    decreases b.len(),
{
    assert(seq![line].drop_last() =~= Seq::<Seq<char>>::empty());
    assert(tag_count(Seq::<Seq<char>>::empty(), tag) == 0);
    if b.len() == 0 {
        assert(a + b =~= a);
    } else {
        assert((a + b).drop_last() =~= a + b.drop_last());
        law_tags_are_counted(a, b.drop_last(), line, tag);
    }
}

/// One of the tags that may stand once has a finding exactly when it stands
/// twice.
proof fn lemma_one_tag(pl: MediaPlaylist, t: int)
    requires
        0 <= t < 10,
    ensures
        ({
            let found = repeated_rule(pl)(t);
            &&& found.len() == one_if(
                stands_twice(lines_of(pl.raw_content@), singleton_tags()[t]@),
            )
            &&& forall|k: int|
                0 <= k < found.len() ==> (#[trigger] found[k]).severity == Severity::Error
                    && found[k].rendition_a == Some(pl.name@)
        }),
{
    lemma_counted_twice(lines_of(pl.raw_content@), singleton_tags()[t]@);
}

/// Ten positions give what each of them gives.
proof fn lemma_ten(f: spec_fn(int) -> Seq<IssueView>)
    ensures
        gathered(10, f).len() == f(0).len() + f(1).len() + f(2).len() + f(3).len() + f(4).len()
            + f(5).len() + f(6).len() + f(7).len() + f(8).len() + f(9).len(),
{
    assert(gathered(0, f).len() == 0);
    assert(gathered(1, f).len() == f(0).len());
    assert(gathered(2, f).len() == gathered(1, f).len() + f(1).len());
    assert(gathered(3, f).len() == gathered(2, f).len() + f(2).len());
    assert(gathered(4, f).len() == gathered(3, f).len() + f(3).len());
    assert(gathered(5, f).len() == gathered(4, f).len() + f(4).len());
    assert(gathered(6, f).len() == gathered(5, f).len() + f(5).len());
    assert(gathered(7, f).len() == gathered(6, f).len() + f(6).len());
    assert(gathered(8, f).len() == gathered(7, f).len() + f(7).len());
    assert(gathered(9, f).len() == gathered(8, f).len() + f(8).len());
}

/// A playlist has one error for each of the ten tags that may stand once and
/// stand in two lines, and no other findings.
pub proof fn law_singletons_stand_once(playlists: Seq<MediaPlaylist>, i: int)
    requires
        0 <= i < playlists.len(),
    ensures
        ({
            let all = lines_of(playlists[i].raw_content@);
            let found = duplicates_rule(playlists)(i);
            &&& found.len() == one_if(stands_twice(all, "#EXT-X-VERSION:"@)) + one_if(
                stands_twice(all, "#EXT-X-INDEPENDENT-SEGMENTS"@),
            ) + one_if(stands_twice(all, "#EXT-X-START:"@)) + one_if(
                stands_twice(all, "#EXT-X-TARGETDURATION:"@),
            ) + one_if(stands_twice(all, "#EXT-X-MEDIA-SEQUENCE:"@)) + one_if(
                stands_twice(all, "#EXT-X-DISCONTINUITY-SEQUENCE:"@),
            ) + one_if(stands_twice(all, "#EXT-X-PLAYLIST-TYPE:"@)) + one_if(
                stands_twice(all, "#EXT-X-I-FRAMES-ONLY"@),
            ) + one_if(stands_twice(all, "#EXT-X-PART-INF:"@)) + one_if(
                stands_twice(all, "#EXT-X-SERVER-CONTROL:"@),
            )
            &&& forall|k: int|
                0 <= k < found.len() ==> (#[trigger] found[k]).severity == Severity::Error
                    && found[k].rendition_a == Some(playlists[i].name@)
        }),
{
    let pl = playlists[i];
    let rule = repeated_rule(pl);
    lemma_ten(rule);
    lemma_one_tag(pl, 0);
    lemma_one_tag(pl, 1);
    lemma_one_tag(pl, 2);
    lemma_one_tag(pl, 3);
    lemma_one_tag(pl, 4);
    lemma_one_tag(pl, 5);
    lemma_one_tag(pl, 6);
    lemma_one_tag(pl, 7);
    lemma_one_tag(pl, 8);
    lemma_one_tag(pl, 9);
    let found = duplicates_rule(playlists)(i);
    assert(found == gathered(10, rule));
    assert forall|k: int| 0 <= k < found.len() implies (#[trigger] found[k]).severity
        == Severity::Error && found[k].rendition_a == Some(playlists[i].name@) by {
        let at = lemma_gathered_origin(10, rule, k);
        lemma_one_tag(pl, at.0);
    }
}

/// Two lines that are the same tag are an error, for each of the ten tags that
/// may stand once; a playlist without such lines has no findings.
pub proof fn law_repeated_singletons_are_found(playlists: Seq<MediaPlaylist>)
    ensures
        gathered(playlists.len(), duplicates_rule(playlists)).len() == 0 <==> forall|i: int|
            0 <= i < playlists.len() ==> {
                let all = lines_of((#[trigger] playlists[i]).raw_content@);
                &&& !stands_twice(all, "#EXT-X-VERSION:"@)
                &&& !stands_twice(all, "#EXT-X-INDEPENDENT-SEGMENTS"@)
                &&& !stands_twice(all, "#EXT-X-START:"@)
                &&& !stands_twice(all, "#EXT-X-TARGETDURATION:"@)
                &&& !stands_twice(all, "#EXT-X-MEDIA-SEQUENCE:"@)
                &&& !stands_twice(all, "#EXT-X-DISCONTINUITY-SEQUENCE:"@)
                &&& !stands_twice(all, "#EXT-X-PLAYLIST-TYPE:"@)
                &&& !stands_twice(all, "#EXT-X-I-FRAMES-ONLY"@)
                &&& !stands_twice(all, "#EXT-X-PART-INF:"@)
                &&& !stands_twice(all, "#EXT-X-SERVER-CONTROL:"@)
            },
{
    let rule = duplicates_rule(playlists);
    lemma_gathered_none(playlists.len(), rule);
    if gathered(playlists.len(), rule).len() == 0 {
        assert forall|i: int| 0 <= i < playlists.len() implies {
            let all = lines_of((#[trigger] playlists[i]).raw_content@);
            &&& !stands_twice(all, "#EXT-X-VERSION:"@)
            &&& !stands_twice(all, "#EXT-X-INDEPENDENT-SEGMENTS"@)
            &&& !stands_twice(all, "#EXT-X-START:"@)
            &&& !stands_twice(all, "#EXT-X-TARGETDURATION:"@)
            &&& !stands_twice(all, "#EXT-X-MEDIA-SEQUENCE:"@)
            &&& !stands_twice(all, "#EXT-X-DISCONTINUITY-SEQUENCE:"@)
            &&& !stands_twice(all, "#EXT-X-PLAYLIST-TYPE:"@)
            &&& !stands_twice(all, "#EXT-X-I-FRAMES-ONLY"@)
            &&& !stands_twice(all, "#EXT-X-PART-INF:"@)
            &&& !stands_twice(all, "#EXT-X-SERVER-CONTROL:"@)
        } by {
            assert(rule(i).len() == 0);
            law_singletons_stand_once(playlists, i);
        }
    } else {
        let i = choose|i: int| 0 <= i < playlists.len() && (#[trigger] rule(i)).len() > 0;
        law_singletons_stand_once(playlists, i);
        assert(playlists[i] == playlists[i]);
    }
}

/// A playlist has one error exactly when its first line, but for white space,
/// is not `#EXTM3U`; a text without lines has an empty first line.
pub proof fn law_header_comes_first(playlists: Seq<MediaPlaylist>, i: int)
    requires
        0 <= i < playlists.len(),
    ensures
        ({
            let all = lines_of(playlists[i].raw_content@);
            let found = header_rule(playlists)(i);
            &&& found.len() == one_if(!(all.len() > 0 && trimmed(all[0]) == "#EXTM3U"@))
            &&& forall|k: int|
                0 <= k < found.len() ==> (#[trigger] found[k]).severity == Severity::Error
                    && found[k].rendition_a == Some(playlists[i].name@)
        }),
{
    reveal_strlit("#EXTM3U");
    let all = lines_of(playlists[i].raw_content@);
    if all.len() == 0 {
        assert(trimmed(Seq::<char>::empty()) == Seq::<char>::empty());
    }
}

/// A text that begins with the line `#EXTM3U` has no finding, whatever follows.
pub proof fn law_header_is_enough(playlists: Seq<MediaPlaylist>, i: int, rest: Seq<char>)
    requires
        0 <= i < playlists.len(),
        playlists[i].raw_content@ == "#EXTM3U"@.push('\n') + rest || playlists[i].raw_content@
            == "#EXTM3U"@,
    ensures
        header_rule(playlists)(i).len() == 0,
{
    let h = "#EXTM3U"@;
    reveal_strlit("#EXTM3U");
    assert(h[0] == '#' && h[6] == 'U' && h.len() == 7);
    assert(!h.contains('\n') && !h.contains('\r'));
    law_first_line(h, rest);
    let none = Seq::<char>::empty();
    assert(none + h + none =~= h);
    crate::laws::text::law_trimmed(none, h, none);
}

/// The multivariant playlist has one error of the header check exactly when
/// its first line is not `#EXTM3U`, one error for each of the three tags that
/// may stand once and stand twice, and one error of the version check exactly
/// when it uses EXT-X-DEFINE below version 8.
pub proof fn law_structure_is_sound(master: MasterPlaylist)
    ensures
        ({
            let all = lines_of(master.raw_content@);
            let found = structure_findings(master);
            let header = !(all.len() > 0 && trimmed(all[0]) == "#EXTM3U"@);
            let tags = one_if(stands_twice(all, "#EXT-X-VERSION:"@)) + one_if(
                stands_twice(all, "#EXT-X-INDEPENDENT-SEGMENTS"@),
            ) + one_if(stands_twice(all, "#EXT-X-START:"@));
            let define = master.version < 8 && has_text(master.raw_content@, "#EXT-X-DEFINE:"@);
            &&& found.len() == one_if(header) + tags + one_if(define)
            &&& forall|k: int|
                0 <= k < found.len() ==> (#[trigger] found[k]).severity == Severity::Error
                    && found[k].uri_a == Some(master.url@) && found[k].check_id == if k < one_if(
                    header,
                ) {
                    CheckId::ExtM3uHeader
                } else if k < one_if(header) + tags {
                    CheckId::SingletonTags
                } else {
                    CheckId::VersionCompatibility
                }
        }),
{
    reveal_strlit("#EXTM3U");
    let all = lines_of(master.raw_content@);
    if all.len() == 0 {
        assert(trimmed(Seq::<char>::empty()) == Seq::<char>::empty());
    }
    lemma_counted_twice(all, "#EXT-X-VERSION:"@);
    lemma_counted_twice(all, "#EXT-X-INDEPENDENT-SEGMENTS"@);
    lemma_counted_twice(all, "#EXT-X-START:"@);
}

/// Whether a duration is not a whole number of seconds.
pub open spec fn is_fractional(x: Real) -> bool {
    match x {
        Real::Finite(_, size) => !exists|n: nat| size == #[trigger] (n * pow2(1074)),
        _ => true,
    }
}

/// A number has a fraction exactly when it is no multiple of a second.
proof fn lemma_fraction(x: Real)
    ensures
        crate::double::has_fraction(x) <==> is_fractional(x),
{
    if let Real::Finite(_, size) = x {
        let p = pow2(1074);
        vstd::arithmetic::power2::lemma_pow2_pos(1074);
        vstd::arithmetic::div_mod::lemma_fundamental_div_mod(size as int, p as int);
        if size % p == 0 {
            let n = (size / p) as nat;
            assert(p * n == n * p) by (nonlinear_arith);
            assert(size == n * p);
        }
        if exists|n: nat| size == #[trigger] (n * p) {
            let n = choose|n: nat| size == #[trigger] (n * p);
            vstd::arithmetic::div_mod::lemma_mod_multiples_basic(n as int, p as int);
        }
    }
}

/// A playlist has one error for each feature that it uses below the version
/// that has it: a key with an initialisation vector below 2, a duration that is
/// not a whole number below 3, byte ranges below 4, a map below 6, or below 5
/// in an I-frames-only playlist, and skipped segments below 9.
pub proof fn law_features_need_versions(playlists: Seq<MediaPlaylist>, i: int)
    requires
        0 <= i < playlists.len(),
    ensures
        ({
            let pl = playlists[i];
            let text = pl.raw_content@;
            let v = pl.version;
            let found = version_rule(playlists)(i);
            &&& found.len() == one_if(
                v < 2 && has_text(text, "#EXT-X-KEY:"@) && has_text(text, "IV="@),
            ) + one_if(
                v < 3 && exists|k: int|
                    0 <= k < pl.segments@.len() && is_fractional(
                        (#[trigger] pl.segments@[k]).duration@,
                    ),
            ) + one_if(v < 4 && has_text(text, "#EXT-X-BYTERANGE:"@)) + one_if(
                has_text(text, "#EXT-X-MAP:"@) && (v < 5 || v < 6 && !has_text(
                    text,
                    "#EXT-X-I-FRAMES-ONLY"@,
                )),
            ) + one_if(v < 9 && has_text(text, "#EXT-X-SKIP:"@))
            &&& forall|k: int|
                0 <= k < found.len() ==> (#[trigger] found[k]).severity == Severity::Error
                    && found[k].rendition_a == Some(pl.name@)
        }),
{
    let s = playlists[i].segments@;
    let p = fractional_at(s);
    lemma_earliest(s.len(), p);
    assert forall|k: int| 0 <= k < s.len() implies #[trigger] p(k) == is_fractional(
        s[k].duration@,
    ) by {
        lemma_fraction(s[k].duration@);
    }
    if crate::checks::versions::first_fractional(s) is Some {
        let k = crate::checks::versions::first_fractional(s)->0;
        assert(is_fractional(s[k].duration@));
    } else {
        assert forall|k: int| 0 <= k < s.len() implies !is_fractional(
            (#[trigger] s[k]).duration@,
        ) by {
            assert(!p(k));
        }
    }
}

/// A playlist has one error on its window exactly when it is without an end
/// and has fewer than three segments, and one error on its end exactly when it
/// declares the type `VOD` and is without an end.
pub proof fn law_live_and_finished(playlists: Seq<MediaPlaylist>, i: int)
    requires
        0 <= i < playlists.len(),
    ensures
        ({
            let pl = playlists[i];
            let window = live_rule(playlists)(i);
            let end = endlist_rule(playlists)(i);
            &&& window.len() == one_if(
                !pl.has_endlist && (pl.segments@.len() == 0 || pl.segments@.len() == 1
                    || pl.segments@.len() == 2),
            )
            &&& end.len() == one_if(!pl.has_endlist && optional(pl.playlist_type) == Some("VOD"@))
            &&& forall|k: int|
                0 <= k < window.len() ==> (#[trigger] window[k]).severity == Severity::Error
                    && window[k].rendition_a == Some(pl.name@)
            &&& forall|k: int|
                0 <= k < end.len() ==> (#[trigger] end[k]).severity == Severity::Error
                    && end[k].rendition_a == Some(pl.name@)
        }),
{
}

/// Whether line `i` holds the URI of a segment: it is neither empty nor a tag
/// or a comment, and an EXTINF tag stands somewhere before it.
pub open spec fn holds_segment(all: Seq<Seq<char>>, i: int) -> bool {
    &&& trimmed(all[i]).len() > 0
    &&& !has_prefix(trimmed(all[i]), seq!['#'])
    &&& exists|j: int| 0 <= j < i && has_prefix(trimmed(#[trigger] all[j]), "#EXTINF:"@)
}

/// Whether the first media sequence tag stands behind a segment: some segment
/// has no such tag before it, but one after it.
pub open spec fn tag_is_late(all: Seq<Seq<char>>) -> bool {
    exists|s: int, t: int|
        0 <= s < t < all.len() && #[trigger] holds_segment(all, s) && has_prefix(
            trimmed(#[trigger] all[t]),
            "#EXT-X-MEDIA-SEQUENCE:"@,
        ) && forall|k: int|
            0 <= k < s ==> !has_prefix(trimmed(#[trigger] all[k]), "#EXT-X-MEDIA-SEQUENCE:"@)
}

/// A text that begins with `#` does so by that character.
proof fn lemma_hash(s: Seq<char>)
    ensures
        s.len() > 0 ==> (has_prefix(s, seq!['#']) <==> s[0] == '#'),
{
    if s.len() > 0 {
        assert(s.take(1) =~= seq![s[0]]);
        if has_prefix(s, seq!['#']) {
            assert(s.take(1)[0] == '#');
        }
    }
}

/// The lines of segment URIs are those that hold a segment.
proof fn lemma_segment_lines(all: Seq<Seq<char>>)
    ensures
        forall|i: int|
            0 <= i < all.len() ==> #[trigger] segment_uri_at(all)(i) == holds_segment(all, i),
{
    let n = all.len();
    assert forall|i: int| 0 <= i < n implies #[trigger] segment_uri_at(all)(i) == holds_segment(
        all,
        i,
    ) by {
        lemma_hash(trimmed(all[i]));
        if announced_before(all, i) {
            let j = choose|j: int|
                0 <= j < i && crate::checks::playlists::is_tag(#[trigger] all[j], "#EXTINF:"@);
            assert(has_prefix(trimmed(all[j]), "#EXTINF:"@));
        }
        if holds_segment(all, i) {
            let j = choose|j: int|
                0 <= j < i && has_prefix(trimmed(#[trigger] all[j]), "#EXTINF:"@);
            assert(crate::checks::playlists::is_tag(all[j], "#EXTINF:"@));
        }
    }
}

/// The first media sequence tag is behind the first segment exactly when it is
/// late.
proof fn lemma_late(all: Seq<Seq<char>>)
    ensures
        (sequence_line(all) is Some && segment_line(all) is Some && sequence_line(all)->0
            > segment_line(all)->0) <==> tag_is_late(all),
{
    let n = all.len();
    let tag = "#EXT-X-MEDIA-SEQUENCE:"@;
    reveal_strlit("#EXT-X-MEDIA-SEQUENCE:");
    lemma_earliest(n, sequence_tag_at(all));
    lemma_earliest(n, segment_uri_at(all));
    lemma_segment_lines(all);
    if sequence_line(all) is Some && segment_line(all) is Some && sequence_line(all)->0
        > segment_line(all)->0 {
        let s = segment_line(all)->0;
        let t = sequence_line(all)->0;
        assert(segment_uri_at(all)(s));
        assert(has_prefix(trimmed(all[t]), tag));
        assert forall|k: int| 0 <= k < s implies !has_prefix(trimmed(#[trigger] all[k]), tag) by {
            assert(!sequence_tag_at(all)(k));
        }
        assert(holds_segment(all, s));
    }
    if tag_is_late(all) {
        let (s, t) = choose|s: int, t: int|
            0 <= s < t < all.len() && #[trigger] holds_segment(all, s) && has_prefix(
                trimmed(#[trigger] all[t]),
                tag,
            ) && forall|k: int| 0 <= k < s ==> !has_prefix(trimmed(#[trigger] all[k]), tag);
        assert(segment_uri_at(all)(s));
        assert(sequence_tag_at(all)(t));
        let first = sequence_line(all)->0;
        assert(sequence_tag_at(all)(first));
        assert(has_prefix(trimmed(all[first]), tag));
        if first == s {
            let l = trimmed(all[s]);
            assert(l.take(tag.len() as int)[0] == l[0]);
            lemma_hash(l);
        }
    }
}

/// A playlist with segments has one warning exactly when it is without an end,
/// has several segments and does not hold the media sequence tag, and one error
/// exactly when the tag comes after the first segment.
pub proof fn law_sequence_tag_comes_first(playlists: Seq<MediaPlaylist>, i: int)
    requires
        0 <= i < playlists.len(),
    ensures
        ({
            let pl = playlists[i];
            let found = sequence_rule(playlists)(i);
            let absent = !pl.has_endlist && pl.segments@.len() >= 2 && !has_text(
                pl.raw_content@,
                "#EXT-X-MEDIA-SEQUENCE:"@,
            );
            let late = pl.segments@.len() > 0 && tag_is_late(lines_of(pl.raw_content@));
            &&& found.len() == one_if(absent) + one_if(late)
            &&& absent ==> found[0].severity == Severity::Warn && found[0].rendition_a is None
            &&& late ==> found[found.len() - 1].severity == Severity::Error && found[found.len()
                - 1].rendition_a == Some(pl.name@)
        }),
{
    lemma_late(lines_of(playlists[i].raw_content@));
}

/// The line of the media sequence tag is the first that begins with it, and
/// that of the first segment the first that holds one.
pub proof fn law_first_lines(all: Seq<Seq<char>>, i: int)
    requires
        0 <= i < all.len(),
    ensures
        sequence_line(all) == Some(i) <==> has_prefix(
            trimmed(all[i]),
            "#EXT-X-MEDIA-SEQUENCE:"@,
        ) && forall|k: int|
            0 <= k < i ==> !has_prefix(trimmed(#[trigger] all[k]), "#EXT-X-MEDIA-SEQUENCE:"@),
        segment_line(all) == Some(i) <==> holds_segment(all, i) && forall|k: int|
            0 <= k < i ==> !(#[trigger] holds_segment(all, k)),
{
    let n = all.len();
    let p = sequence_tag_at(all);
    let q = segment_uri_at(all);
    lemma_earliest(n, p);
    lemma_earliest(n, q);
    lemma_segment_lines(all);
    if sequence_line(all) == Some(i) {
        assert forall|k: int| 0 <= k < i implies !has_prefix(
            trimmed(#[trigger] all[k]),
            "#EXT-X-MEDIA-SEQUENCE:"@,
        ) by {
            assert(!p(k));
        }
    }
    if segment_line(all) == Some(i) {
        assert forall|k: int| 0 <= k < i implies !(#[trigger] holds_segment(all, k)) by {
            assert(!q(k));
        }
        assert(q(i));
    }
    if has_prefix(trimmed(all[i]), "#EXT-X-MEDIA-SEQUENCE:"@) && forall|k: int|
        0 <= k < i ==> !has_prefix(trimmed(#[trigger] all[k]), "#EXT-X-MEDIA-SEQUENCE:"@) {
        assert(p(i));
        assert forall|k: int| 0 <= k < i implies !#[trigger] p(k) by {
            assert(!has_prefix(trimmed(all[k]), "#EXT-X-MEDIA-SEQUENCE:"@));
        }
        crate::gather::lemma_earliest_is(n, p, i);
    }
    if holds_segment(all, i) && forall|k: int| 0 <= k < i ==> !(#[trigger] holds_segment(all, k)) {
        assert(q(i));
        assert forall|k: int| 0 <= k < i implies !#[trigger] q(k) by {
            assert(!holds_segment(all, k));
        }
        crate::gather::lemma_earliest_is(n, q, i);
    }
}

} // verus!
