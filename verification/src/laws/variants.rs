//! Laws of the entries of the multivariant playlist, stated on their
//! attributes.
use crate::checks::multivariant::{
    bandwidth_rule, bandwidths_of, codecs_of, coded_like_uri, consistency_findings, group_findings,
    group_ids, group_rule, is_first_group, is_first_type, is_first_variant, like_variant,
    membership_findings, missing_names, reference_findings, reference_rule, same_variant, type_rule,
    uri_rule, variant_members, variant_rule, video_codec, video_codecs,
};
use crate::gather::{
    disagree, gathered, lemma_gathered_holds, lemma_gathered_origin, lemma_picked, picked,
};
use crate::laws::multivariant::{
    has_member, lemma_group_ids, lemma_group_names, lemma_resolves, lemma_type_names, resolves,
};
use crate::laws::tags::one_if;
use crate::laws::text::{law_pieces, law_trimmed};
use crate::text::{is_space, optional, trimmed};
use crate::types::{IssueView, MasterRendition, MediaRendition, Severity};
use vstd::prelude::*;

verus! {

/// Whether two entries pair the same URI with the same groups.
pub open spec fn pair_alike(v: MasterRendition, w: MasterRendition) -> bool {
    v.uri@ == w.uri@ && optional(v.audio_group) == optional(w.audio_group) && optional(
        v.subtitle_group,
    ) == optional(w.subtitle_group) && optional(v.closed_captions) == optional(w.closed_captions)
        && optional(v.video_group) == optional(w.video_group)
}

/// Whether two entries that pair like entry `i` differ in their codecs.
pub open spec fn codecs_differ(vs: Seq<MasterRendition>, i: int) -> bool {
    exists|j: int, k: int|
        0 <= j < vs.len() && 0 <= k < vs.len() && pair_alike(#[trigger] vs[j], vs[i])
            && pair_alike(#[trigger] vs[k], vs[i]) && optional(vs[j].codecs) != optional(
            vs[k].codecs,
        )
}

/// Whether two entries that pair like entry `i` differ in their bandwidth.
pub open spec fn bandwidths_differ(vs: Seq<MasterRendition>, i: int) -> bool {
    exists|j: int, k: int|
        0 <= j < vs.len() && 0 <= k < vs.len() && pair_alike(#[trigger] vs[j], vs[i])
            && pair_alike(#[trigger] vs[k], vs[i]) && vs[j].bandwidth != vs[k].bandwidth
}

/// The entries that pair like entry `i` differ exactly when two of them do.
proof fn lemma_variant_differs(vs: Seq<MasterRendition>, i: int)
    requires
        0 <= i < vs.len(),
    ensures
        disagree(codecs_of(vs, variant_members(vs, i))) == codecs_differ(vs, i),
        disagree(bandwidths_of(vs, variant_members(vs, i))) == bandwidths_differ(vs, i),
{
    let p = like_variant(vs, i);
    let m = variant_members(vs, i);
    lemma_picked(vs.len(), p);
    let codecs = codecs_of(vs, m);
    let rates = bandwidths_of(vs, m);
    if disagree(codecs) {
        let (x, y) = choose|x: int, y: int|
            0 <= x < codecs.len() && 0 <= y < codecs.len() && codecs[x] != codecs[y];
        assert(p(m[x]) && p(m[y]));
        assert(pair_alike(vs[m[x]], vs[i]) && pair_alike(vs[m[y]], vs[i]));
    }
    if disagree(rates) {
        let (x, y) = choose|x: int, y: int|
            0 <= x < rates.len() && 0 <= y < rates.len() && rates[x] != rates[y];
        assert(p(m[x]) && p(m[y]));
        assert(pair_alike(vs[m[x]], vs[i]) && pair_alike(vs[m[y]], vs[i]));
    }
    assert forall|j: int| 0 <= j < vs.len() && pair_alike(#[trigger] vs[j], vs[i]) implies exists|
        x: int,
    |
        0 <= x < m.len() && m[x] == j by {
        assert(p(j));
        assert(m.contains(j));
    }
    if codecs_differ(vs, i) {
        let (j, k) = choose|j: int, k: int|
            0 <= j < vs.len() && 0 <= k < vs.len() && pair_alike(#[trigger] vs[j], vs[i])
                && pair_alike(#[trigger] vs[k], vs[i]) && optional(vs[j].codecs) != optional(
                vs[k].codecs,
            );
        let x = choose|x: int| 0 <= x < m.len() && m[x] == j;
        let y = choose|y: int| 0 <= y < m.len() && m[y] == k;
        assert(codecs[x] != codecs[y]);
    }
    if bandwidths_differ(vs, i) {
        let (j, k) = choose|j: int, k: int|
            0 <= j < vs.len() && 0 <= k < vs.len() && pair_alike(#[trigger] vs[j], vs[i])
                && pair_alike(#[trigger] vs[k], vs[i]) && vs[j].bandwidth != vs[k].bandwidth;
        let x = choose|x: int| 0 <= x < m.len() && m[x] == j;
        let y = choose|y: int| 0 <= y < m.len() && m[y] == k;
        assert(rates[x] != rates[y]);
    }
}

/// The first of the entries that pair a URI with the same groups has one
/// warning if two of them differ in codecs and one if two of them differ in
/// bandwidth; the others have none.
pub proof fn law_variants_are_described_once(vs: Seq<MasterRendition>, i: int)
    requires
        0 <= i < vs.len(),
    ensures
        ({
            let found = variant_rule(vs)(i);
            let repeated = exists|j: int| 0 <= j < i && pair_alike(#[trigger] vs[j], vs[i]);
            &&& found.len() == if repeated {
                0
            } else {
                one_if(codecs_differ(vs, i)) + one_if(bandwidths_differ(vs, i))
            }
            &&& forall|k: int|
                0 <= k < found.len() ==> (#[trigger] found[k]).severity == Severity::Warn
                    && found[k].uri_a == Some(vs[i].uri@)
        }),
{
    lemma_variant_differs(vs, i);
    if !is_first_variant(vs, i) {
        let j = choose|j: int| 0 <= j < i && same_variant(#[trigger] vs[j], vs[i]);
        assert(pair_alike(vs[j], vs[i]));
    }
}

/// The video codec of a list of codecs is what stands before its first comma,
/// or the whole of it, without the white space round it.
pub proof fn law_video_codec_comes_first(first: Seq<char>, rest: Seq<char>)
    requires
        !first.contains(','),
    ensures
        video_codec(first.push(',') + rest) == trimmed(first),
        video_codec(first) == trimmed(first),
{
    law_pieces(first, ',', rest);
}

/// Whether `first` is the first item of a list of codecs.
pub open spec fn is_first_item(codecs: Seq<char>, first: Seq<char>) -> bool {
    !first.contains(',') && (codecs == first || exists|rest: Seq<char>|
        codecs == #[trigger] (first.push(',') + rest))
}

/// Whether two entries with the URI of entry `i` have other first items.
pub open spec fn items_differ(
    vs: Seq<MasterRendition>,
    items: Seq<Seq<char>>,
    uri: Seq<char>,
) -> bool {
    exists|j: int, k: int|
        0 <= j < vs.len() && 0 <= k < vs.len() && (#[trigger] vs[j]).uri@ == uri && (
        #[trigger] vs[k]).uri@ == uri && vs[j].codecs is Some && vs[k].codecs is Some && trimmed(
            items[j],
        ) != trimmed(items[k])
}

/// The video codecs of a URI differ exactly when the first items of two lists
/// of codecs do.
proof fn lemma_video_differs(vs: Seq<MasterRendition>, items: Seq<Seq<char>>, i: int)
    requires
        0 <= i < vs.len(),
        items.len() == vs.len(),
        forall|k: int|
            0 <= k < vs.len() && (#[trigger] vs[k]).codecs is Some ==> is_first_item(
                (vs[k].codecs->0)@,
                items[k],
            ),
    ensures
        disagree(video_codecs(vs, i)) == items_differ(vs, items, vs[i].uri@),
{
    let p = coded_like_uri(vs, i);
    let m = picked(vs.len(), p);
    lemma_picked(vs.len(), p);
    let codecs = video_codecs(vs, i);
    assert forall|k: int| 0 <= k < vs.len() && (#[trigger] vs[k]).codecs is Some implies video_codec(
        (vs[k].codecs->0)@,
    ) == trimmed(items[k]) by {
        let c = (vs[k].codecs->0)@;
        if c != items[k] {
            let rest = choose|rest: Seq<char>| c == #[trigger] (items[k].push(',') + rest);
            law_video_codec_comes_first(items[k], rest);
        } else {
            law_video_codec_comes_first(items[k], Seq::empty());
        }
    }
    if disagree(codecs) {
        let (x, y) = choose|x: int, y: int|
            0 <= x < codecs.len() && 0 <= y < codecs.len() && codecs[x] != codecs[y];
        assert(p(m[x]) && p(m[y]));
        assert(vs[m[x]].uri@ == vs[i].uri@ && vs[m[y]].uri@ == vs[i].uri@);
    }
    if items_differ(vs, items, vs[i].uri@) {
        let uri = vs[i].uri@;
        let (j, k) = choose|j: int, k: int|
            0 <= j < vs.len() && 0 <= k < vs.len() && (#[trigger] vs[j]).uri@ == uri && (
            #[trigger] vs[k]).uri@ == uri && vs[j].codecs is Some && vs[k].codecs is Some
                && trimmed(items[j]) != trimmed(items[k]);
        assert(p(j) && p(k));
        assert(m.contains(j) && m.contains(k));
        let x = choose|x: int| 0 <= x < m.len() && m[x] == j;
        let y = choose|y: int| 0 <= y < m.len() && m[y] == k;
        assert(codecs[x] != codecs[y]);
    }
}

/// The first of the entries with a URI has one error if two of them that give
/// codecs give another video codec, the first item of the list; the others have
/// none. All findings are the warnings and then these errors.
pub proof fn law_video_codecs_agree(
    vs: Seq<MasterRendition>,
    items: Seq<Seq<char>>,
    i: int,
)
    requires
        0 <= i < vs.len(),
        items.len() == vs.len(),
        forall|k: int|
            0 <= k < vs.len() && (#[trigger] vs[k]).codecs is Some ==> is_first_item(
                (vs[k].codecs->0)@,
                items[k],
            ),
    ensures
        ({
            let found = uri_rule(vs)(i);
            let repeated = exists|j: int| 0 <= j < i && (#[trigger] vs[j]).uri@ == vs[i].uri@;
            &&& consistency_findings(vs) == gathered(vs.len(), variant_rule(vs)) + gathered(
                vs.len(),
                uri_rule(vs),
            )
            &&& found.len() == one_if(!repeated && items_differ(vs, items, vs[i].uri@))
            &&& forall|k: int|
                0 <= k < found.len() ==> (#[trigger] found[k]).severity == Severity::Error
                    && found[k].uri_a == Some(vs[i].uri@)
        }),
{
    lemma_video_differs(vs, items, i);
}

/// Whether some finding is an error on the URI.
pub open spec fn has_error(found: Seq<IssueView>, uri: Seq<char>) -> bool {
    exists|k: int|
        0 <= k < found.len() && (#[trigger] found[k]).severity == Severity::Error && found[k].uri_a
            == Some(uri)
}

/// Two entries with one URI, whose lists of codecs begin with `x` and `y` and
/// then go on, have an error exactly when these differ, whatever else the
/// entries say.
pub proof fn law_two_video_codecs(
    v: MasterRendition,
    w: MasterRendition,
    x: Seq<char>,
    y: Seq<char>,
    s: Seq<char>,
    t: Seq<char>,
)
    requires
        v.uri@ == w.uri@,
        v.codecs is Some,
        w.codecs is Some,
        (v.codecs->0)@ == x.push(',') + s,
        (w.codecs->0)@ == y.push(',') + t,
        forall|k: int| 0 <= k < x.len() ==> #[trigger] x[k] != ',' && !is_space(x[k]),
        forall|k: int| 0 <= k < y.len() ==> #[trigger] y[k] != ',' && !is_space(y[k]),
    ensures
        has_error(consistency_findings(seq![v, w]), v.uri@) <==> x != y,
{
    let vs = seq![v, w];
    let items = seq![x, y];
    assert(!x.contains(',') && !y.contains(','));
    assert(is_first_item((v.codecs->0)@, x));
    assert(is_first_item((w.codecs->0)@, y));
    let none = Seq::<char>::empty();
    assert(none + x + none =~= x && none + y + none =~= y);
    law_trimmed(none, x, none);
    law_trimmed(none, y, none);
    law_video_codecs_agree(vs, items, 0);
    law_video_codecs_agree(vs, items, 1);
    let found = consistency_findings(vs);
    let rule = uri_rule(vs);
    let before = gathered(vs.len(), variant_rule(vs));
    let errors = gathered(vs.len(), rule);
    assert forall|k: int| 0 <= k < before.len() implies (#[trigger] before[k]).severity
        == Severity::Warn by {
        let at = lemma_gathered_origin(vs.len(), variant_rule(vs), k);
        law_variants_are_described_once(vs, at.0);
    }
    if x != y {
        assert(vs[0].uri@ == v.uri@ && vs[1].uri@ == v.uri@);
        assert(trimmed(items[0]) != trimmed(items[1]));
        assert(items_differ(vs, items, vs[0].uri@));
        assert(rule(0).len() == 1);
        lemma_gathered_holds(vs.len(), rule, 0, 0);
        let k = choose|k: int| 0 <= k < errors.len() && errors[k] == rule(0)[0];
        assert(found[before.len() + k] == rule(0)[0]);
    }
    if has_error(found, v.uri@) {
        let k = choose|k: int|
            0 <= k < found.len() && (#[trigger] found[k]).severity == Severity::Error
                && found[k].uri_a == Some(v.uri@);
        if k < before.len() {
            assert(before[k].severity == Severity::Warn);
        }
        let at = lemma_gathered_origin(vs.len(), rule, k - before.len());
        assert(items_differ(vs, items, vs[at.0].uri@));
    }
}

/// Each entry without a bandwidth has one error, and the others have none.
pub proof fn law_bandwidth_is_given(vs: Seq<MasterRendition>, i: int)
    requires
        0 <= i < vs.len(),
    ensures
        ({
            let found = bandwidth_rule(vs)(i);
            &&& found.len() == one_if(vs[i].bandwidth is None)
            &&& forall|k: int|
                0 <= k < found.len() ==> (#[trigger] found[k]).severity == Severity::Error
                    && found[k].uri_a == Some(vs[i].uri@)
        }),
{
}

/// An entry has one error for each group that it names and that no rendition
/// of that type is in; `NONE` names no group of closed captions.
pub proof fn law_named_groups_are_declared(
    rs: Seq<MediaRendition>,
    vs: Seq<MasterRendition>,
    i: int,
)
    requires
        0 <= i < vs.len(),
    ensures
        ({
            let v = vs[i];
            let found = reference_rule(rs, vs)(i);
            let captions = optional(v.closed_captions);
            &&& found.len() == one_if(!resolves(rs, "AUDIO"@, optional(v.audio_group))) + one_if(
                !resolves(rs, "SUBTITLES"@, optional(v.subtitle_group)),
            ) + one_if(captions != Some("NONE"@) && !resolves(rs, "CLOSED-CAPTIONS"@, captions))
                + one_if(!resolves(rs, "VIDEO"@, optional(v.video_group)))
            &&& forall|k: int|
                0 <= k < found.len() ==> (#[trigger] found[k]).severity == Severity::Error
                    && found[k].uri_a == Some(v.uri@)
        }),
{
    let v = vs[i];
    let captions = crate::checks::multivariant::caption_group(v);
    lemma_resolves(rs, v.uri@, "AUDIO"@, optional(v.audio_group));
    lemma_resolves(rs, v.uri@, "SUBTITLES"@, optional(v.subtitle_group));
    lemma_resolves(rs, v.uri@, "CLOSED-CAPTIONS"@, captions);
    lemma_resolves(rs, v.uri@, "VIDEO"@, optional(v.video_group));
    assert(reference_findings(rs, v.uri@, "AUDIO"@, optional(v.audio_group)).len() <= 1);
    assert(reference_findings(rs, v.uri@, "SUBTITLES"@, optional(v.subtitle_group)).len() <= 1);
    assert(reference_findings(rs, v.uri@, "CLOSED-CAPTIONS"@, captions).len() <= 1);
    assert(reference_findings(rs, v.uri@, "VIDEO"@, optional(v.video_group)).len() <= 1);
}

/// Whether a group has no member of a name that another rendition of the type
/// has.
pub open spec fn is_incomplete(
    rs: Seq<MediaRendition>,
    media_type: Seq<char>,
    group: Seq<char>,
) -> bool {
    exists|k: int|
        0 <= k < rs.len() && (#[trigger] rs[k]).media_type@ == media_type && !has_member(
            rs,
            media_type,
            group,
            rs[k].name@,
        )
}

/// A group has an error exactly when it is incomplete.
proof fn lemma_incomplete(rs: Seq<MediaRendition>, media_type: Seq<char>, group: Seq<char>)
    ensures
        group_findings(rs, media_type, group).len() == one_if(is_incomplete(rs, media_type, group)),
{
    let missing = missing_names(rs, media_type, group);
    assert(missing.finite());
    if missing.len() > 0 {
        let x = missing.choose();
        assert(missing.contains(x));
        lemma_type_names(rs, media_type, x);
        lemma_group_names(rs, media_type, group, x);
        let k = choose|k: int|
            0 <= k < rs.len() && (#[trigger] rs[k]).media_type@ == media_type && rs[k].name@ == x;
        assert(!has_member(rs, media_type, group, rs[k].name@));
    }
    if is_incomplete(rs, media_type, group) {
        let k = choose|k: int|
            0 <= k < rs.len() && (#[trigger] rs[k]).media_type@ == media_type && !has_member(
                rs,
                media_type,
                group,
                rs[k].name@,
            );
        lemma_type_names(rs, media_type, rs[k].name@);
        lemma_group_names(rs, media_type, group, rs[k].name@);
        assert(missing.contains(rs[k].name@));
        if missing.len() == 0 {
            missing.lemma_len0_is_empty();
        }
    }
}

/// Type by type, in the order in which the types come, and group by group, each
/// group that is incomplete has one error; the other renditions of a group or
/// of a type add none.
pub proof fn law_groups_are_complete(rs: Seq<MediaRendition>, i: int, j: int)
    requires
        0 <= i < rs.len(),
        0 <= j < rs.len(),
    ensures
        ({
            let found = group_rule(rs, i)(j);
            let same_type = exists|k: int| 0 <= k < i && (#[trigger] rs[k]).media_type@
                == rs[i].media_type@;
            let same_group = exists|k: int|
                0 <= k < j && (#[trigger] rs[k]).media_type@ == rs[j].media_type@
                    && rs[k].group_id@ == rs[j].group_id@;
            &&& membership_findings(rs) == gathered(rs.len(), type_rule(rs))
            &&& same_type ==> type_rule(rs)(i).len() == 0
            &&& !same_type ==> type_rule(rs)(i) == gathered(rs.len(), group_rule(rs, i))
            &&& found.len() == one_if(
                rs[j].media_type@ == rs[i].media_type@ && !same_group && is_incomplete(
                    rs,
                    rs[j].media_type@,
                    rs[j].group_id@,
                ),
            )
            &&& forall|k: int|
                0 <= k < found.len() ==> (#[trigger] found[k]).severity == Severity::Error
        }),
{
    lemma_incomplete(rs, rs[j].media_type@, rs[j].group_id@);
    if !is_first_type(rs, i) {
        let k = choose|k: int| 0 <= k < i && (#[trigger] rs[k]).media_type@ == rs[i].media_type@;
        assert(rs[k].media_type@ == rs[i].media_type@);
    }
    if !is_first_group(rs, j) {
        let k = choose|k: int|
            0 <= k < j && (#[trigger] rs[k]).media_type@ == rs[j].media_type@ && rs[k].group_id@
                == rs[j].group_id@;
        assert(rs[k].group_id@ == rs[j].group_id@);
    }
}

/// The names that a group lacks are those that other renditions of its type
/// have and none of its members has; the groups of a type are those that its
/// renditions are in.
pub proof fn law_missing_members(
    rs: Seq<MediaRendition>,
    media_type: Seq<char>,
    group: Seq<char>,
    name: Seq<char>,
)
    ensures
        missing_names(rs, media_type, group).contains(name) <==> !has_member(
            rs,
            media_type,
            group,
            name,
        ) && exists|k: int|
            0 <= k < rs.len() && (#[trigger] rs[k]).media_type@ == media_type && rs[k].name@
                == name,
        group_ids(rs, media_type).contains(group) <==> exists|k: int|
            0 <= k < rs.len() && (#[trigger] rs[k]).media_type@ == media_type && rs[k].group_id@
                == group,
        missing_names(rs, media_type, group).finite(),
        group_ids(rs, media_type).finite(),
{
    lemma_type_names(rs, media_type, name);
    lemma_group_names(rs, media_type, group, name);
    lemma_group_ids(rs, media_type, group);
}

} // verus!
