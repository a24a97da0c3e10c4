//! Laws of the checks on the multivariant playlist.
use crate::checks::headers::structure_findings;
use crate::checks::multivariant::{
    bandwidth_rule, bandwidths_of, caption_group, codecs_of, coded_like_uri, consistency_findings,
    entry_findings, group_ids, group_names, group_rule, in_group, is_first_group, is_first_type,
    is_first_uri, like_variant, membership_findings, missing_names, of_type, reference_findings,
    same_variant, type_names, type_rule, uri_rule, variant_members, variant_rule, video_codec,
    video_codecs,
};
use crate::gather::{
    gathered, lemma_disagree, lemma_gathered_empty, lemma_gathered_holds, lemma_gathered_origin,
    lemma_picked, picked,
};
use crate::text::optional;
use crate::types::{CheckId, MasterPlaylist, MasterRendition, MediaRendition, Severity};
use vstd::prelude::*;

verus! {

/// Entries that pair a URI with other rendition groups are other variant
/// streams: where no two entries agree on the URI and all the groups, neither
/// codecs nor bandwidths are compared.
pub proof fn law_variants_are_uri_and_groups(vs: Seq<MasterRendition>)
    requires
        forall|i: int, j: int|
            0 <= i < j < vs.len() ==> !same_variant(#[trigger] vs[i], #[trigger] vs[j]),
    ensures
        gathered(vs.len(), variant_rule(vs)).len() == 0,
{
    assert forall|i: int| 0 <= i < vs.len() implies (#[trigger] variant_rule(vs)(i)).len()
        == 0 by {
        let p = like_variant(vs, i);
        let m = variant_members(vs, i);
        lemma_picked(vs.len(), p);
        assert forall|k: int| 0 <= k < m.len() implies m[k] == i by {
            assert(p(m[k]));
            if m[k] < i {
                assert(!same_variant(vs[m[k]], vs[i]));
            } else if m[k] > i {
                assert(!same_variant(vs[i], vs[m[k]]));
            }
        }
        lemma_disagree(codecs_of(vs, m));
        lemma_disagree(bandwidths_of(vs, m));
    }
    lemma_gathered_empty(vs.len(), variant_rule(vs));
}

/// Entries of one variant stream that differ in codecs or bandwidth are worth
/// a warning; entries of one URI that differ in the video codec are an error.
pub proof fn law_only_video_codecs_fail(vs: Seq<MasterRendition>)
    ensures
        forall|k: int|
            0 <= k < gathered(vs.len(), variant_rule(vs)).len() ==> (#[trigger] gathered(
                vs.len(),
                variant_rule(vs),
            )[k]).severity == Severity::Warn,
        forall|k: int|
            0 <= k < gathered(vs.len(), uri_rule(vs)).len() ==> (#[trigger] gathered(
                vs.len(),
                uri_rule(vs),
            )[k]).severity == Severity::Error,
        consistency_findings(vs) == gathered(vs.len(), variant_rule(vs)) + gathered(
            vs.len(),
            uri_rule(vs),
        ),
{
    let n = vs.len();
    assert forall|k: int| 0 <= k < gathered(n, variant_rule(vs)).len() implies (
    #[trigger] gathered(n, variant_rule(vs))[k]).severity == Severity::Warn by {
        let at = lemma_gathered_origin(n, variant_rule(vs), k);
        assert(variant_rule(vs)(at.0)[at.1].severity == Severity::Warn);
    }
    assert forall|k: int| 0 <= k < gathered(n, uri_rule(vs)).len() implies (#[trigger] gathered(
        n,
        uri_rule(vs),
    )[k]).severity == Severity::Error by {
        let at = lemma_gathered_origin(n, uri_rule(vs), k);
        assert(uri_rule(vs)(at.0)[at.1].severity == Severity::Error);
    }
}

/// The first of the entries with one URI.
proof fn lemma_first_uri(vs: Seq<MasterRendition>, i: int) -> (f: int)
    requires
        0 <= i < vs.len(),
    ensures
        0 <= f <= i,
        vs[f].uri@ == vs[i].uri@,
        is_first_uri(vs, f),
    decreases i,
{
    if is_first_uri(vs, i) {
        i
    } else {
        let j = choose|j: int| 0 <= j < i && (#[trigger] vs[j]).uri@ == vs[i].uri@;
        lemma_first_uri(vs, j)
    }
}

/// Two entries with one URI and different video codecs are an error, whatever
/// groups they pair the URI with.
pub proof fn law_one_video_codec_per_uri(vs: Seq<MasterRendition>, i: int, j: int)
    requires
        0 <= i < vs.len(),
        0 <= j < vs.len(),
        vs[i].uri@ == vs[j].uri@,
        vs[i].codecs is Some,
        vs[j].codecs is Some,
        video_codec((vs[i].codecs->0)@) != video_codec((vs[j].codecs->0)@),
    ensures
        exists|k: int|
            0 <= k < consistency_findings(vs).len() && (#[trigger] consistency_findings(
                vs,
            )[k]).severity == Severity::Error && consistency_findings(vs)[k].uri_a == Some(
                vs[i].uri@,
            ),
{
    let f = lemma_first_uri(vs, i);
    let p = coded_like_uri(vs, f);
    let m = picked(vs.len(), p);
    lemma_picked(vs.len(), p);
    assert(m.contains(i) && m.contains(j));
    let x = choose|k: int| 0 <= k < m.len() && m[k] == i;
    let y = choose|k: int| 0 <= k < m.len() && m[k] == j;
    let codecs = video_codecs(vs, f);
    assert(codecs[x] != codecs[y]);
    let rule = uri_rule(vs);
    assert(rule(f).len() == 1);
    let found = rule(f)[0];
    lemma_gathered_holds(vs.len(), rule, f, 0);
    let all = gathered(vs.len(), rule);
    let k = choose|k: int| 0 <= k < all.len() && all[k] == found;
    let before = gathered(vs.len(), variant_rule(vs)).len();
    assert(consistency_findings(vs)[before + k] == found);
}

/// There are no findings on bandwidth exactly when every entry has one.
pub proof fn law_bandwidth_is_required(vs: Seq<MasterRendition>)
    ensures
        gathered(vs.len(), bandwidth_rule(vs)).len() == 0 <==> forall|i: int|
            0 <= i < vs.len() ==> (#[trigger] vs[i]).bandwidth is Some,
{
    let n = vs.len();
    let rule = bandwidth_rule(vs);
    if forall|i: int| 0 <= i < n ==> (#[trigger] vs[i]).bandwidth is Some {
        assert forall|i: int| 0 <= i < n implies (#[trigger] rule(i)).len() == 0 by {
            assert(vs[i].bandwidth is Some);
        }
        lemma_gathered_empty(n, rule);
    }
    if gathered(n, rule).len() == 0 {
        assert forall|i: int| 0 <= i < n implies (#[trigger] vs[i]).bandwidth is Some by {
            if vs[i].bandwidth is None {
                assert(rule(i).len() == 1);
                lemma_gathered_holds(n, rule, i, 0);
            }
        }
    }
}

/// Whether a group that an entry names is declared.
pub open spec fn resolves(
    rs: Seq<MediaRendition>,
    attr: Seq<char>,
    referenced: Option<Seq<char>>,
) -> bool {
    referenced matches Some(group) ==> exists|k: int|
        0 <= k < rs.len() && (#[trigger] rs[k]).media_type@ == attr && rs[k].group_id@ == group
}

/// The groups of a type are those that some rendition of the type is in.
pub proof fn lemma_group_ids(rs: Seq<MediaRendition>, attr: Seq<char>, group: Seq<char>)
    ensures
        group_ids(rs, attr).contains(group) <==> exists|k: int|
            0 <= k < rs.len() && (#[trigger] rs[k]).media_type@ == attr && rs[k].group_id@ == group,
{
    let p = of_type(rs, attr);
    lemma_picked(rs.len(), p);
    let m = picked(rs.len(), p);
    let ids = m.map_values(|k: int| rs[k].group_id@);
    if ids.contains(group) {
        let i = choose|i: int| 0 <= i < ids.len() && ids[i] == group;
        assert(p(m[i]));
        assert(rs[m[i]].group_id@ == group);
    }
    if exists|k: int|
        0 <= k < rs.len() && (#[trigger] rs[k]).media_type@ == attr && rs[k].group_id@ == group {
        let k = choose|k: int|
            0 <= k < rs.len() && (#[trigger] rs[k]).media_type@ == attr && rs[k].group_id@ == group;
        assert(m.contains(k));
        let i = choose|i: int| 0 <= i < m.len() && m[i] == k;
        assert(ids[i] == group);
    }
}

/// An entry has no findings exactly when every group that it names is the
/// group of some rendition of that type.
pub proof fn law_references_resolve(rs: Seq<MediaRendition>, v: MasterRendition)
    ensures
        entry_findings(rs, v).len() == 0 <==> {
            &&& resolves(rs, "AUDIO"@, optional(v.audio_group))
            &&& resolves(rs, "SUBTITLES"@, optional(v.subtitle_group))
            &&& resolves(rs, "CLOSED-CAPTIONS"@, caption_group(v))
            &&& resolves(rs, "VIDEO"@, optional(v.video_group))
        },
{
    lemma_resolves(rs, v.uri@, "AUDIO"@, optional(v.audio_group));
    lemma_resolves(rs, v.uri@, "SUBTITLES"@, optional(v.subtitle_group));
    lemma_resolves(rs, v.uri@, "CLOSED-CAPTIONS"@, caption_group(v));
    lemma_resolves(rs, v.uri@, "VIDEO"@, optional(v.video_group));
}

/// A group that an entry names has no finding exactly when it is declared.
pub proof fn lemma_resolves(
    rs: Seq<MediaRendition>,
    uri: Seq<char>,
    attr: Seq<char>,
    referenced: Option<Seq<char>>,
)
    ensures
        reference_findings(rs, uri, attr, referenced).len() == 0 <==> resolves(
            rs,
            attr,
            referenced,
        ),
{
    if let Some(group) = referenced {
        lemma_group_ids(rs, attr, group);
    }
}

/// `CLOSED-CAPTIONS=NONE` names no group: an entry with it has the findings of
/// the same entry without closed captions.
pub proof fn law_no_captions_is_no_group(
    rs: Seq<MediaRendition>,
    v: MasterRendition,
    without: MasterRendition,
)
    requires
        optional(v.closed_captions) == Some("NONE"@),
        without == (MasterRendition { closed_captions: None, ..v }),
    ensures
        entry_findings(rs, v) == entry_findings(rs, without),
{
}

/// Whether a group has a member of the given name.
pub open spec fn has_member(
    rs: Seq<MediaRendition>,
    media_type: Seq<char>,
    group: Seq<char>,
    name: Seq<char>,
) -> bool {
    exists|k: int|
        0 <= k < rs.len() && (#[trigger] rs[k]).media_type@ == media_type && rs[k].group_id@
            == group && rs[k].name@ == name
}

/// The names of a group are those of its members.
pub proof fn lemma_group_names(
    rs: Seq<MediaRendition>,
    media_type: Seq<char>,
    group: Seq<char>,
    name: Seq<char>,
)
    ensures
        group_names(rs, media_type, group).contains(name) <==> has_member(
            rs,
            media_type,
            group,
            name,
        ),
{
    let p = in_group(rs, media_type, group);
    lemma_picked(rs.len(), p);
    let m = picked(rs.len(), p);
    let names = m.map_values(|k: int| rs[k].name@);
    if names.contains(name) {
        let i = choose|i: int| 0 <= i < names.len() && names[i] == name;
        assert(p(m[i]));
        assert(rs[m[i]].name@ == name);
    }
    if has_member(rs, media_type, group, name) {
        let k = choose|k: int|
            0 <= k < rs.len() && (#[trigger] rs[k]).media_type@ == media_type && rs[k].group_id@
                == group && rs[k].name@ == name;
        assert(m.contains(k));
        let i = choose|i: int| 0 <= i < m.len() && m[i] == k;
        assert(names[i] == name);
    }
}

/// Whether each group has the members that the groups of its type have.
pub open spec fn groups_agree(rs: Seq<MediaRendition>) -> bool {
    forall|i: int, j: int|
        0 <= i < rs.len() && 0 <= j < rs.len() && (#[trigger] rs[i]).media_type@ == (
        #[trigger] rs[j]).media_type@ ==> has_member(
            rs,
            rs[i].media_type@,
            rs[i].group_id@,
            rs[j].name@,
        )
}

/// The names of a type are those of its renditions.
pub proof fn lemma_type_names(rs: Seq<MediaRendition>, media_type: Seq<char>, name: Seq<char>)
    ensures
        type_names(rs, media_type).contains(name) <==> exists|k: int|
            0 <= k < rs.len() && (#[trigger] rs[k]).media_type@ == media_type && rs[k].name@
                == name,
{
    let p = of_type(rs, media_type);
    lemma_picked(rs.len(), p);
    let m = picked(rs.len(), p);
    let names = m.map_values(|k: int| rs[k].name@);
    if names.contains(name) {
        let i = choose|i: int| 0 <= i < names.len() && names[i] == name;
        assert(p(m[i]));
        assert(rs[m[i]].name@ == name);
    }
    if exists|k: int|
        0 <= k < rs.len() && (#[trigger] rs[k]).media_type@ == media_type && rs[k].name@ == name {
        let k = choose|k: int|
            0 <= k < rs.len() && (#[trigger] rs[k]).media_type@ == media_type && rs[k].name@
                == name;
        assert(m.contains(k));
        let i = choose|i: int| 0 <= i < m.len() && m[i] == k;
        assert(names[i] == name);
    }
}

/// The first of the renditions of one type.
proof fn lemma_first_type(rs: Seq<MediaRendition>, i: int) -> (f: int)
    requires
        0 <= i < rs.len(),
    ensures
        0 <= f <= i,
        rs[f].media_type@ == rs[i].media_type@,
        is_first_type(rs, f),
    decreases i,
{
    if is_first_type(rs, i) {
        i
    } else {
        let j = choose|j: int| 0 <= j < i && (#[trigger] rs[j]).media_type@ == rs[i].media_type@;
        lemma_first_type(rs, j)
    }
}

/// The first of the renditions of one group.
proof fn lemma_first_group(rs: Seq<MediaRendition>, i: int) -> (f: int)
    requires
        0 <= i < rs.len(),
    ensures
        0 <= f <= i,
        rs[f].media_type@ == rs[i].media_type@,
        rs[f].group_id@ == rs[i].group_id@,
        is_first_group(rs, f),
    decreases i,
{
    if is_first_group(rs, i) {
        i
    } else {
        let j = choose|j: int|
            0 <= j < i && (#[trigger] rs[j]).media_type@ == rs[i].media_type@ && rs[j].group_id@
                == rs[i].group_id@;
        lemma_first_group(rs, j)
    }
}

/// There are no findings on the members of groups exactly when every group has
/// the members that the groups of its type have.
pub proof fn law_groups_have_the_same_members(rs: Seq<MediaRendition>)
    ensures
        membership_findings(rs).len() == 0 <==> groups_agree(rs),
{
    let n = rs.len();
    if groups_agree(rs) {
        assert forall|i: int| 0 <= i < n implies (#[trigger] type_rule(rs)(i)).len() == 0 by {
            assert forall|j: int| 0 <= j < n implies (#[trigger] group_rule(rs, i)(j)).len()
                == 0 by {
                let media_type = rs[j].media_type@;
                let group = rs[j].group_id@;
                assert(missing_names(rs, media_type, group) =~= Set::<Seq<char>>::empty()) by {
                    assert forall|x: Seq<char>| type_names(rs, media_type).contains(
                        x,
                    ) implies group_names(rs, media_type, group).contains(x) by {
                        lemma_type_names(rs, media_type, x);
                        let k = choose|k: int|
                            0 <= k < n && (#[trigger] rs[k]).media_type@ == media_type
                                && rs[k].name@ == x;
                        assert(has_member(rs, rs[j].media_type@, rs[j].group_id@, rs[k].name@));
                        lemma_group_names(rs, media_type, group, x);
                    }
                }
            }
            lemma_gathered_empty(n, group_rule(rs, i));
        }
        lemma_gathered_empty(n, type_rule(rs));
    } else {
        let (i, j) = choose|i: int, j: int|
            0 <= i < n && 0 <= j < n && (#[trigger] rs[i]).media_type@ == (
            #[trigger] rs[j]).media_type@ && !has_member(
                rs,
                rs[i].media_type@,
                rs[i].group_id@,
                rs[j].name@,
            );
        let media_type = rs[i].media_type@;
        let group = rs[i].group_id@;
        let name = rs[j].name@;
        let f = lemma_first_type(rs, i);
        let g = lemma_first_group(rs, i);
        lemma_type_names(rs, media_type, name);
        lemma_group_names(rs, media_type, group, name);
        let missing = missing_names(rs, media_type, group);
        assert(missing.contains(name));
        assert(missing.finite());
        if missing.len() == 0 {
            missing.lemma_len0_is_empty();
        }
        assert(group_rule(rs, f)(g).len() == 1);
        lemma_gathered_holds(n, group_rule(rs, f), g, 0);
        assert(type_rule(rs)(f).len() > 0);
        lemma_gathered_holds(n, type_rule(rs), f, 0);
    }
}

/// One group of each type has nothing to be compared with.
pub proof fn law_one_group_is_complete(rs: Seq<MediaRendition>)
    requires
        forall|i: int, j: int|
            0 <= i < rs.len() && 0 <= j < rs.len() && (#[trigger] rs[i]).media_type@ == (
            #[trigger] rs[j]).media_type@ ==> rs[i].group_id@ == rs[j].group_id@,
    ensures
        membership_findings(rs).len() == 0,
{
    law_groups_have_the_same_members(rs);
}

/// Every finding on the structure of the multivariant playlist is an error of
/// the check whose rule it breaks, with the URL of the playlist.
pub proof fn law_structure_findings_are_named(master: MasterPlaylist)
    ensures
        forall|k: int|
            0 <= k < structure_findings(master).len() ==> {
                let issue = #[trigger] structure_findings(master)[k];
                &&& issue.severity == Severity::Error
                &&& issue.uri_a == Some(master.url@)
                &&& issue.check_id == CheckId::ExtM3uHeader || issue.check_id
                    == CheckId::SingletonTags || issue.check_id == CheckId::VersionCompatibility
            },
{
}

} // verus!
