//! Variant streams and rendition groups of the multivariant playlist.
use crate::gather::{
    all_raised_by, disagree, gathered, lemma_disagree, lemma_gathered_raised_by, picked, positions,
};
use crate::names::{listing, NameSet};
use crate::text::{
    add_text, chars_of, decimal, is_text, join, joined, number, optional, or_text, pieces,
    same_optional, same_text, slices, split, string_of, text_or, texts, trim, trimmed,
};
use crate::types::{
    findings, named, produced_by, report, CheckId, Issue, IssueView, MasterPlaylist,
    MasterRendition, MediaRendition, Severity,
};
use vstd::prelude::*;

verus! {

/// Whether two entries describe the same variant stream: the same URI, paired
/// with the same rendition groups.
pub open spec fn same_variant(a: MasterRendition, b: MasterRendition) -> bool {
    &&& a.uri@ == b.uri@
    &&& optional(a.audio_group) == optional(b.audio_group)
    &&& optional(a.subtitle_group) == optional(b.subtitle_group)
    &&& optional(a.closed_captions) == optional(b.closed_captions)
    &&& optional(a.video_group) == optional(b.video_group)
}

/// Whether no entry before `i` describes the same variant stream.
pub open spec fn is_first_variant(vs: Seq<MasterRendition>, i: int) -> bool {
    forall|j: int| 0 <= j < i ==> !same_variant(#[trigger] vs[j], vs[i])
}

/// Whether no entry before `i` has the same URI.
pub open spec fn is_first_uri(vs: Seq<MasterRendition>, i: int) -> bool {
    forall|j: int| 0 <= j < i ==> (#[trigger] vs[j]).uri@ != vs[i].uri@
}

pub open spec fn like_variant(vs: Seq<MasterRendition>, i: int) -> spec_fn(int) -> bool {
    |j: int| same_variant(vs[j], vs[i])
}

pub open spec fn like_uri(vs: Seq<MasterRendition>, i: int) -> spec_fn(int) -> bool {
    |j: int| vs[j].uri@ == vs[i].uri@
}

/// The entries that describe the same variant stream as entry `i`.
pub open spec fn variant_members(vs: Seq<MasterRendition>, i: int) -> Seq<int> {
    picked(vs.len(), like_variant(vs, i))
}

/// The entries that have the same URI as entry `i`.
pub open spec fn uri_members(vs: Seq<MasterRendition>, i: int) -> Seq<int> {
    picked(vs.len(), like_uri(vs, i))
}

/// The rendition groups of an entry.
pub open spec fn group_text(v: MasterRendition) -> Seq<char> {
    "AUDIO="@ + text_or(v.audio_group, "(none)"@) + ", SUBTITLES="@ + text_or(
        v.subtitle_group,
        "(none)"@,
    ) + ", CLOSED-CAPTIONS="@ + text_or(v.closed_captions, "(none)"@) + ", VIDEO="@ + text_or(
        v.video_group,
        "(none)"@,
    )
}

pub open spec fn codecs_of(vs: Seq<MasterRendition>, m: Seq<int>) -> Seq<Option<Seq<char>>> {
    m.map_values(|j: int| optional(vs[j].codecs))
}

pub open spec fn codecs_detail(v: MasterRendition) -> Seq<char> {
    "CODECS="@ + text_or(v.codecs, "(none)"@)
}

pub open spec fn codecs_details(vs: Seq<MasterRendition>, m: Seq<int>) -> Seq<Seq<char>> {
    m.map_values(|j: int| codecs_detail(vs[j]))
}

/// The entries of one variant stream have the same codecs.
pub open spec fn codecs_findings(vs: Seq<MasterRendition>, i: int) -> Seq<IssueView> {
    let m = variant_members(vs, i);
    if disagree(codecs_of(vs, m)) {
        seq![
            IssueView::on_uri(
                Severity::Warn,
                vs[i].uri@,
                "rfc8216bis §4.4.6.2: Multiple EXT-X-STREAM-INF tags share URI '"@ + vs[i].uri@
                    + "' and the same Rendition Groups ("@ + group_text(vs[i])
                    + ") but declare different CODECS values: "@ + joined(
                    codecs_details(vs, m),
                    ", "@,
                ) + ". One of them misdescribes what the URI contains."@,
            ),
        ]
    } else {
        seq![]
    }
}

pub open spec fn bandwidths_of(vs: Seq<MasterRendition>, m: Seq<int>) -> Seq<Option<u64>> {
    m.map_values(|j: int| vs[j].bandwidth)
}

pub open spec fn bandwidth_detail(v: MasterRendition) -> Seq<char> {
    "BANDWIDTH="@ + match v.bandwidth {
        Some(b) => decimal(b as nat),
        None => "(none)"@,
    }
}

pub open spec fn bandwidth_details(vs: Seq<MasterRendition>, m: Seq<int>) -> Seq<Seq<char>> {
    m.map_values(|j: int| bandwidth_detail(vs[j]))
}

/// The entries of one variant stream have the same bandwidth.
pub open spec fn bandwidth_findings(vs: Seq<MasterRendition>, i: int) -> Seq<IssueView> {
    let m = variant_members(vs, i);
    if disagree(bandwidths_of(vs, m)) {
        seq![
            IssueView::on_uri(
                Severity::Warn,
                vs[i].uri@,
                "rfc8216bis §4.4.6.2: Multiple EXT-X-STREAM-INF tags share URI '"@ + vs[i].uri@
                    + "' and the same Rendition Groups ("@ + group_text(vs[i])
                    + ") but declare different BANDWIDTH values: "@ + joined(
                    bandwidth_details(vs, m),
                    ", "@,
                ) + ". BANDWIDTH is the peak bit rate of the same media in each case."@,
            ),
        ]
    } else {
        seq![]
    }
}

pub open spec fn variant_rule(vs: Seq<MasterRendition>) -> spec_fn(int) -> Seq<IssueView> {
    |i: int|
        if is_first_variant(vs, i) {
            codecs_findings(vs, i) + bandwidth_findings(vs, i)
        } else {
            seq![]
        }
}

/// The video codec of a CODECS value: its first element.
pub open spec fn video_codec(codecs: Seq<char>) -> Seq<char> {
    trimmed(pieces(codecs, ',')[0])
}

pub open spec fn coded_like_uri(vs: Seq<MasterRendition>, i: int) -> spec_fn(int) -> bool {
    |j: int| vs[j].uri@ == vs[i].uri@ && vs[j].codecs is Some
}

/// The video codecs that the entries with the URI of entry `i` declare.
pub open spec fn video_codecs(vs: Seq<MasterRendition>, i: int) -> Seq<Seq<char>> {
    picked(vs.len(), coded_like_uri(vs, i)).map_values(|j: int| video_codec((vs[j].codecs->0)@))
}

pub open spec fn video_detail(v: MasterRendition) -> Seq<char> {
    "AUDIO="@ + text_or(v.audio_group, "(none)"@) + " CODECS="@ + text_or(v.codecs, "(none)"@)
}

pub open spec fn video_details(vs: Seq<MasterRendition>, m: Seq<int>) -> Seq<Seq<char>> {
    m.map_values(|j: int| video_detail(vs[j]))
}

/// The entries with one URI have the same video codec, whatever they pair it
/// with.
pub open spec fn video_findings(vs: Seq<MasterRendition>, i: int) -> Seq<IssueView> {
    if disagree(video_codecs(vs, i)) {
        seq![
            IssueView::on_uri(
                Severity::Error,
                vs[i].uri@,
                "rfc8216bis §6.2.4: Multiple EXT-X-STREAM-INF tags share URI '"@ + vs[i].uri@
                    + "' but declare different video codecs: "@ + joined(
                    video_details(vs, uri_members(vs, i)),
                    ", "@,
                )
                    + ". The same media cannot be encoded two ways, and every Variant Stream of a presentation MUST use the same video encoding."@,
            ),
        ]
    } else {
        seq![]
    }
}

pub open spec fn uri_rule(vs: Seq<MasterRendition>) -> spec_fn(int) -> Seq<IssueView> {
    |i: int|
        if is_first_uri(vs, i) {
            video_findings(vs, i)
        } else {
            seq![]
        }
}

/// The findings on entries that share a URI.
pub open spec fn consistency_findings(vs: Seq<MasterRendition>) -> Seq<IssueView> {
    gathered(vs.len(), variant_rule(vs)) + gathered(vs.len(), uri_rule(vs))
}

/// Whether two entries describe the same variant stream.
fn alike(a: &MasterRendition, b: &MasterRendition) -> (r: bool)
    ensures
        r == same_variant(*a, *b),
{
    same_text(a.uri.as_str(), b.uri.as_str()) && same_optional(&a.audio_group, &b.audio_group)
        && same_optional(&a.subtitle_group, &b.subtitle_group) && same_optional(
        &a.closed_captions,
        &b.closed_captions,
    ) && same_optional(&a.video_group, &b.video_group)
}

/// Whether no entry before `i` describes the same variant stream.
fn first_variant(vs: &[MasterRendition], i: usize) -> (r: bool)
    requires
        i < vs.len(),
    ensures
        r == is_first_variant(vs@, i as int),
{
    let mut j: usize = 0;
    while j < i
        invariant
            j <= i < vs.len(),
            forall|k: int| 0 <= k < j ==> !same_variant(#[trigger] vs@[k], vs@[i as int]),
        decreases i - j,
    {
        if alike(&vs[j], &vs[i]) {
            return false;
        }
        j = j + 1;
    }
    true
}

/// Whether no entry before `i` has the same URI.
fn first_uri(vs: &[MasterRendition], i: usize) -> (r: bool)
    requires
        i < vs.len(),
    ensures
        r == is_first_uri(vs@, i as int),
{
    let mut j: usize = 0;
    while j < i
        invariant
            j <= i < vs.len(),
            forall|k: int| 0 <= k < j ==> (#[trigger] vs@[k]).uri@ != vs@[i as int].uri@,
        decreases i - j,
    {
        if same_text(vs[j].uri.as_str(), vs[i].uri.as_str()) {
            return false;
        }
        j = j + 1;
    }
    true
}

/// The entries that describe the same variant stream as entry `i`.
fn like_entry(vs: &[MasterRendition], i: usize) -> (r: Vec<usize>)
    requires
        i < vs.len(),
    ensures
        positions(r@) == variant_members(vs@, i as int),
        forall|k: int| 0 <= k < r@.len() ==> (#[trigger] r@[k]) < vs@.len(),
{
    let ghost p = like_variant(vs@, i as int);
    let mut r: Vec<usize> = Vec::new();
    let mut j: usize = 0;
    while j < vs.len()
        invariant
            i < vs.len(),
            j <= vs.len(),
            p == like_variant(vs@, i as int),
            positions(r@) == picked(j as nat, p),
            forall|k: int| 0 <= k < r@.len() ==> (#[trigger] r@[k]) < vs@.len(),
        decreases vs.len() - j,
    {
        let ghost before = positions(r@);
        if alike(&vs[j], &vs[i]) {
            r.push(j);
            assert(positions(r@) =~= before.push(j as int));
        }
        j = j + 1;
    }
    r
}

/// The entries that have the same URI as entry `i`.
fn like_address(vs: &[MasterRendition], i: usize) -> (r: Vec<usize>)
    requires
        i < vs.len(),
    ensures
        positions(r@) == uri_members(vs@, i as int),
        forall|k: int| 0 <= k < r@.len() ==> (#[trigger] r@[k]) < vs@.len(),
{
    let ghost p = like_uri(vs@, i as int);
    let mut r: Vec<usize> = Vec::new();
    let mut j: usize = 0;
    while j < vs.len()
        invariant
            i < vs.len(),
            j <= vs.len(),
            p == like_uri(vs@, i as int),
            positions(r@) == picked(j as nat, p),
            forall|k: int| 0 <= k < r@.len() ==> (#[trigger] r@[k]) < vs@.len(),
        decreases vs.len() - j,
    {
        let ghost before = positions(r@);
        if same_text(vs[j].uri.as_str(), vs[i].uri.as_str()) {
            r.push(j);
            assert(positions(r@) =~= before.push(j as int));
        }
        j = j + 1;
    }
    r
}

/// The rendition groups of an entry.
fn groups(v: &MasterRendition) -> (r: String)
    ensures
        r@ == group_text(*v),
{
    "AUDIO=".to_owned().concat(or_text(&v.audio_group, "(none)")).concat(", SUBTITLES=").concat(
        or_text(&v.subtitle_group, "(none)"),
    ).concat(", CLOSED-CAPTIONS=").concat(or_text(&v.closed_captions, "(none)")).concat(
        ", VIDEO=",
    ).concat(or_text(&v.video_group, "(none)"))
}

/// Whether the codecs of the entries differ.
fn codecs_differ(vs: &[MasterRendition], m: &[usize]) -> (r: bool)
    requires
        forall|k: int| 0 <= k < m@.len() ==> (#[trigger] m@[k]) < vs@.len(),
    ensures
        r == disagree(codecs_of(vs@, positions(m@))),
{
    let ghost all = codecs_of(vs@, positions(m@));
    proof {
        lemma_disagree(all);
    }
    let mut k: usize = 0;
    while k < m.len()
        invariant
            k <= m.len(),
            all == codecs_of(vs@, positions(m@)),
            forall|n: int| 0 <= n < m@.len() ==> (#[trigger] m@[n]) < vs@.len(),
            forall|n: int| 0 <= n < k ==> #[trigger] all[n] == all[0],
            disagree(all) <==> exists|n: int| 0 <= n < all.len() && #[trigger] all[n] != all[0],
        decreases m.len() - k,
    {
        assert(all[k as int] == optional(vs@[m@[k as int] as int].codecs));
        assert(all[0] == optional(vs@[m@[0] as int].codecs));
        if !same_optional(&vs[m[k]].codecs, &vs[m[0]].codecs) {
            assert(all[k as int] != all[0]);
            return true;
        }
        k = k + 1;
    }
    false
}

/// Whether the bandwidths of the entries differ.
fn bandwidths_differ(vs: &[MasterRendition], m: &[usize]) -> (r: bool)
    requires
        forall|k: int| 0 <= k < m@.len() ==> (#[trigger] m@[k]) < vs@.len(),
    ensures
        r == disagree(bandwidths_of(vs@, positions(m@))),
{
    let ghost all = bandwidths_of(vs@, positions(m@));
    proof {
        lemma_disagree(all);
    }
    let mut k: usize = 0;
    while k < m.len()
        invariant
            k <= m.len(),
            all == bandwidths_of(vs@, positions(m@)),
            forall|n: int| 0 <= n < m@.len() ==> (#[trigger] m@[n]) < vs@.len(),
            forall|n: int| 0 <= n < k ==> #[trigger] all[n] == all[0],
            disagree(all) <==> exists|n: int| 0 <= n < all.len() && #[trigger] all[n] != all[0],
        decreases m.len() - k,
    {
        assert(all[k as int] == vs@[m@[k as int] as int].bandwidth);
        assert(all[0] == vs@[m@[0] as int].bandwidth);
        let same = match (vs[m[k]].bandwidth, vs[m[0]].bandwidth) {
            (Some(a), Some(b)) => a == b,
            (None, None) => true,
            _ => false,
        };
        if !same {
            assert(all[k as int] != all[0]);
            return true;
        }
        k = k + 1;
    }
    false
}

/// The codecs of each entry.
fn list_codecs(vs: &[MasterRendition], m: &[usize]) -> (r: Vec<String>)
    requires
        forall|k: int| 0 <= k < m@.len() ==> (#[trigger] m@[k]) < vs@.len(),
    ensures
        texts(r@) == codecs_details(vs@, positions(m@)),
{
    let ghost all = codecs_details(vs@, positions(m@));
    let mut r: Vec<String> = Vec::new();
    let mut k: usize = 0;
    while k < m.len()
        invariant
            k <= m.len(),
            all == codecs_details(vs@, positions(m@)),
            forall|n: int| 0 <= n < m@.len() ==> (#[trigger] m@[n]) < vs@.len(),
            texts(r@) == all.take(k as int),
        decreases m.len() - k,
    {
        let v = &vs[m[k]];
        assert(all[k as int] == codecs_detail(*v));
        add_text(&mut r, "CODECS=".to_owned().concat(or_text(&v.codecs, "(none)")));
        k = k + 1;
        assert(texts(r@) =~= all.take(k as int));
    }
    assert(all.take(k as int) =~= all);
    r
}

/// The bandwidth of each entry.
fn list_bandwidths(vs: &[MasterRendition], m: &[usize]) -> (r: Vec<String>)
    requires
        forall|k: int| 0 <= k < m@.len() ==> (#[trigger] m@[k]) < vs@.len(),
    ensures
        texts(r@) == bandwidth_details(vs@, positions(m@)),
{
    let ghost all = bandwidth_details(vs@, positions(m@));
    let mut r: Vec<String> = Vec::new();
    let mut k: usize = 0;
    while k < m.len()
        invariant
            k <= m.len(),
            all == bandwidth_details(vs@, positions(m@)),
            forall|n: int| 0 <= n < m@.len() ==> (#[trigger] m@[n]) < vs@.len(),
            texts(r@) == all.take(k as int),
        decreases m.len() - k,
    {
        let v = &vs[m[k]];
        assert(all[k as int] == bandwidth_detail(*v));
        let value = match v.bandwidth {
            Some(b) => number(b as u128),
            None => "(none)".to_owned(),
        };
        add_text(&mut r, "BANDWIDTH=".to_owned().concat(value.as_str()));
        k = k + 1;
        assert(texts(r@) =~= all.take(k as int));
    }
    assert(all.take(k as int) =~= all);
    r
}

/// The audio group and the codecs of each entry.
fn list_video(vs: &[MasterRendition], m: &[usize]) -> (r: Vec<String>)
    requires
        forall|k: int| 0 <= k < m@.len() ==> (#[trigger] m@[k]) < vs@.len(),
    ensures
        texts(r@) == video_details(vs@, positions(m@)),
{
    let ghost all = video_details(vs@, positions(m@));
    let mut r: Vec<String> = Vec::new();
    let mut k: usize = 0;
    while k < m.len()
        invariant
            k <= m.len(),
            all == video_details(vs@, positions(m@)),
            forall|n: int| 0 <= n < m@.len() ==> (#[trigger] m@[n]) < vs@.len(),
            texts(r@) == all.take(k as int),
        decreases m.len() - k,
    {
        let v = &vs[m[k]];
        assert(all[k as int] == video_detail(*v));
        add_text(
            &mut r,
            "AUDIO=".to_owned().concat(or_text(&v.audio_group, "(none)")).concat(
                " CODECS=",
            ).concat(or_text(&v.codecs, "(none)")),
        );
        k = k + 1;
        assert(texts(r@) =~= all.take(k as int));
    }
    assert(all.take(k as int) =~= all);
    r
}

/// The video codec of a CODECS value.
fn codec_of(codecs: &str) -> (r: String)
    ensures
        r@ == video_codec(codecs@),
{
    let chars = chars_of(codecs);
    let parts = split(chars.as_slice(), ',');
    proof {
        lemma_some_piece(codecs@, ',');
        assert(slices(parts@).len() == parts@.len());
        assert(slices(parts@)[0] == parts@[0]@);
    }
    string_of(trim(parts[0]))
}

/// A text has at least one piece.
proof fn lemma_some_piece(s: Seq<char>, sep: char)
    ensures
        pieces(s, sep).len() > 0,
{
    crate::text::lemma_position_bounds(s, sep, 0);
}

/// Whether the entries with the URI of entry `i` declare different video
/// codecs.
fn video_differs(vs: &[MasterRendition], i: usize) -> (r: bool)
    requires
        i < vs.len(),
    ensures
        r == disagree(video_codecs(vs@, i as int)),
{
    let ghost p = coded_like_uri(vs@, i as int);
    let mut codecs: Vec<String> = Vec::new();
    let mut differ = false;
    let mut j: usize = 0;
    while j < vs.len()
        invariant
            i < vs.len(),
            j <= vs.len(),
            p == coded_like_uri(vs@, i as int),
            texts(codecs@) == picked(j as nat, p).map_values(
                |k: int| video_codec((vs@[k].codecs->0)@),
            ),
            differ == exists|k: int|
                0 <= k < texts(codecs@).len() && #[trigger] texts(codecs@)[k] != texts(
                    codecs@,
                )[0],
        decreases vs.len() - j,
    {
        if same_text(vs[j].uri.as_str(), vs[i].uri.as_str()) {
            if let Some(c) = &vs[j].codecs {
                let codec = codec_of(c.as_str());
                let ghost before = texts(codecs@);
                let ghost added = codec@;
                if codecs.len() > 0 && !same_text(codecs[0].as_str(), codec.as_str()) {
                    differ = true;
                }
                add_text(&mut codecs, codec);
                proof {
                    assert(texts(codecs@) == before.push(added));
                    assert(texts(codecs@)[before.len() as int] == added);
                    assert(forall|k: int| 0 <= k < before.len() ==> texts(codecs@)[k]
                        == before[k]);
                    assert(picked((j + 1) as nat, p) == picked(j as nat, p).push(j as int));
                    assert(texts(codecs@) =~= picked((j + 1) as nat, p).map_values(
                        |k: int| video_codec((vs@[k].codecs->0)@),
                    ));
                }
            }
        }
        j = j + 1;
    }
    proof {
        assert(texts(codecs@) == video_codecs(vs@, i as int));
        lemma_disagree(texts(codecs@));
    }
    differ
}

/// Entries that share a URI and its rendition groups have the same codecs and
/// the same bandwidth, and entries that share a URI have the same video codec.
///
/// A variant stream is the combination of a URI and the rendition groups it
/// pairs with, so two entries that share a URI but name different groups are
/// different variant streams, and their codecs and bandwidth are expected to
/// differ. A difference between entries of one variant stream is a warning.
/// The same media described with two video codecs is a contradiction that no
/// choice of audio can explain, and that is an error.
pub fn check_stream_inf_consistency(master: &MasterPlaylist) -> (r: Vec<Issue>)
    ensures
        findings(r@) == named(
            CheckId::StreamInfConsistency,
            consistency_findings(master.variants@),
        ),
        all_raised_by(findings(r@), CheckId::StreamInfConsistency),
{
    let vs = master.variants.as_slice();
    let mut issues: Vec<Issue> = Vec::new();
    let mut i: usize = 0;
    while i < vs.len()
        invariant
            i <= vs.len(),
            findings(issues@) == gathered(i as nat, variant_rule(vs@)),
        decreases vs.len() - i,
    {
        if first_variant(vs, i) {
            let m = like_entry(vs, i);
            let uri = &vs[i].uri;
            let shared = groups(&vs[i]);
            if codecs_differ(vs, m.as_slice()) {
                let details = list_codecs(vs, m.as_slice());
                report(
                    &mut issues,
                    Issue::on_uri(
                        Severity::Warn,
                        uri.as_str(),
                        "rfc8216bis §4.4.6.2: Multiple EXT-X-STREAM-INF tags share URI '".to_owned().concat(
                            uri.as_str(),
                        ).concat("' and the same Rendition Groups (").concat(
                            shared.as_str(),
                        ).concat(") but declare different CODECS values: ").concat(
                            join(details.as_slice(), ", ").as_str(),
                        ).concat(". One of them misdescribes what the URI contains."),
                    ),
                );
            }
            if bandwidths_differ(vs, m.as_slice()) {
                let details = list_bandwidths(vs, m.as_slice());
                report(
                    &mut issues,
                    Issue::on_uri(
                        Severity::Warn,
                        uri.as_str(),
                        "rfc8216bis §4.4.6.2: Multiple EXT-X-STREAM-INF tags share URI '".to_owned().concat(
                            uri.as_str(),
                        ).concat("' and the same Rendition Groups (").concat(
                            shared.as_str(),
                        ).concat(") but declare different BANDWIDTH values: ").concat(
                            join(details.as_slice(), ", ").as_str(),
                        ).concat(
                            ". BANDWIDTH is the peak bit rate of the same media in each case.",
                        ),
                    ),
                );
            }
        }
        i = i + 1;
        assert(findings(issues@) =~= gathered(i as nat, variant_rule(vs@)));
    }
    let ghost before = findings(issues@);
    assert(before + gathered(0, uri_rule(vs@)) =~= before);
    i = 0;
    while i < vs.len()
        invariant
            i <= vs.len(),
            findings(issues@) == before + gathered(i as nat, uri_rule(vs@)),
        decreases vs.len() - i,
    {
        if first_uri(vs, i) && video_differs(vs, i) {
            let m = like_address(vs, i);
            let uri = &vs[i].uri;
            let details = list_video(vs, m.as_slice());
            report(
                &mut issues,
                Issue::on_uri(
                    Severity::Error,
                    uri.as_str(),
                    "rfc8216bis §6.2.4: Multiple EXT-X-STREAM-INF tags share URI '".to_owned().concat(
                        uri.as_str(),
                    ).concat("' but declare different video codecs: ").concat(
                        join(details.as_slice(), ", ").as_str(),
                    ).concat(
                        ". The same media cannot be encoded two ways, and every Variant Stream of a presentation MUST use the same video encoding.",
                    ),
                ),
            );
        }
        i = i + 1;
        assert(findings(issues@) =~= before + gathered(i as nat, uri_rule(vs@)));
    }
    proof {
        lemma_gathered_raised_by(vs@.len(), variant_rule(vs@), CheckId::Unassigned);
        lemma_gathered_raised_by(vs@.len(), uri_rule(vs@), CheckId::Unassigned);
    }
    produced_by(CheckId::StreamInfConsistency, issues)
}

pub open spec fn bandwidth_rule(vs: Seq<MasterRendition>) -> spec_fn(int) -> Seq<IssueView> {
    |i: int|
        if vs[i].bandwidth is None {
            seq![
                IssueView::on_uri(
                    Severity::Error,
                    vs[i].uri@,
                    "RFC 8216bis §4.4.6.2: EXT-X-STREAM-INF for URI '"@ + vs[i].uri@
                        + "' is missing the BANDWIDTH attribute, which is REQUIRED."@,
                ),
            ]
        } else {
            seq![]
        }
}

/// Every variant stream declares its bandwidth.
pub fn check_bandwidth_required(master: &MasterPlaylist) -> (r: Vec<Issue>)
    ensures
        findings(r@) == named(
            CheckId::BandwidthRequired,
            gathered(master.variants@.len(), bandwidth_rule(master.variants@)),
        ),
        all_raised_by(findings(r@), CheckId::BandwidthRequired),
{
    let vs = master.variants.as_slice();
    let mut issues: Vec<Issue> = Vec::new();
    let mut i: usize = 0;
    while i < vs.len()
        invariant
            i <= vs.len(),
            findings(issues@) == gathered(i as nat, bandwidth_rule(vs@)),
        decreases vs.len() - i,
    {
        let v = &vs[i];
        if v.bandwidth.is_none() {
            report(
                &mut issues,
                Issue::on_uri(
                    Severity::Error,
                    v.uri.as_str(),
                    "RFC 8216bis §4.4.6.2: EXT-X-STREAM-INF for URI '".to_owned().concat(
                        v.uri.as_str(),
                    ).concat("' is missing the BANDWIDTH attribute, which is REQUIRED."),
                ),
            );
        }
        i = i + 1;
        assert(findings(issues@) =~= gathered(i as nat, bandwidth_rule(vs@)));
    }
    proof {
        lemma_gathered_raised_by(vs@.len(), bandwidth_rule(vs@), CheckId::Unassigned);
    }
    produced_by(CheckId::BandwidthRequired, issues)
}

pub open spec fn of_type(rs: Seq<MediaRendition>, media_type: Seq<char>) -> spec_fn(int) -> bool {
    |k: int| rs[k].media_type@ == media_type
}

pub open spec fn in_group(
    rs: Seq<MediaRendition>,
    media_type: Seq<char>,
    group: Seq<char>,
) -> spec_fn(int) -> bool {
    |k: int| rs[k].media_type@ == media_type && rs[k].group_id@ == group
}

/// The names of all renditions of a type.
pub open spec fn type_names(rs: Seq<MediaRendition>, media_type: Seq<char>) -> Set<Seq<char>> {
    picked(rs.len(), of_type(rs, media_type)).map_values(|k: int| rs[k].name@).to_set()
}

/// The names of the renditions of a group.
pub open spec fn group_names(
    rs: Seq<MediaRendition>,
    media_type: Seq<char>,
    group: Seq<char>,
) -> Set<Seq<char>> {
    picked(rs.len(), in_group(rs, media_type, group)).map_values(|k: int| rs[k].name@).to_set()
}

/// The names that other groups of the type have and this group does not.
pub open spec fn missing_names(
    rs: Seq<MediaRendition>,
    media_type: Seq<char>,
    group: Seq<char>,
) -> Set<Seq<char>> {
    type_names(rs, media_type).difference(group_names(rs, media_type, group))
}

/// A name in single quotes.
pub open spec fn quoted(name: Seq<char>) -> Seq<char> {
    "'"@ + name + "'"@
}

/// A group has the members that the other groups of its type have.
pub open spec fn group_findings(
    rs: Seq<MediaRendition>,
    media_type: Seq<char>,
    group: Seq<char>,
) -> Seq<IssueView> {
    let missing = missing_names(rs, media_type, group);
    if missing.len() > 0 {
        seq![
            IssueView::general(
                Severity::Error,
                "rfc8216bis §4.4.6.1.1: "@ + media_type + " Group '"@ + group
                    + "' is missing member(s) present in other groups of the same type: "@
                    + joined(listing(missing).map_values(|n: Seq<char>| quoted(n)), ", "@)
                    + ". All groups of the same TYPE MUST have the same set of members."@,
            ),
        ]
    } else {
        seq![]
    }
}

/// Whether no rendition before `i` has the same type.
pub open spec fn is_first_type(rs: Seq<MediaRendition>, i: int) -> bool {
    forall|j: int| 0 <= j < i ==> (#[trigger] rs[j]).media_type@ != rs[i].media_type@
}

/// Whether no rendition before `i` is in the same group.
pub open spec fn is_first_group(rs: Seq<MediaRendition>, i: int) -> bool {
    forall|j: int|
        0 <= j < i ==> !((#[trigger] rs[j]).media_type@ == rs[i].media_type@ && rs[j].group_id@
            == rs[i].group_id@)
}

pub open spec fn group_rule(rs: Seq<MediaRendition>, i: int) -> spec_fn(int) -> Seq<IssueView> {
    |j: int|
        if rs[j].media_type@ == rs[i].media_type@ && is_first_group(rs, j) {
            group_findings(rs, rs[j].media_type@, rs[j].group_id@)
        } else {
            seq![]
        }
}

pub open spec fn type_rule(rs: Seq<MediaRendition>) -> spec_fn(int) -> Seq<IssueView> {
    |i: int|
        if is_first_type(rs, i) {
            gathered(rs.len(), group_rule(rs, i))
        } else {
            seq![]
        }
}

/// The findings on the members of rendition groups, type by type and group by
/// group.
pub open spec fn membership_findings(rs: Seq<MediaRendition>) -> Seq<IssueView> {
    gathered(rs.len(), type_rule(rs))
}

/// The names picked from a list are the names of the positions picked.
proof fn lemma_picked_names(rs: Seq<MediaRendition>, p: spec_fn(int) -> bool, x: Seq<char>)
    ensures
        picked(rs.len(), p).map_values(|k: int| rs[k].name@).to_set().contains(x) <==> exists|k:
            int|
            0 <= k < rs.len() && p(k) && (#[trigger] rs[k]).name@ == x,
{
    crate::gather::lemma_picked(rs.len(), p);
    let m = picked(rs.len(), p);
    let names = m.map_values(|k: int| rs[k].name@);
    if names.contains(x) {
        let i = choose|i: int| 0 <= i < names.len() && names[i] == x;
        assert(rs[m[i]].name@ == x);
    }
    if exists|k: int| 0 <= k < rs.len() && p(k) && (#[trigger] rs[k]).name@ == x {
        let k = choose|k: int| 0 <= k < rs.len() && p(k) && (#[trigger] rs[k]).name@ == x;
        assert(m.contains(k));
        let i = choose|i: int| 0 <= i < m.len() && m[i] == k;
        assert(names[i] == x);
    }
}

/// The names of the renditions of a group.
fn collect_members(rs: &[MediaRendition], media_type: &str, group: &str) -> (r: NameSet)
    ensures
        r@ == group_names(rs@, media_type@, group@),
{
    let ghost p = in_group(rs@, media_type@, group@);
    let mut r = NameSet::new();
    let mut k: usize = 0;
    while k < rs.len()
        invariant
            k <= rs.len(),
            p == in_group(rs@, media_type@, group@),
            forall|x: Seq<char>| #[trigger]
                r@.contains(x) <==> exists|n: int|
                    0 <= n < k && p(n) && (#[trigger] rs@[n]).name@ == x,
        decreases rs.len() - k,
    {
        let ghost before = r@;
        if same_text(rs[k].media_type.as_str(), media_type) && same_text(
            rs[k].group_id.as_str(),
            group,
        ) {
            r.insert(rs[k].name.clone());
        }
        proof {
            assert forall|x: Seq<char>| #[trigger] r@.contains(x) <==> exists|n: int|
                0 <= n < k + 1 && p(n) && (#[trigger] rs@[n]).name@ == x by {
                assert(before.contains(x) <==> exists|n: int|
                    0 <= n < k && p(n) && (#[trigger] rs@[n]).name@ == x);
                if p(k as int) && rs@[k as int].name@ == x {
                    assert(r@.contains(x));
                }
            }
        }
        k = k + 1;
    }
    proof {
        assert forall|x: Seq<char>| r@.contains(x) <==> group_names(
            rs@,
            media_type@,
            group@,
        ).contains(x) by {
            lemma_picked_names(rs@, p, x);
        }
        assert(r@ =~= group_names(rs@, media_type@, group@));
    }
    r
}

/// The names that other groups of the type have and this group does not.
fn collect_missing(rs: &[MediaRendition], media_type: &str, group: &str) -> (r: NameSet)
    ensures
        r@ == missing_names(rs@, media_type@, group@),
{
    let present = collect_members(rs, media_type, group);
    let ghost p = of_type(rs@, media_type@);
    let mut r = NameSet::new();
    let mut k: usize = 0;
    while k < rs.len()
        invariant
            k <= rs.len(),
            p == of_type(rs@, media_type@),
            present@ == group_names(rs@, media_type@, group@),
            forall|x: Seq<char>| #[trigger]
                r@.contains(x) <==> !present@.contains(x) && exists|n: int|
                    0 <= n < k && p(n) && (#[trigger] rs@[n]).name@ == x,
        decreases rs.len() - k,
    {
        let ghost before = r@;
        if same_text(rs[k].media_type.as_str(), media_type) && !present.contains(
            rs[k].name.as_str(),
        ) {
            r.insert(rs[k].name.clone());
        }
        proof {
            assert forall|x: Seq<char>| #[trigger] r@.contains(x) <==> !present@.contains(x)
                && exists|n: int| 0 <= n < k + 1 && p(n) && (#[trigger] rs@[n]).name@ == x by {
                assert(before.contains(x) <==> !present@.contains(x) && exists|n: int|
                    0 <= n < k && p(n) && (#[trigger] rs@[n]).name@ == x);
                if p(k as int) && rs@[k as int].name@ == x && !present@.contains(x) {
                    assert(r@.contains(x));
                }
            }
        }
        k = k + 1;
    }
    proof {
        assert forall|x: Seq<char>| r@.contains(x) <==> missing_names(
            rs@,
            media_type@,
            group@,
        ).contains(x) by {
            lemma_picked_names(rs@, p, x);
        }
        assert(r@ =~= missing_names(rs@, media_type@, group@));
    }
    r
}

/// The names, each in single quotes.
fn quote_all(names: &[String]) -> (r: Vec<String>)
    ensures
        texts(r@) == texts(names@).map_values(|n: Seq<char>| quoted(n)),
{
    let ghost all = texts(names@).map_values(|n: Seq<char>| quoted(n));
    let mut r: Vec<String> = Vec::new();
    let mut i: usize = 0;
    while i < names.len()
        invariant
            i <= names.len(),
            all == texts(names@).map_values(|n: Seq<char>| quoted(n)),
            texts(r@) == all.take(i as int),
        decreases names.len() - i,
    {
        add_text(&mut r, "'".to_owned().concat(names[i].as_str()).concat("'"));
        i = i + 1;
        assert(texts(r@) =~= all.take(i as int));
    }
    assert(all.take(i as int) =~= all);
    r
}

/// Whether no rendition before `i` has the same type.
fn first_type(rs: &[MediaRendition], i: usize) -> (r: bool)
    requires
        i < rs.len(),
    ensures
        r == is_first_type(rs@, i as int),
{
    let mut j: usize = 0;
    while j < i
        invariant
            j <= i < rs.len(),
            forall|k: int|
                0 <= k < j ==> (#[trigger] rs@[k]).media_type@ != rs@[i as int].media_type@,
        decreases i - j,
    {
        if same_text(rs[j].media_type.as_str(), rs[i].media_type.as_str()) {
            return false;
        }
        j = j + 1;
    }
    true
}

/// Whether no rendition before `i` is in the same group.
fn first_group(rs: &[MediaRendition], i: usize) -> (r: bool)
    requires
        i < rs.len(),
    ensures
        r == is_first_group(rs@, i as int),
{
    let mut j: usize = 0;
    while j < i
        invariant
            j <= i < rs.len(),
            forall|k: int|
                0 <= k < j ==> !((#[trigger] rs@[k]).media_type@ == rs@[i as int].media_type@
                    && rs@[k].group_id@ == rs@[i as int].group_id@),
        decreases i - j,
    {
        if same_text(rs[j].media_type.as_str(), rs[i].media_type.as_str()) && same_text(
            rs[j].group_id.as_str(),
            rs[i].group_id.as_str(),
        ) {
            return false;
        }
        j = j + 1;
    }
    true
}

/// Checks the groups of the type of rendition `i`.
fn check_groups(rs: &[MediaRendition], i: usize, issues: &mut Vec<Issue>)
    requires
        i < rs.len(),
    ensures
        findings(final(issues)@) == findings(old(issues)@) + gathered(
            rs@.len(),
            group_rule(rs@, i as int),
        ),
{
    let ghost rule = group_rule(rs@, i as int);
    let ghost before = findings(issues@);
    assert(before + gathered(0, rule) =~= before);
    let mut j: usize = 0;
    while j < rs.len()
        invariant
            i < rs.len(),
            j <= rs.len(),
            rule == group_rule(rs@, i as int),
            findings(issues@) == before + gathered(j as nat, rule),
        decreases rs.len() - j,
    {
        let media_type = rs[j].media_type.as_str();
        let group = rs[j].group_id.as_str();
        if same_text(media_type, rs[i].media_type.as_str()) && first_group(rs, j) {
            let missing = collect_missing(rs, media_type, group);
            if !missing.is_empty() {
                let shown = quote_all(missing.names());
                report(
                    issues,
                    Issue::error(
                        "rfc8216bis §4.4.6.1.1: ".to_owned().concat(media_type).concat(
                            " Group '",
                        ).concat(group).concat(
                            "' is missing member(s) present in other groups of the same type: ",
                        ).concat(join(shown.as_slice(), ", ").as_str()).concat(
                            ". All groups of the same TYPE MUST have the same set of members.",
                        ),
                    ),
                );
            }
        }
        j = j + 1;
        assert(findings(issues@) =~= before + gathered(j as nat, rule));
    }
}

/// The groups of one type all have members of the same names.
pub fn check_media_group_membership(master: &MasterPlaylist) -> (r: Vec<Issue>)
    ensures
        findings(r@) == named(
            CheckId::MediaGroupMembership,
            membership_findings(master.media_renditions@),
        ),
        all_raised_by(findings(r@), CheckId::MediaGroupMembership),
{
    let rs = master.media_renditions.as_slice();
    let mut issues: Vec<Issue> = Vec::new();
    let mut i: usize = 0;
    while i < rs.len()
        invariant
            i <= rs.len(),
            findings(issues@) == gathered(i as nat, type_rule(rs@)),
        decreases rs.len() - i,
    {
        if first_type(rs, i) {
            check_groups(rs, i, &mut issues);
        }
        i = i + 1;
        assert(findings(issues@) =~= gathered(i as nat, type_rule(rs@)));
    }
    proof {
        assert forall|k: int| 0 <= k < rs@.len() implies all_raised_by(
            #[trigger] type_rule(rs@)(k),
            CheckId::Unassigned,
        ) by {
            lemma_gathered_raised_by(rs@.len(), group_rule(rs@, k), CheckId::Unassigned);
        }
        lemma_gathered_raised_by(rs@.len(), type_rule(rs@), CheckId::Unassigned);
    }
    produced_by(CheckId::MediaGroupMembership, issues)
}

/// The identifiers of the groups of a type.
pub open spec fn group_ids(rs: Seq<MediaRendition>, media_type: Seq<char>) -> Set<Seq<char>> {
    picked(rs.len(), of_type(rs, media_type)).map_values(|k: int| rs[k].group_id@).to_set()
}

/// The identifiers of the groups of a type, or that there are none.
pub open spec fn known_groups(rs: Seq<MediaRendition>, media_type: Seq<char>) -> Seq<char> {
    let ids = group_ids(rs, media_type);
    if ids.len() == 0 {
        "(none)"@
    } else {
        joined(listing(ids), ", "@)
    }
}

/// A group that an entry names is one that some rendition of the type is in.
pub open spec fn reference_findings(
    rs: Seq<MediaRendition>,
    uri: Seq<char>,
    attr: Seq<char>,
    referenced: Option<Seq<char>>,
) -> Seq<IssueView> {
    match referenced {
        Some(group) => if group_ids(rs, attr).contains(group) {
            seq![]
        } else {
            seq![
                IssueView::on_uri(
                    Severity::Error,
                    uri,
                    "rfc8216bis §4.4.6.2: EXT-X-STREAM-INF for URI '"@ + uri + "' has "@ + attr
                        + "=\""@ + group + "\" but no EXT-X-MEDIA tag with TYPE="@ + attr
                        + " declares that GROUP-ID. The attribute value MUST match the GROUP-ID of a Rendition Group of that type (declared "@
                        + attr + " groups: "@ + known_groups(rs, attr) + ")."@,
                ),
            ]
        },
        None => seq![],
    }
}

/// The closed captions group that an entry names; `NONE` names no group.
pub open spec fn caption_group(v: MasterRendition) -> Option<Seq<char>> {
    if optional(v.closed_captions) == Some("NONE"@) {
        None
    } else {
        optional(v.closed_captions)
    }
}

/// The groups that an entry names are all declared.
pub open spec fn entry_findings(rs: Seq<MediaRendition>, v: MasterRendition) -> Seq<IssueView> {
    reference_findings(rs, v.uri@, "AUDIO"@, optional(v.audio_group)) + reference_findings(
        rs,
        v.uri@,
        "SUBTITLES"@,
        optional(v.subtitle_group),
    ) + reference_findings(rs, v.uri@, "CLOSED-CAPTIONS"@, caption_group(v))
        + reference_findings(rs, v.uri@, "VIDEO"@, optional(v.video_group))
}

pub open spec fn reference_rule(
    rs: Seq<MediaRendition>,
    vs: Seq<MasterRendition>,
) -> spec_fn(int) -> Seq<IssueView> {
    |i: int| entry_findings(rs, vs[i])
}

/// The identifiers of the groups of a type.
fn collect_groups(rs: &[MediaRendition], media_type: &str) -> (r: NameSet)
    ensures
        r@ == group_ids(rs@, media_type@),
{
    let ghost p = of_type(rs@, media_type@);
    let ghost f = |k: int| rs@[k].group_id@;
    let mut r = NameSet::new();
    let mut k: usize = 0;
    assert(picked(0, p).map_values(f).to_set() =~= Set::<Seq<char>>::empty());
    while k < rs.len()
        invariant
            k <= rs.len(),
            p == of_type(rs@, media_type@),
            f == |k: int| rs@[k].group_id@,
            r@ == picked(k as nat, p).map_values(f).to_set(),
        decreases rs.len() - k,
    {
        if same_text(rs[k].media_type.as_str(), media_type) {
            r.insert(rs[k].group_id.clone());
            proof {
                let m = picked(k as nat, p);
                assert(picked((k + 1) as nat, p) == m.push(k as int));
                m.lemma_push_map_commute(f, k as int);
                m.map_values(f).lemma_push_to_set_commute(f(k as int));
            }
        }
        k = k + 1;
    }
    r
}

/// Checks one group that an entry names.
fn check_reference(
    defined: &NameSet,
    uri: &str,
    attr: &str,
    referenced: &Option<String>,
    issues: &mut Vec<Issue>,
    rs: Ghost<Seq<MediaRendition>>,
)
    requires
        defined@ == group_ids(rs@, attr@),
    ensures
        findings(final(issues)@) == findings(old(issues)@) + reference_findings(
            rs@,
            uri@,
            attr@,
            optional(*referenced),
        ),
{
    if let Some(group) = referenced {
        if !defined.contains(group.as_str()) {
            let known = if defined.is_empty() {
                "(none)".to_owned()
            } else {
                defined.join(", ")
            };
            report(
                issues,
                Issue::on_uri(
                    Severity::Error,
                    uri,
                    "rfc8216bis §4.4.6.2: EXT-X-STREAM-INF for URI '".to_owned().concat(
                        uri,
                    ).concat("' has ").concat(attr).concat("=\"").concat(group.as_str()).concat(
                        "\" but no EXT-X-MEDIA tag with TYPE=",
                    ).concat(attr).concat(
                        " declares that GROUP-ID. The attribute value MUST match the GROUP-ID of a Rendition Group of that type (declared ",
                    ).concat(attr).concat(" groups: ").concat(known.as_str()).concat(")."),
                ),
            );
        }
    }
    assert(findings(issues@) =~= findings(old(issues)@) + reference_findings(
        rs@,
        uri@,
        attr@,
        optional(*referenced),
    ));
}

/// Checks the groups that one entry names.
fn check_entry(
    v: &MasterRendition,
    defined: (&NameSet, &NameSet, &NameSet, &NameSet),
    issues: &mut Vec<Issue>,
    rs: Ghost<Seq<MediaRendition>>,
)
    requires
        defined.0@ == group_ids(rs@, "AUDIO"@),
        defined.1@ == group_ids(rs@, "SUBTITLES"@),
        defined.2@ == group_ids(rs@, "CLOSED-CAPTIONS"@),
        defined.3@ == group_ids(rs@, "VIDEO"@),
    ensures
        findings(final(issues)@) == findings(old(issues)@) + entry_findings(rs@, *v),
{
    let ghost before = findings(issues@);
    let uri = v.uri.as_str();
    let caption = if is_text(&v.closed_captions, "NONE") {
        None
    } else {
        v.closed_captions.clone()
    };
    assert(optional(caption) == caption_group(*v));
    check_reference(defined.0, uri, "AUDIO", &v.audio_group, issues, rs);
    check_reference(defined.1, uri, "SUBTITLES", &v.subtitle_group, issues, rs);
    check_reference(defined.2, uri, "CLOSED-CAPTIONS", &caption, issues, rs);
    check_reference(defined.3, uri, "VIDEO", &v.video_group, issues, rs);
    assert(findings(issues@) =~= before + entry_findings(rs@, *v));
}

/// Every group that a variant stream names is declared by a rendition of that
/// type.
pub fn check_rendition_group_references(master: &MasterPlaylist) -> (r: Vec<Issue>)
    ensures
        findings(r@) == named(
            CheckId::RenditionGroupReferences,
            gathered(
                master.variants@.len(),
                reference_rule(master.media_renditions@, master.variants@),
            ),
        ),
        all_raised_by(findings(r@), CheckId::RenditionGroupReferences),
{
    let vs = master.variants.as_slice();
    let rs = master.media_renditions.as_slice();
    let audio = collect_groups(rs, "AUDIO");
    let subtitles = collect_groups(rs, "SUBTITLES");
    let captions = collect_groups(rs, "CLOSED-CAPTIONS");
    let video = collect_groups(rs, "VIDEO");
    let ghost rule = reference_rule(rs@, vs@);
    let mut issues: Vec<Issue> = Vec::new();
    let mut i: usize = 0;
    while i < vs.len()
        invariant
            i <= vs.len(),
            rule == reference_rule(rs@, vs@),
            audio@ == group_ids(rs@, "AUDIO"@),
            subtitles@ == group_ids(rs@, "SUBTITLES"@),
            captions@ == group_ids(rs@, "CLOSED-CAPTIONS"@),
            video@ == group_ids(rs@, "VIDEO"@),
            findings(issues@) == gathered(i as nat, rule),
        decreases vs.len() - i,
    {
        check_entry(&vs[i], (&audio, &subtitles, &captions, &video), &mut issues, Ghost(rs@));
        i = i + 1;
    }
    proof {
        lemma_gathered_raised_by(vs@.len(), rule, CheckId::Unassigned);
    }
    produced_by(CheckId::RenditionGroupReferences, issues)
}

} // verus!
