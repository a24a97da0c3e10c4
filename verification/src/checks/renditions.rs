//! Renditions of one presentation, compared with each other.
use crate::gather::{
    all_raised_by, disagree, gathered, lemma_disagree, lemma_gathered_raised_by, picked,
};
use crate::names::{listing, NameSet};
use crate::text::{
    add_text, debug_text, decimal, join, joined, number, same_text, text_debug, texts,
};
use crate::types::{
    findings, named, produced_by, report, CheckId, Issue, IssueView, MediaPlaylist, Severity,
};
use vstd::prelude::*;

verus! {

/// The discontinuity sequence number of each playlist.
pub open spec fn discontinuities(playlists: Seq<MediaPlaylist>) -> Seq<u64> {
    playlists.map_values(|pl: MediaPlaylist| pl.discontinuity_sequence)
}

/// The names of the playlists with their discontinuity sequence numbers.
pub open spec fn discontinuity_details(playlists: Seq<MediaPlaylist>) -> Seq<Seq<char>> {
    playlists.map_values(
        |pl: MediaPlaylist| pl.name@ + "="@ + decimal(pl.discontinuity_sequence as nat),
    )
}

/// The playlists have the same discontinuity sequence number.
pub open spec fn discontinuity_findings(playlists: Seq<MediaPlaylist>) -> Seq<IssueView> {
    if disagree(discontinuities(playlists)) {
        seq![
            IssueView::general(
                Severity::Error,
                "rfc8216bis §6.2.4: EXT-X-DISCONTINUITY-SEQUENCE values differ across renditions: "@
                    + joined(discontinuity_details(playlists), ", "@)
                    + ". Renditions of the same presentation MUST carry matching discontinuity sequence numbers so clients can align their timelines."@,
            ),
        ]
    } else {
        seq![]
    }
}

/// The renditions of a presentation have the same discontinuity sequence
/// number. Clients synchronise renditions by it before they can align their
/// timelines.
pub fn check_discontinuity_sequence(playlists: &[MediaPlaylist]) -> (r: Vec<Issue>)
    ensures
        findings(r@) == named(
            CheckId::DiscontinuitySequence,
            discontinuity_findings(playlists@),
        ),
        all_raised_by(findings(r@), CheckId::DiscontinuitySequence),
{
    let ghost all = discontinuities(playlists@);
    let mut issues: Vec<Issue> = Vec::new();
    let mut details: Vec<String> = Vec::new();
    let mut differ = false;
    let mut i: usize = 0;
    while i < playlists.len()
        invariant
            i <= playlists.len(),
            all == discontinuities(playlists@),
            texts(details@) == discontinuity_details(playlists@).take(i as int),
            differ == exists|k: int| 0 <= k < i && #[trigger] all[k] != all[0],
        decreases playlists.len() - i,
    {
        let pl = &playlists[i];
        assert(all[i as int] == pl.discontinuity_sequence);
        if pl.discontinuity_sequence != playlists[0].discontinuity_sequence {
            differ = true;
        }
        assert(all[0] == playlists@[0].discontinuity_sequence);
        add_text(
            &mut details,
            pl.name.as_str().to_owned().concat("=").concat(
                number(pl.discontinuity_sequence as u128).as_str(),
            ),
        );
        i = i + 1;
        assert(texts(details@) =~= discontinuity_details(playlists@).take(i as int));
    }
    proof {
        assert(discontinuity_details(playlists@).take(i as int) =~= discontinuity_details(
            playlists@,
        ));
        lemma_disagree(all);
    }
    if differ {
        report(
            &mut issues,
            Issue::error(
                "rfc8216bis §6.2.4: EXT-X-DISCONTINUITY-SEQUENCE values differ across renditions: ".to_owned().concat(
                    join(details.as_slice(), ", ").as_str(),
                ).concat(
                    ". Renditions of the same presentation MUST carry matching discontinuity sequence numbers so clients can align their timelines.",
                ),
            ),
        );
    }
    assert(findings(issues@) =~= discontinuity_findings(playlists@));
    produced_by(CheckId::DiscontinuitySequence, issues)
}

/// Whether the segments of the playlist are counted: those of finished video
/// renditions are. Audio is cut into segments at other places than video.
pub open spec fn is_counted(pl: MediaPlaylist) -> bool {
    pl.has_endlist && pl.media_type@ == "VIDEO"@ && !pl.is_iframe
}

pub open spec fn counted_at(playlists: Seq<MediaPlaylist>) -> spec_fn(int) -> bool {
    |i: int| is_counted(playlists[i])
}

/// The playlists whose segments are counted.
pub open spec fn counted(playlists: Seq<MediaPlaylist>) -> Seq<MediaPlaylist> {
    picked(playlists.len(), counted_at(playlists)).map_values(|i: int| playlists[i])
}

/// How many segments each playlist has.
pub open spec fn counts(pls: Seq<MediaPlaylist>) -> Seq<nat> {
    pls.map_values(|pl: MediaPlaylist| pl.segments@.len())
}

/// The names of the playlists with how many segments they have.
pub open spec fn count_details(pls: Seq<MediaPlaylist>) -> Seq<Seq<char>> {
    pls.map_values(|pl: MediaPlaylist| pl.name@ + "="@ + decimal(pl.segments@.len()))
}

/// The playlists have the same number of segments.
pub open spec fn count_findings(pls: Seq<MediaPlaylist>) -> Seq<IssueView> {
    if disagree(counts(pls)) {
        seq![
            IssueView::general(
                Severity::Warn,
                "Segment count mismatch across VIDEO renditions: "@ + joined(
                    count_details(pls),
                    ", "@,
                ) + ". All video renditions should have the same number of segments."@,
            ),
        ]
    } else {
        seq![]
    }
}

/// Finished video renditions have the same number of segments.
pub fn check_segment_count(playlists: &[MediaPlaylist]) -> (r: Vec<Issue>)
    ensures
        findings(r@) == named(CheckId::SegmentCount, count_findings(counted(playlists@))),
        all_raised_by(findings(r@), CheckId::SegmentCount),
{
    let ghost p = counted_at(playlists@);
    let ghost at = |i: int| playlists@[i];
    let mut issues: Vec<Issue> = Vec::new();
    let mut details: Vec<String> = Vec::new();
    let mut first: Option<usize> = None;
    let mut differ = false;
    let mut i: usize = 0;
    while i < playlists.len()
        invariant
            i <= playlists.len(),
            p == counted_at(playlists@),
            at == |i: int| playlists@[i],
            texts(details@) == count_details(picked(i as nat, p).map_values(at)),
            first is None <==> picked(i as nat, p).len() == 0,
            first matches Some(n) ==> n == counts(picked(i as nat, p).map_values(at))[0],
            differ == exists|k: int|
                0 <= k < counts(picked(i as nat, p).map_values(at)).len() && #[trigger] counts(
                    picked(i as nat, p).map_values(at),
                )[k] != counts(picked(i as nat, p).map_values(at))[0],
        decreases playlists.len() - i,
    {
        let pl = &playlists[i];
        let ghost some = picked(i as nat, p).map_values(at);
        let ghost before = counts(some);
        if pl.has_endlist && same_text(pl.media_type.as_str(), "VIDEO") && !pl.is_iframe {
            let n = pl.segments.len();
            match first {
                Some(m) => {
                    if m != n {
                        differ = true;
                    }
                },
                None => {
                    first = Some(n);
                },
            }
            add_text(
                &mut details,
                pl.name.as_str().to_owned().concat("=").concat(number(n as u128).as_str()),
            );
            proof {
                let more = picked((i + 1) as nat, p).map_values(at);
                assert(more =~= some.push(*pl));
                assert(counts(more) =~= before.push(n as nat));
                assert(counts(more)[before.len() as int] == n);
                assert(forall|k: int| 0 <= k < before.len() ==> counts(more)[k] == before[k]);
                assert(texts(details@) =~= count_details(more));
            }
        }
        i = i + 1;
    }
    let ghost pls = counted(playlists@);
    proof {
        assert(pls =~= picked(i as nat, p).map_values(at));
        lemma_disagree(counts(pls));
    }
    if differ {
        report(
            &mut issues,
            Issue::warn(
                "Segment count mismatch across VIDEO renditions: ".to_owned().concat(
                    join(details.as_slice(), ", ").as_str(),
                ).concat(". All video renditions should have the same number of segments."),
            ),
        );
    }
    assert(findings(issues@) =~= count_findings(pls));
    produced_by(CheckId::SegmentCount, issues)
}

/// Whether the playlist declares how it is encrypted.
pub open spec fn declares_methods(pl: MediaPlaylist) -> bool {
    pl.encryption_methods@.len() > 0
}

/// Whether playlist `i` stands for its name: of the playlists of one name that
/// declare how they are encrypted, the last does.
pub open spec fn stands_for_name(playlists: Seq<MediaPlaylist>, i: int) -> bool {
    declares_methods(playlists[i]) && forall|j: int|
        i < j < playlists.len() && (#[trigger] playlists[j]).name@ == playlists[i].name@
            ==> !declares_methods(playlists[j])
}

/// Whether methods go together: one method, or clear segments beside segments
/// encrypted by one of the two usual methods.
pub open spec fn is_usual_mix(methods: Set<Seq<char>>) -> bool {
    methods.len() <= 1 || methods.len() == 2 && methods.contains("NONE"@) && (methods.contains(
        "AES-128"@,
    ) || methods.contains("SAMPLE-AES"@))
}

/// A list of texts as it is written for debugging.
pub open spec fn texts_debug(s: Seq<Seq<char>>) -> Seq<char> {
    "["@ + joined(s.map_values(|t: Seq<char>| text_debug(t)), ", "@) + "]"@
}

/// The message on a playlist with the methods written in `shown`.
pub open spec fn mix_message(name: Seq<char>, shown: Seq<char>) -> Seq<char> {
    "RFC 8216bis §4.4.4.4: Playlist '"@ + name + "' uses multiple encryption methods: "@ + shown
        + "."@
}

pub open spec fn mix_rule(playlists: Seq<MediaPlaylist>) -> spec_fn(int) -> Seq<IssueView> {
    |i: int|
        {
            let pl = playlists[i];
            if stands_for_name(playlists, i) && !is_usual_mix(pl.encryption_methods@) {
                seq![
                    IssueView::general(
                        Severity::Warn,
                        mix_message(pl.name@, texts_debug(listing(pl.encryption_methods@))),
                    ),
                ]
            } else {
                seq![]
            }
        }
}

/// Whether playlist `i` counts as encrypted by `method`. Clear segments count
/// only in a playlist that has no others.
pub open spec fn counts_method(
    playlists: Seq<MediaPlaylist>,
    i: int,
    method: Seq<char>,
) -> bool {
    let methods = playlists[i].encryption_methods@;
    stands_for_name(playlists, i) && methods.contains(method) && (method != "NONE"@
        || methods.len() == 1)
}

/// The methods by which the playlists are encrypted.
pub open spec fn all_methods(playlists: Seq<MediaPlaylist>) -> Set<Seq<char>> {
    Set::new(
        |m: Seq<char>|
            exists|i: int| 0 <= i < playlists.len() && #[trigger] counts_method(playlists, i, m),
    )
}

/// The playlists are encrypted by the same method.
pub open spec fn method_findings(playlists: Seq<MediaPlaylist>) -> Seq<IssueView> {
    if all_methods(playlists).len() > 1 {
        seq![
            IssueView::general(
                Severity::Warn,
                "rfc8216bis §4.4.4.4: Renditions declare different EXT-X-KEY METHOD values: "@
                    + joined(listing(all_methods(playlists)), ", "@)
                    + ". Check this is intended — a client that can decrypt one rendition may not be able to switch to another."@,
            ),
        ]
    } else {
        seq![]
    }
}

/// The findings on the encryption of the playlists.
pub open spec fn encryption_findings(playlists: Seq<MediaPlaylist>) -> Seq<IssueView> {
    gathered(playlists.len(), mix_rule(playlists)) + method_findings(playlists)
}

/// Whether playlist `i` stands for its name.
fn represents(playlists: &[MediaPlaylist], i: usize) -> (r: bool)
    requires
        i < playlists.len(),
    ensures
        r == stands_for_name(playlists@, i as int),
{
    if playlists[i].encryption_methods.is_empty() {
        return false;
    }
    let mut j: usize = i + 1;
    while j < playlists.len()
        invariant
            i < j <= playlists.len(),
            forall|k: int|
                i < k < j && (#[trigger] playlists@[k]).name@ == playlists@[i as int].name@
                    ==> !declares_methods(playlists@[k]),
        decreases playlists.len() - j,
    {
        if same_text(playlists[j].name.as_str(), playlists[i].name.as_str())
            && !playlists[j].encryption_methods.is_empty() {
            return false;
        }
        j = j + 1;
    }
    true
}

/// Whether methods go together.
fn usual_mix(methods: &NameSet) -> (r: bool)
    ensures
        r == is_usual_mix(methods@),
{
    let n = methods.len();
    n <= 1 || n == 2 && methods.contains("NONE") && (methods.contains("AES-128")
        || methods.contains("SAMPLE-AES"))
}

/// A list of texts as it is written for debugging.
fn show_texts(s: &[String]) -> (r: String)
    ensures
        r@ == texts_debug(texts(s@)),
{
    let ghost all = texts(s@).map_values(|t: Seq<char>| text_debug(t));
    let mut shown: Vec<String> = Vec::new();
    let mut i: usize = 0;
    while i < s.len()
        invariant
            i <= s.len(),
            all == texts(s@).map_values(|t: Seq<char>| text_debug(t)),
            texts(shown@) == all.take(i as int),
        decreases s.len() - i,
    {
        add_text(&mut shown, debug_text(s[i].as_str()));
        i = i + 1;
        assert(texts(shown@) =~= all.take(i as int));
    }
    assert(all.take(i as int) =~= all);
    "[".to_owned().concat(join(shown.as_slice(), ", ").as_str()).concat("]")
}

/// The warning on a playlist with the methods written in `shown`.
pub fn mix_warning(name: &str, shown: &str) -> (r: Issue)
    ensures
        r@ == IssueView::general(Severity::Warn, mix_message(name@, shown@)),
{
    Issue::warn(
        "RFC 8216bis §4.4.4.4: Playlist '".to_owned().concat(name).concat(
            "' uses multiple encryption methods: ",
        ).concat(shown).concat("."),
    )
}

/// Adds the methods by which playlist `i` counts as encrypted.
fn add_methods(playlists: &[MediaPlaylist], i: usize, methods: &mut NameSet)
    requires
        i < playlists.len(),
        stands_for_name(playlists@, i as int),
    ensures
        forall|m: Seq<char>| #[trigger]
            final(methods)@.contains(m) <==> old(methods)@.contains(m) || counts_method(
                playlists@,
                i as int,
                m,
            ),
{
    let set = &playlists[i].encryption_methods;
    let alone = set.len() == 1;
    let names = set.names();
    let ghost all = texts(names@);
    let mut k: usize = 0;
    while k < names.len()
        invariant
            k <= names.len(),
            i < playlists.len(),
            stands_for_name(playlists@, i as int),
            all == texts(names@),
            all.to_set() == playlists@[i as int].encryption_methods@,
            alone == (playlists@[i as int].encryption_methods@.len() == 1),
            forall|m: Seq<char>| #[trigger]
                methods@.contains(m) <==> old(methods)@.contains(m) || (all.take(
                    k as int,
                ).contains(m) && (m != "NONE"@ || alone)),
        decreases names.len() - k,
    {
        let ghost before = methods@;
        let name = names[k].as_str();
        assert(all[k as int] == name@);
        if !same_text(name, "NONE") || alone {
            methods.insert(name.to_owned());
        }
        proof {
            assert forall|m: Seq<char>| #[trigger]
                methods@.contains(m) <==> old(methods)@.contains(m) || (all.take(
                    k + 1,
                ).contains(m) && (m != "NONE"@ || alone)) by {
                let less = all.take(k as int);
                let more = all.take(k + 1);
                assert(before.contains(m) <==> old(methods)@.contains(m) || (less.contains(m) && (m
                    != "NONE"@ || alone)));
                assert(more[k as int] == name@);
                if less.contains(m) {
                    let n = choose|n: int| 0 <= n < less.len() && less[n] == m;
                    assert(more[n] == m);
                }
                if more.contains(m) && m != name@ {
                    let n = choose|n: int| 0 <= n < more.len() && more[n] == m;
                    assert(less[n] == m);
                }
            }
        }
        k = k + 1;
    }
    proof {
        assert(all.take(k as int) =~= all);
        assert forall|m: Seq<char>| #[trigger]
            methods@.contains(m) <==> old(methods)@.contains(m) || counts_method(
                playlists@,
                i as int,
                m,
            ) by {
            assert(all.to_set().contains(m) <==> all.contains(m));
        }
    }
}

/// Renditions are encrypted by the same method, and each by one method.
///
/// Only playlists that declare how they are encrypted are compared; a playlist
/// that declares nothing does not count as clear. A difference is a warning: a
/// presentation that encrypts its video and leaves another rendition clear
/// does so deliberately, and plays.
pub fn check_encryption_consistency(playlists: &[MediaPlaylist]) -> (r: Vec<Issue>)
    ensures
        findings(r@) == named(CheckId::EncryptionConsistency, encryption_findings(playlists@)),
        all_raised_by(findings(r@), CheckId::EncryptionConsistency),
{
    let mut issues: Vec<Issue> = Vec::new();
    let mut methods = NameSet::new();
    let mut i: usize = 0;
    while i < playlists.len()
        invariant
            i <= playlists.len(),
            findings(issues@) == gathered(i as nat, mix_rule(playlists@)),
            forall|m: Seq<char>| #[trigger]
                methods@.contains(m) <==> exists|k: int|
                    0 <= k < i && #[trigger] counts_method(playlists@, k, m),
        decreases playlists.len() - i,
    {
        let ghost before = methods@;
        if represents(playlists, i) {
            let pl = &playlists[i];
            if !usual_mix(&pl.encryption_methods) {
                let shown = show_texts(pl.encryption_methods.names());
                report(&mut issues, mix_warning(pl.name.as_str(), shown.as_str()));
            }
            add_methods(playlists, i, &mut methods);
        }
        proof {
            assert forall|m: Seq<char>| #[trigger]
                methods@.contains(m) <==> exists|k: int|
                    0 <= k < i + 1 && #[trigger] counts_method(playlists@, k, m) by {
                assert(before.contains(m) <==> exists|k: int|
                    0 <= k < i && #[trigger] counts_method(playlists@, k, m));
                if counts_method(playlists@, i as int, m) {
                    assert(methods@.contains(m));
                }
            }
        }
        i = i + 1;
        assert(findings(issues@) =~= gathered(i as nat, mix_rule(playlists@)));
    }
    let ghost before = findings(issues@);
    assert(methods@ =~= all_methods(playlists@));
    if methods.len() > 1 {
        report(
            &mut issues,
            Issue::warn(
                "rfc8216bis §4.4.4.4: Renditions declare different EXT-X-KEY METHOD values: ".to_owned().concat(
                    methods.join(", ").as_str(),
                ).concat(
                    ". Check this is intended — a client that can decrypt one rendition may not be able to switch to another.",
                ),
            ),
        );
    }
    assert(findings(issues@) =~= before + method_findings(playlists@));
    proof {
        lemma_gathered_raised_by(playlists@.len(), mix_rule(playlists@), CheckId::Unassigned);
    }
    produced_by(CheckId::EncryptionConsistency, issues)
}

} // verus!
