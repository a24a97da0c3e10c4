//! Laws of the interstitials.
use crate::attributes::{attributes, lookup};
use crate::checks::interstitials::{
    asset_faults, choice_faults, date_range, described_before, entries, entry, entry_rule,
    fault_issues, id_faults, interstitial_findings, interstitial_rule, introduces, is_class_line,
    is_label_char, is_update, label_faults, line_entry_rule, line_issue_rule, line_tag_rule,
    list_faults, merged, of_class, or_empty, other_tags, own_or_first, playlist_entries,
    start_faults, stray_chars, tag_faults, tag_id, tag_rule, word_rule, FaultView,
};
use crate::double::Real;
use crate::gather::{gathered, lemma_gathered_origin};
use crate::laws::tags::one_if;
use crate::numeral::numeric;
use crate::text::{has_prefix, has_text, lines_of, pieces, trimmed};
use crate::types::{pairs, InterstitialView, MediaPlaylist, Severity};
use vstd::prelude::*;

verus! {

/// A tag that updates an interstitial gives neither a finding nor another
/// interstitial.
pub proof fn law_updates_add_nothing(pl: MediaPlaylist, i: int)
    requires
        is_update(lines_of(pl.raw_content@), i),
    ensures
        line_issue_rule(pl)(i).len() == 0,
        line_entry_rule(pl)(i).len() == 0,
{
}

/// A playlist without text gives neither findings nor interstitials.
pub proof fn law_empty_playlists_have_none(pl: MediaPlaylist)
    requires
        pl.raw_content@.len() == 0,
    ensures
        interstitial_findings(pl).len() == 0,
        playlist_entries(pl).len() == 0,
{
}

/// The line before `n` that introduces interstitial `k`.
proof fn lemma_entry_lines(pl: MediaPlaylist, n: nat, k: int) -> (i: int)
    requires
        0 <= k < gathered(n, line_entry_rule(pl)).len(),
    ensures
        0 <= i < n,
        introduces(lines_of(pl.raw_content@), i),
        gathered(n, line_entry_rule(pl))[k] == entry(
            date_range(lines_of(pl.raw_content@)[i])->0,
            pl,
        ),
{
    let at = lemma_gathered_origin(n, line_entry_rule(pl), k);
    at.0
}

/// Two interstitials among the first lines do not share an identifier.
proof fn lemma_distinct(pl: MediaPlaylist, n: nat, j: int, k: int)
    requires
        0 <= j < k < gathered(n, line_entry_rule(pl)).len(),
        gathered(n, line_entry_rule(pl))[k].id.len() > 0,
    ensures
        gathered(n, line_entry_rule(pl))[j].id != gathered(n, line_entry_rule(pl))[k].id,
    decreases n,
{
    let all = lines_of(pl.raw_content@);
    let rest = gathered((n - 1) as nat, line_entry_rule(pl));
    if k < rest.len() {
        lemma_distinct(pl, (n - 1) as nat, j, k);
    } else {
        let i = lemma_entry_lines(pl, (n - 1) as nat, j);
        if rest[j].id == gathered(n, line_entry_rule(pl))[k].id {
            assert(is_class_line(all, i));
            assert(described_before(all, n - 1, tag_id(date_range(all[n - 1])->0)));
        }
    }
}

/// Each identifier stands for one interstitial of a playlist: no two that a
/// playlist introduces have the same one, unless they have none.
pub proof fn law_identifiers_are_unique(pl: MediaPlaylist, j: int, k: int)
    requires
        0 <= j < k < playlist_entries(pl).len(),
        playlist_entries(pl)[k].id.len() > 0,
    ensures
        playlist_entries(pl)[j].id != playlist_entries(pl)[k].id,
{
    lemma_distinct(pl, lines_of(pl.raw_content@).len(), j, k);
}

/// How many notes the interstitials have together.
pub open spec fn note_count(s: Seq<InterstitialView>) -> nat
    decreases s.len(),
{
    if s.len() == 0 {
        0
    } else {
        note_count(s.drop_last()) + s.last().errors.len()
    }
}

/// The notes of two lists are those of the one and those of the other.
proof fn lemma_note_count(a: Seq<InterstitialView>, b: Seq<InterstitialView>)
    ensures
        note_count(a + b) == note_count(a) + note_count(b),
    decreases b.len(),
{
    if b.len() == 0 {
        assert(a + b =~= a);
    } else {
        lemma_note_count(a, b.drop_last());
        assert((a + b).drop_last() =~= a + b.drop_last());
        assert((a + b).last() == b.last());
    }
}

/// The lines before `n` give as many notes as findings.
proof fn lemma_line_notes(pl: MediaPlaylist, n: nat)
    ensures
        note_count(gathered(n, line_entry_rule(pl))) == gathered(n, line_issue_rule(pl)).len(),
    decreases n,
{
    if n > 0 {
        lemma_line_notes(pl, (n - 1) as nat);
        let rest = gathered((n - 1) as nat, line_entry_rule(pl));
        let last = line_entry_rule(pl)(n - 1);
        lemma_note_count(rest, last);
        if last.len() > 0 {
            assert(last.drop_last().len() == 0);
            assert(note_count(last.drop_last()) == 0);
            assert(note_count(last) == last.last().errors.len());
        } else {
            assert(note_count(last) == 0);
        }
    }
}

/// Every finding is noted with the interstitial it is about: a playlist has as
/// many findings as its interstitials have notes.
pub proof fn law_findings_are_noted(pl: MediaPlaylist)
    ensures
        note_count(playlist_entries(pl)) == interstitial_findings(pl).len(),
{
    lemma_line_notes(pl, lines_of(pl.raw_content@).len());
}

/// A value of its own is kept.
proof fn lemma_own(
    own: Option<Real>,
    tags: Seq<Seq<(Seq<char>, Seq<char>)>>,
    id: Seq<char>,
    key: Seq<char>,
)
    requires
        own is Some,
    ensures
        own_or_first(own, tags, id, key) == own,
    decreases tags.len(),
{
    if tags.len() > 0 {
        lemma_own(own, tags.drop_last(), id, key);
    }
}

/// Tags of another identifier add nothing.
proof fn lemma_others(
    own: Option<Real>,
    tags: Seq<Seq<(Seq<char>, Seq<char>)>>,
    id: Seq<char>,
    key: Seq<char>,
)
    requires
        forall|i: int| 0 <= i < tags.len() ==> tag_id(#[trigger] tags[i]) != id,
    ensures
        own_or_first(own, tags, id, key) == own,
    decreases tags.len(),
{
    if tags.len() > 0 {
        assert(forall|i: int| 0 <= i < tags.len() - 1 ==> tags.drop_last()[i] == tags[i]);
        lemma_others(own, tags.drop_last(), id, key);
        assert(tags[tags.len() - 1] == tags.last());
    }
}

/// Closing tags only add: they change nothing but the playout limit and the
/// resume offset, and those only where the interstitial has none of its own.
pub proof fn law_closing_tags_only_add(
    list: Seq<InterstitialView>,
    tags: Seq<Seq<(Seq<char>, Seq<char>)>>,
    k: int,
)
    requires
        0 <= k < list.len(),
    ensures
        merged(list, tags).len() == list.len(),
        ({
            let before = list[k];
            let after = merged(list, tags)[k];
            &&& after == (InterstitialView {
                playout_limit: after.playout_limit,
                resume_offset: after.resume_offset,
                ..before
            })
            &&& before.playout_limit is Some ==> after.playout_limit == before.playout_limit
            &&& before.resume_offset is Some ==> after.resume_offset == before.resume_offset
        }),
{
    let v = list[k];
    if v.playout_limit is Some {
        lemma_own(v.playout_limit, tags, v.id, "X-PLAYOUT-LIMIT"@);
    }
    if v.resume_offset is Some {
        lemma_own(v.resume_offset, tags, v.id, "X-RESUME-OFFSET"@);
    }
}

/// Closing tags are paired by identifier: without a tag of its identifier an
/// interstitial stays as it is.
pub proof fn law_closing_tags_are_paired(
    list: Seq<InterstitialView>,
    tags: Seq<Seq<(Seq<char>, Seq<char>)>>,
    k: int,
)
    requires
        0 <= k < list.len(),
        forall|i: int| 0 <= i < tags.len() ==> tag_id(#[trigger] tags[i]) != list[k].id,
    ensures
        merged(list, tags)[k] == list[k],
{
    let v = list[k];
    lemma_others(v.playout_limit, tags, v.id, "X-PLAYOUT-LIMIT"@);
    lemma_others(v.resume_offset, tags, v.id, "X-RESUME-OFFSET"@);
}

/// Whether a line is an EXT-X-DATERANGE tag whose class holds that of the
/// interstitials.
pub open spec fn is_interstitial(line: Seq<char>) -> bool {
    date_range(line) matches Some(a) && lookup(a, "CLASS"@) matches Some(class) && has_text(
        class,
        "com.apple.hls.interstitial"@,
    )
}

/// Whether the tags of two lines have the same identifier, and it is not
/// empty.
pub open spec fn share_identifier(line: Seq<char>, other: Seq<char>) -> bool {
    lookup(date_range(line)->0, "ID"@) matches Some(id) && id.len() > 0 && lookup(
        date_range(other)->0,
        "ID"@,
    ) == Some(id)
}

/// A line is an EXT-X-DATERANGE tag exactly when it begins with it, but for
/// white space; what follows are its attributes.
pub proof fn law_date_ranges(line: Seq<char>, rest: Seq<char>)
    ensures
        date_range(line) is Some <==> has_prefix(trimmed(line), "#EXT-X-DATERANGE:"@),
        trimmed(line) == "#EXT-X-DATERANGE:"@ + rest ==> date_range(line) == Some(attributes(rest)),
{
    let tag = "#EXT-X-DATERANGE:"@;
    if trimmed(line) == tag + rest {
        assert((tag + rest).take(tag.len() as int) =~= tag);
        assert((tag + rest).skip(tag.len() as int) =~= rest);
    }
}

/// A class that is not given is not that of the interstitials.
proof fn lemma_class(all: Seq<Seq<char>>, i: int)
    ensures
        is_class_line(all, i) == is_interstitial(all[i]),
        date_range(all[i]) is Some ==> of_class(date_range(all[i])->0) == is_interstitial(all[i]),
{
    reveal_strlit("com.apple.hls.interstitial");
}

/// Each line is read by itself, but for the lines before it that it may
/// update: what a playlist gives is what its lines give, in their order. A line
/// gives an interstitial exactly when it is a tag of the interstitial class and
/// no such tag before it has the same identifier; only such a line has
/// findings. The other date ranges are kept to complete the interstitials.
pub proof fn law_interstitials_are_introduced(playlists: Seq<MediaPlaylist>, i: int, n: int)
    requires
        0 <= i < playlists.len(),
        0 <= n < lines_of(playlists[i].raw_content@).len(),
    ensures
        ({
            let pl = playlists[i];
            let all = lines_of(pl.raw_content@);
            let new = is_interstitial(all[n]) && !exists|j: int|
                0 <= j < n && is_interstitial(#[trigger] all[j]) && share_identifier(
                    all[n],
                    all[j],
                );
            &&& entries(playlists) == gathered(playlists.len(), entry_rule(playlists))
            &&& other_tags(playlists) == gathered(playlists.len(), tag_rule(playlists))
            &&& interstitial_rule(playlists)(i) == gathered(all.len(), line_issue_rule(pl))
            &&& entry_rule(playlists)(i) == gathered(all.len(), line_entry_rule(pl))
            &&& tag_rule(playlists)(i) == gathered(all.len(), line_tag_rule(pl))
            &&& line_entry_rule(pl)(n).len() == one_if(new)
            &&& new ==> line_issue_rule(pl)(n) == fault_issues(
                tag_faults(date_range(all[n])->0, pl.name@),
                pl.name@,
            )
            &&& !new ==> line_issue_rule(pl)(n).len() == 0
            &&& line_tag_rule(pl)(n).len() == one_if(
                date_range(all[n]) is Some && !is_interstitial(all[n]),
            )
            &&& line_tag_rule(pl)(n).len() == 1 ==> line_tag_rule(pl)(n)[0] == date_range(
                all[n],
            )->0
        }),
{
    let all = lines_of(playlists[i].raw_content@);
    lemma_class(all, n);
    let id = tag_id(date_range(all[n])->0);
    if is_interstitial(all[n]) && is_update(all, n) {
        let j = choose|j: int|
            0 <= j < n && #[trigger] is_class_line(all, j) && tag_id(date_range(all[j])->0) == id;
        lemma_class(all, j);
        assert(share_identifier(all[n], all[j]));
    }
    if exists|j: int|
        0 <= j < n && is_interstitial(#[trigger] all[j]) && share_identifier(all[n], all[j]) {
        let j = choose|j: int|
            0 <= j < n && is_interstitial(#[trigger] all[j]) && share_identifier(all[n], all[j]);
        lemma_class(all, j);
        assert(is_class_line(all, j));
    }
}

/// The interstitial that a tag introduces has its attributes, each under its
/// own name, and belongs to the playlist that the tag stands in.
pub proof fn law_interstitials_have_their_attributes(
    playlists: Seq<MediaPlaylist>,
    i: int,
    n: int,
)
    requires
        0 <= i < playlists.len(),
        0 <= n < lines_of(playlists[i].raw_content@).len(),
        line_entry_rule(playlists[i])(n).len() > 0,
    ensures
        ({
            let pl = playlists[i];
            let a = date_range(lines_of(pl.raw_content@)[n])->0;
            let v = line_entry_rule(pl)(n)[0];
            &&& v.rendition == pl.name@
            &&& v.rendition_url == pl.url@
            &&& v.definitions == pairs(pl.definitions@)
            &&& lookup(a, "ID"@) is Some ==> lookup(a, "ID"@) == Some(v.id)
            &&& lookup(a, "ID"@) is None ==> v.id.len() == 0
            &&& lookup(a, "START-DATE"@) is Some ==> lookup(a, "START-DATE"@) == Some(
                v.start_date,
            )
            &&& lookup(a, "START-DATE"@) is None ==> v.start_date.len() == 0
            &&& v.asset_uri == lookup(a, "X-ASSET-URI"@)
            &&& v.asset_list == lookup(a, "X-ASSET-LIST"@)
            &&& v.resume_offset == numeric(lookup(a, "X-RESUME-OFFSET"@))
            &&& v.playout_limit == numeric(lookup(a, "X-PLAYOUT-LIMIT"@))
            &&& v.planned_duration_s == numeric(lookup(a, "PLANNED-DURATION"@))
            &&& v.snap == lookup(a, "X-SNAP"@)
            &&& v.cue == lookup(a, "X-CUE"@)
            &&& v.timeline_style == lookup(a, "X-TIMELINE-STYLE"@)
            &&& v.start_offset_s is None
            &&& v.content_duration_s.bits == 0
            &&& v.errors == tag_faults(a, pl.name@).map_values(|f: FaultView| f.note)
        }),
{
}

/// The numbers that the positions give are as many as the positions picked.
proof fn lemma_filtered<T>(
    s: Seq<Seq<char>>,
    n: nat,
    f: spec_fn(int) -> Seq<T>,
    p: spec_fn(Seq<char>) -> bool,
)
    requires
        n <= s.len(),
        forall|i: int| 0 <= i < n ==> (#[trigger] f(i)).len() == one_if(p(s[i])),
    ensures
        gathered(n, f).len() == s.take(n as int).filter(p).len(),
    decreases n,
{
    reveal(Seq::filter);
    if n > 0 {
        lemma_filtered(s, (n - 1) as nat, f, p);
        assert(s.take(n as int).drop_last() =~= s.take(n - 1));
        assert(f(n - 1).len() == one_if(p(s[n - 1])));
    }
}

/// How many words of a comma-separated list are, but for white space, neither
/// the one nor the other of two words.
pub open spec fn other_words(value: Option<Seq<char>>, one: Seq<char>, two: Seq<char>) -> nat {
    match value {
        Some(v) => pieces(v, ',').filter(
            |w: Seq<char>| !(trimmed(w) == one || trimmed(w) == two),
        ).len(),
        None => 0,
    }
}

/// A list of words has a warning for each that is not allowed.
proof fn lemma_words(
    id: Seq<char>,
    key: Seq<char>,
    value: Option<Seq<char>>,
    one: Seq<char>,
    two: Seq<char>,
    allowed: Seq<char>,
    name: Seq<char>,
)
    ensures
        ({
            let found = list_faults(id, key, value, one, two, allowed, name);
            &&& found.len() == other_words(value, one, two)
            &&& forall|k: int|
                0 <= k < found.len() ==> (#[trigger] found[k]).severity == Severity::Warn
        }),
{
    if let Some(v) = value {
        let s = pieces(v, ',');
        let f = word_rule(id, key, v, one, two, allowed, name);
        let p = |w: Seq<char>| !(trimmed(w) == one || trimmed(w) == two);
        lemma_filtered(s, s.len(), f, p);
        assert(s.take(s.len() as int) =~= s);
        let found = list_faults(id, key, value, one, two, allowed, name);
        assert forall|k: int| 0 <= k < found.len() implies (#[trigger] found[k]).severity
            == Severity::Warn by {
            let at = lemma_gathered_origin(s.len(), f, k);
            assert(f(at.0)[at.1].severity == Severity::Warn);
        }
    }
}

/// Whether a value is given and is neither the one nor the other of two texts.
pub open spec fn is_other(value: Option<Seq<char>>, one: Seq<char>, two: Seq<char>) -> bool {
    value is Some && value != Some(one) && value != Some(two)
}

/// Whether a character is neither a letter of ASCII nor `-` nor `_`.
pub open spec fn is_stray(c: char) -> bool {
    (c < 'A' || 'Z' < c) && (c < 'a' || 'z' < c) && c != '-' && c != '_'
}

/// Whether a value is given and holds a character that is neither a letter of
/// ASCII nor `-` nor `_`.
pub open spec fn has_stray(value: Option<Seq<char>>) -> bool {
    value matches Some(v) && some_stray(v)
}

/// Whether a text holds a character that is neither a letter of ASCII nor `-`
/// nor `_`.
pub open spec fn some_stray(v: Seq<char>) -> bool {
    exists|i: int| 0 <= i < v.len() && is_stray(#[trigger] v[i])
}

/// A text has characters that may not stand in a label exactly when one of its
/// characters may not.
proof fn lemma_stray(s: Seq<char>)
    ensures
        stray_chars(s).len() > 0 <==> some_stray(s),
    decreases s.len(),
{
    if s.len() > 0 {
        let rest = s.drop_last();
        let last = s.len() - 1;
        lemma_stray(rest);
        assert(is_stray(s[last]) == !is_label_char(s[last]));
        if some_stray(rest) {
            let i = choose|i: int| 0 <= i < rest.len() && is_stray(#[trigger] rest[i]);
            assert(is_stray(s[i]));
        }
        if some_stray(s) && !is_stray(s[last]) {
            let i = choose|i: int| 0 <= i < s.len() && is_stray(#[trigger] s[i]);
            assert(i < last);
            assert(is_stray(rest[i]));
        }
        if is_stray(s[last]) {
            assert(some_stray(s));
        }
    }
}

/// Whether all faults are equally serious.
spec fn all_are(s: Seq<FaultView>, severity: Severity) -> bool {
    forall|k: int| 0 <= k < s.len() ==> (#[trigger] s[k]).severity == severity
}

/// Faults of one kind remain of that kind together.
proof fn lemma_all_are(a: Seq<FaultView>, b: Seq<FaultView>, severity: Severity)
    requires
        all_are(a, severity),
        all_are(b, severity),
    ensures
        all_are(a + b, severity),
{
}

/// Errors, then warnings, then errors.
proof fn lemma_three_parts(x: Seq<FaultView>, y: Seq<FaultView>, z: Seq<FaultView>)
    requires
        all_are(x, Severity::Error),
        all_are(y, Severity::Warn),
        all_are(z, Severity::Error),
    ensures
        (x + y + z).len() == x.len() + y.len() + z.len(),
        forall|k: int|
            0 <= k < (x + y + z).len() ==> (#[trigger] (x + y + z)[k]).severity == if x.len() <= k
                < x.len() + y.len() {
                Severity::Warn
            } else {
                Severity::Error
            },
{
}

/// Whether an attribute is missing or empty.
pub open spec fn lacks(a: Seq<(Seq<char>, Seq<char>)>, key: Seq<char>) -> bool {
    lookup(a, key) matches Some(v) ==> v.len() == 0
}

/// What is wrong with a tag, in order: an error each if it lacks an identifier
/// or a start date, and if it has both asset attributes or neither; a warning
/// for each word of X-SNAP other than `IN` and `OUT`, and of X-RESTRICT other
/// than `SKIP` and `JUMP`; a warning each if X-CONTENT-MAY-VARY is given and
/// neither `YES` nor `NO`, X-TIMELINE-OCCUPIES neither `POINT` nor `RANGE`,
/// X-TIMELINE-STYLE neither `HIGHLIGHT` nor `PRIMARY`; and an error if the
/// label identifier holds another character than letters, `-` and `_`.
pub proof fn law_faults_of_a_tag(a: Seq<(Seq<char>, Seq<char>)>, name: Seq<char>)
    ensures
        ({
            let found = tag_faults(a, name);
            let needed = one_if(lacks(a, "ID"@)) + one_if(lacks(a, "START-DATE"@)) + one_if(
                lookup(a, "X-ASSET-URI"@) is Some <==> lookup(a, "X-ASSET-LIST"@) is Some,
            );
            let words = other_words(lookup(a, "X-SNAP"@), "IN"@, "OUT"@) + other_words(
                lookup(a, "X-RESTRICT"@),
                "SKIP"@,
                "JUMP"@,
            );
            let choices = one_if(is_other(lookup(a, "X-CONTENT-MAY-VARY"@), "YES"@, "NO"@))
                + one_if(is_other(lookup(a, "X-TIMELINE-OCCUPIES"@), "POINT"@, "RANGE"@))
                + one_if(is_other(lookup(a, "X-TIMELINE-STYLE"@), "HIGHLIGHT"@, "PRIMARY"@));
            let label = one_if(has_stray(lookup(a, "X-SKIP-CONTROL-LABEL-ID"@)));
            &&& found.len() == needed + words + choices + label
            &&& forall|k: int|
                0 <= k < found.len() ==> (#[trigger] found[k]).severity == if needed <= k < needed
                    + words + choices {
                    Severity::Warn
                } else {
                    Severity::Error
                }
        }),
{
    let (x, y, z) = lemma_fault_parts(a, name);
    lemma_three_parts(x, y, z);
}

/// A value that is not allowed has one warning.
proof fn lemma_choice(
    id: Seq<char>,
    key: Seq<char>,
    value: Option<Seq<char>>,
    one: Seq<char>,
    two: Seq<char>,
    name: Seq<char>,
)
    ensures
        choice_faults(id, key, value, one, two, name).len() == one_if(is_other(value, one, two)),
        all_are(choice_faults(id, key, value, one, two, name), Severity::Warn),
{
}

/// The faults that are errors before the others.
proof fn lemma_needed(a: Seq<(Seq<char>, Seq<char>)>, name: Seq<char>) -> (x: Seq<FaultView>)
    ensures
        x == id_faults(tag_id(a), name) + start_faults(
            tag_id(a),
            or_empty(lookup(a, "START-DATE"@)),
            name,
        ) + asset_faults(
            tag_id(a),
            lookup(a, "X-ASSET-URI"@) is Some,
            lookup(a, "X-ASSET-LIST"@) is Some,
            name,
        ),
        x.len() == one_if(lacks(a, "ID"@)) + one_if(lacks(a, "START-DATE"@)) + one_if(
            lookup(a, "X-ASSET-URI"@) is Some <==> lookup(a, "X-ASSET-LIST"@) is Some,
        ),
        all_are(x, Severity::Error),
{
    id_faults(tag_id(a), name) + start_faults(
        tag_id(a),
        or_empty(lookup(a, "START-DATE"@)),
        name,
    ) + asset_faults(
        tag_id(a),
        lookup(a, "X-ASSET-URI"@) is Some,
        lookup(a, "X-ASSET-LIST"@) is Some,
        name,
    )
}

/// The fault of a label identifier.
proof fn lemma_label(id: Seq<char>, value: Option<Seq<char>>, name: Seq<char>)
    ensures
        label_faults(id, value, name).len() == one_if(has_stray(value)),
        all_are(label_faults(id, value, name), Severity::Error),
{
    if let Some(label) = value {
        lemma_stray(label);
    }
}

/// Five lists of warnings are one.
proof fn lemma_five(
    y1: Seq<FaultView>,
    y2: Seq<FaultView>,
    y3: Seq<FaultView>,
    y4: Seq<FaultView>,
    y5: Seq<FaultView>,
)
    requires
        all_are(y1, Severity::Warn),
        all_are(y2, Severity::Warn),
        all_are(y3, Severity::Warn),
        all_are(y4, Severity::Warn),
        all_are(y5, Severity::Warn),
    ensures
        all_are(y1 + y2 + y3 + y4 + y5, Severity::Warn),
        (y1 + y2 + y3 + y4 + y5).len() == y1.len() + y2.len() + y3.len() + y4.len() + y5.len(),
{
    let w = Severity::Warn;
    lemma_all_are(y1, y2, w);
    lemma_all_are(y1 + y2, y3, w);
    lemma_all_are(y1 + y2 + y3, y4, w);
    lemma_all_are(y1 + y2 + y3 + y4, y5, w);
}

/// The errors, the warnings and the last error of a tag.
proof fn lemma_fault_parts(a: Seq<(Seq<char>, Seq<char>)>, name: Seq<char>) -> (r: (
    Seq<FaultView>,
    Seq<FaultView>,
    Seq<FaultView>,
))
    ensures
        tag_faults(a, name) == r.0 + r.1 + r.2,
        all_are(r.0, Severity::Error),
        all_are(r.1, Severity::Warn),
        all_are(r.2, Severity::Error),
        r.0.len() == one_if(lacks(a, "ID"@)) + one_if(lacks(a, "START-DATE"@)) + one_if(
            lookup(a, "X-ASSET-URI"@) is Some <==> lookup(a, "X-ASSET-LIST"@) is Some,
        ),
        r.1.len() == other_words(lookup(a, "X-SNAP"@), "IN"@, "OUT"@) + other_words(
            lookup(a, "X-RESTRICT"@),
            "SKIP"@,
            "JUMP"@,
        ) + one_if(is_other(lookup(a, "X-CONTENT-MAY-VARY"@), "YES"@, "NO"@)) + one_if(
            is_other(lookup(a, "X-TIMELINE-OCCUPIES"@), "POINT"@, "RANGE"@),
        ) + one_if(is_other(lookup(a, "X-TIMELINE-STYLE"@), "HIGHLIGHT"@, "PRIMARY"@)),
        r.2.len() == one_if(has_stray(lookup(a, "X-SKIP-CONTROL-LABEL-ID"@))),
{
    let id = tag_id(a);
    let snap = lookup(a, "X-SNAP"@);
    let restrict = lookup(a, "X-RESTRICT"@);
    let vary = lookup(a, "X-CONTENT-MAY-VARY"@);
    let occupies = lookup(a, "X-TIMELINE-OCCUPIES"@);
    let style = lookup(a, "X-TIMELINE-STYLE"@);
    let label = lookup(a, "X-SKIP-CONTROL-LABEL-ID"@);
    lemma_words(id, "X-SNAP"@, snap, "IN"@, "OUT"@, "OUT and/or IN"@, name);
    lemma_words(id, "X-RESTRICT"@, restrict, "SKIP"@, "JUMP"@, "SKIP and/or JUMP"@, name);
    lemma_choice(id, "X-CONTENT-MAY-VARY"@, vary, "YES"@, "NO"@, name);
    lemma_choice(id, "X-TIMELINE-OCCUPIES"@, occupies, "POINT"@, "RANGE"@, name);
    lemma_choice(id, "X-TIMELINE-STYLE"@, style, "HIGHLIGHT"@, "PRIMARY"@, name);
    lemma_label(id, label, name);
    let x = lemma_needed(a, name);
    let y1 = list_faults(id, "X-SNAP"@, snap, "IN"@, "OUT"@, "OUT and/or IN"@, name);
    let y2 = list_faults(
        id,
        "X-RESTRICT"@,
        restrict,
        "SKIP"@,
        "JUMP"@,
        "SKIP and/or JUMP"@,
        name,
    );
    let y3 = choice_faults(id, "X-CONTENT-MAY-VARY"@, vary, "YES"@, "NO"@, name);
    let y4 = choice_faults(id, "X-TIMELINE-OCCUPIES"@, occupies, "POINT"@, "RANGE"@, name);
    let y5 = choice_faults(id, "X-TIMELINE-STYLE"@, style, "HIGHLIGHT"@, "PRIMARY"@, name);
    let z = label_faults(id, label, name);
    lemma_five(y1, y2, y3, y4, y5);
    lemma_grouped(x, y1, y2, y3, y4, y5, z);
    (x, y1 + y2 + y3 + y4 + y5, z)
}

/// Parts can be put together one by one or some of them first.
proof fn lemma_grouped(
    x: Seq<FaultView>,
    y1: Seq<FaultView>,
    y2: Seq<FaultView>,
    y3: Seq<FaultView>,
    y4: Seq<FaultView>,
    y5: Seq<FaultView>,
    z: Seq<FaultView>,
)
    ensures
        x + y1 + y2 + y3 + y4 + y5 + z == x + (y1 + y2 + y3 + y4 + y5) + z,
{
    assert(x + y1 + y2 =~= x + (y1 + y2));
    assert(x + (y1 + y2) + y3 =~= x + (y1 + y2 + y3));
    assert(x + (y1 + y2 + y3) + y4 =~= x + (y1 + y2 + y3 + y4));
    assert(x + (y1 + y2 + y3 + y4) + y5 =~= x + (y1 + y2 + y3 + y4 + y5));
}

/// A tag with an identifier, a start date and one of the asset attributes,
/// whose other attributes are absent or have a value that they may have, has
/// no findings and gives an interstitial without notes.
pub proof fn law_valid_tags_pass(playlists: Seq<MediaPlaylist>, i: int, n: int)
    requires
        0 <= i < playlists.len(),
        0 <= n < lines_of(playlists[i].raw_content@).len(),
        ({
            let line = lines_of(playlists[i].raw_content@)[n];
            let a = date_range(line)->0;
            &&& is_interstitial(line)
            &&& lookup(a, "ID"@) matches Some(id) && id.len() > 0
            &&& lookup(a, "START-DATE"@) matches Some(start) && start.len() > 0
            &&& lookup(a, "X-ASSET-URI"@) is Some <==> lookup(a, "X-ASSET-LIST"@) is None
            &&& lookup(a, "X-SNAP"@) is None
            &&& lookup(a, "X-RESTRICT"@) is None
            &&& lookup(a, "X-CONTENT-MAY-VARY"@) matches Some(v) ==> v == "YES"@ || v == "NO"@
            &&& lookup(a, "X-TIMELINE-OCCUPIES"@) matches Some(v) ==> v == "POINT"@ || v
                == "RANGE"@
            &&& lookup(a, "X-TIMELINE-STYLE"@) matches Some(v) ==> v == "HIGHLIGHT"@ || v
                == "PRIMARY"@
            &&& lookup(a, "X-SKIP-CONTROL-LABEL-ID"@) is None
        }),
    ensures
        line_issue_rule(playlists[i])(n).len() == 0,
        forall|k: int|
            0 <= k < line_entry_rule(playlists[i])(n).len() ==> (#[trigger] line_entry_rule(
                playlists[i],
            )(n)[k]).errors.len() == 0,
{
    let pl = playlists[i];
    law_faults_of_a_tag(date_range(lines_of(pl.raw_content@)[n])->0, pl.name@);
}

/// The findings report the faults one by one, on the playlist they are in.
pub proof fn law_faults_are_reported(s: Seq<FaultView>, name: Seq<char>, k: int)
    requires
        0 <= k < s.len(),
    ensures
        fault_issues(s, name).len() == s.len(),
        fault_issues(s, name)[k].severity == s[k].severity,
        fault_issues(s, name)[k].message == s[k].message,
        fault_issues(s, name)[k].rendition_a == Some(name),
        fault_issues(s, name)[k].segment_index == -1,
{
}

/// Whether a tag is of the given identifier; a tag without one is of the empty
/// identifier.
pub open spec fn is_of(a: Seq<(Seq<char>, Seq<char>)>, id: Seq<char>) -> bool {
    lookup(a, "ID"@) == Some(id) || lookup(a, "ID"@) is None && id.len() == 0
}

/// Whether a tag of the given identifier has a number under `key`.
pub open spec fn gives(a: Seq<(Seq<char>, Seq<char>)>, id: Seq<char>, key: Seq<char>) -> bool {
    is_of(a, id) && numeric(lookup(a, key)) is Some
}

/// Whether a value is the first number that the tags of the identifier give,
/// or none where none of them gives one.
pub open spec fn is_first_given(
    v: Option<Real>,
    tags: Seq<Seq<(Seq<char>, Seq<char>)>>,
    id: Seq<char>,
    key: Seq<char>,
) -> bool {
    ||| v is None && forall|j: int| 0 <= j < tags.len() ==> !gives(#[trigger] tags[j], id, key)
    ||| exists|j: int|
        0 <= j < tags.len() && gives(#[trigger] tags[j], id, key) && v == numeric(
            lookup(tags[j], key),
        ) && forall|i: int| 0 <= i < j ==> !gives(#[trigger] tags[i], id, key)
}

/// Without a value of its own, an interstitial has the first that is given.
proof fn lemma_first_given(
    tags: Seq<Seq<(Seq<char>, Seq<char>)>>,
    id: Seq<char>,
    key: Seq<char>,
)
    ensures
        is_first_given(own_or_first(None, tags, id, key), tags, id, key),
    decreases tags.len(),
{
    if tags.len() > 0 {
        let rest = tags.drop_last();
        let last = tags.len() - 1;
        let before = own_or_first(None, rest, id, key);
        lemma_first_given(rest, id, key);
        assert(tags[last] == tags.last());
        assert(forall|j: int| 0 <= j < rest.len() ==> rest[j] == tags[j]);
        assert((tag_id(tags[last]) == id) == is_of(tags[last], id)) by {
            if tag_id(tags[last]) == id && lookup(tags[last], "ID"@) is None {
                assert(id.len() == 0);
            }
            if id.len() == 0 {
                assert(id =~= Seq::<char>::empty());
            }
        }
        if before is Some {
            let j = choose|j: int|
                0 <= j < rest.len() && gives(#[trigger] rest[j], id, key) && before == numeric(
                    lookup(rest[j], key),
                ) && forall|i: int| 0 <= i < j ==> !gives(#[trigger] rest[i], id, key);
            assert(gives(tags[j], id, key));
            assert forall|i: int| 0 <= i < j implies !gives(#[trigger] tags[i], id, key) by {
                assert(!gives(rest[i], id, key));
            }
        } else {
            assert forall|i: int| 0 <= i < last implies !gives(#[trigger] tags[i], id, key) by {
                assert(!gives(rest[i], id, key));
            }
            if gives(tags[last], id, key) {
                assert(own_or_first(None, tags, id, key) == numeric(lookup(tags[last], key)));
            } else {
                assert forall|i: int| 0 <= i < tags.len() implies !gives(
                    #[trigger] tags[i],
                    id,
                    key,
                ) by {
                    if i < last {
                        assert(!gives(rest[i], id, key));
                    }
                }
            }
        }
    }
}

/// The first interstitial of an identifier takes its playout limit and its
/// resume offset, where it has none of its own, from the first date range of
/// that identifier that gives one; the others stay as they are.
pub proof fn law_closing_tags_complete(
    list: Seq<InterstitialView>,
    tags: Seq<Seq<(Seq<char>, Seq<char>)>>,
    k: int,
)
    requires
        0 <= k < list.len(),
    ensures
        ({
            let before = list[k];
            let after = merged(list, tags)[k];
            let first = forall|j: int| 0 <= j < k ==> (#[trigger] list[j]).id != before.id;
            &&& !first ==> after == before
            &&& first && before.playout_limit is None ==> is_first_given(
                after.playout_limit,
                tags,
                before.id,
                "X-PLAYOUT-LIMIT"@,
            )
            &&& first && before.resume_offset is None ==> is_first_given(
                after.resume_offset,
                tags,
                before.id,
                "X-RESUME-OFFSET"@,
            )
        }),
{
    lemma_first_given(tags, list[k].id, "X-PLAYOUT-LIMIT"@);
    lemma_first_given(tags, list[k].id, "X-RESUME-OFFSET"@);
}

/// The characters that are shown of a label are those of it that may not stand
/// there, in their order.
pub proof fn law_stray_characters(s: Seq<char>)
    ensures
        stray_chars(s) == s.filter(|c: char| is_stray(c)),
    decreases s.len(),
{
    reveal(Seq::filter);
    if s.len() > 0 {
        law_stray_characters(s.drop_last());
        assert(is_stray(s.last()) == !is_label_char(s.last()));
    }
}

} // verus!
