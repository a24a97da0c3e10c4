//! Interstitials: EXT-X-DATERANGE tags of the interstitial class.
use crate::attributes::{attributes, lookup, parse_attributes, Attributes};
use crate::gather::{all_raised_by, gathered, lemma_gathered_raised_by};
use crate::names::NameSet;
use crate::numeral::{numeric, read_number};
use crate::double::{Double, Real};
use crate::text::{
    add_text, char_debug, chars_of, contains, debug_char, has_prefix, has_text, is_literal, join,
    joined, lines, lines_of, optional, pieces, same_text, slices, split, string_of, strip_prefix,
    texts, trim, trimmed,
};
use crate::types::{
    findings, named, pairs, produced_by, report, CheckId, Interstitial, InterstitialView, Issue,
    IssueView, MediaPlaylist, Severity,
};
use vstd::prelude::*;

verus! {

/// What is wrong with an interstitial: how serious it is, the note kept with
/// the interstitial, and the message of the finding.
#[derive(Debug)]
pub struct Fault {
    pub severity: Severity,
    pub note: String,
    pub message: String,
}

/// What a fault says.
pub struct FaultView {
    pub severity: Severity,
    pub note: Seq<char>,
    pub message: Seq<char>,
}

impl View for Fault {
    type V = FaultView;

    open spec fn view(&self) -> FaultView {
        FaultView { severity: self.severity, note: self.note@, message: self.message@ }
    }
}

/// What each fault says.
pub open spec fn faults_of(v: Seq<Fault>) -> Seq<FaultView> {
    v.map_values(|f: Fault| f@)
}

/// What is known of each interstitial.
pub open spec fn interstitials_of(v: Seq<Interstitial>) -> Seq<InterstitialView> {
    v.map_values(|i: Interstitial| i@)
}

/// A value, or the empty text where there is none.
pub open spec fn or_empty(v: Option<Seq<char>>) -> Seq<char> {
    match v {
        Some(t) => t,
        None => seq![],
    }
}

/// The attributes of a line that is an EXT-X-DATERANGE tag.
pub open spec fn date_range(line: Seq<char>) -> Option<Seq<(Seq<char>, Seq<char>)>> {
    let l = trimmed(line);
    let tag = "#EXT-X-DATERANGE:"@;
    if has_prefix(l, tag) {
        Some(attributes(l.skip(tag.len() as int)))
    } else {
        None
    }
}

/// Whether a tag is of the interstitial class.
pub open spec fn of_class(a: Seq<(Seq<char>, Seq<char>)>) -> bool {
    has_text(or_empty(lookup(a, "CLASS"@)), "com.apple.hls.interstitial"@)
}

/// The identifier of a tag, empty if it has none.
pub open spec fn tag_id(a: Seq<(Seq<char>, Seq<char>)>) -> Seq<char> {
    or_empty(lookup(a, "ID"@))
}

/// Whether line `i` is a tag of the interstitial class.
pub open spec fn is_class_line(all: Seq<Seq<char>>, i: int) -> bool {
    date_range(all[i]) matches Some(a) && of_class(a)
}

/// Whether a line before `i` is a tag of the interstitial class with the
/// identifier `id`.
pub open spec fn described_before(all: Seq<Seq<char>>, i: int, id: Seq<char>) -> bool {
    exists|j: int|
        0 <= j < i && #[trigger] is_class_line(all, j) && tag_id(date_range(all[j])->0) == id
}

/// Whether line `i` updates an interstitial that an earlier line describes.
pub open spec fn is_update(all: Seq<Seq<char>>, i: int) -> bool {
    let id = tag_id(date_range(all[i])->0);
    id.len() > 0 && described_before(all, i, id)
}

/// Whether line `i` describes an interstitial for the first time.
pub open spec fn introduces(all: Seq<Seq<char>>, i: int) -> bool {
    is_class_line(all, i) && !is_update(all, i)
}

/// A tag has an identifier.
pub open spec fn id_faults(id: Seq<char>, name: Seq<char>) -> Seq<FaultView> {
    if id.len() == 0 {
        seq![
            FaultView {
                severity: Severity::Error,
                note: "Missing required ID attribute"@,
                message: "Interstitial: DATERANGE in '"@ + name + "' missing ID (MUST)"@,
            },
        ]
    } else {
        seq![]
    }
}

/// A tag has a start date.
pub open spec fn start_faults(
    id: Seq<char>,
    start: Seq<char>,
    name: Seq<char>,
) -> Seq<FaultView> {
    if start.len() == 0 {
        seq![
            FaultView {
                severity: Severity::Error,
                note: "Missing required START-DATE"@,
                message: "Interstitial: ["@ + id + "] missing START-DATE in '"@ + name + "'"@,
            },
        ]
    } else {
        seq![]
    }
}

/// A tag has one of X-ASSET-URI and X-ASSET-LIST, and not both.
pub open spec fn asset_faults(
    id: Seq<char>,
    uri: bool,
    list: bool,
    name: Seq<char>,
) -> Seq<FaultView> {
    if !uri && !list {
        seq![
            FaultView {
                severity: Severity::Error,
                note: "Missing X-ASSET-URI or X-ASSET-LIST (MUST have one)"@,
                message: "Interstitial: ["@ + id + "] missing X-ASSET-URI/X-ASSET-LIST in '"@
                    + name + "'"@,
            },
        ]
    } else if uri && list {
        seq![
            FaultView {
                severity: Severity::Error,
                note: "Has both X-ASSET-URI and X-ASSET-LIST (MUST have only one)"@,
                message: "Interstitial: ["@ + id + "] has both X-ASSET-URI and X-ASSET-LIST in '"@
                    + name + "' (MUST NOT)"@,
            },
        ]
    } else {
        seq![]
    }
}

/// One word of a list is one of the two that are allowed.
pub open spec fn word_faults(
    id: Seq<char>,
    key: Seq<char>,
    word: Seq<char>,
    one: Seq<char>,
    two: Seq<char>,
    allowed: Seq<char>,
    name: Seq<char>,
) -> Seq<FaultView> {
    if word != one && word != two {
        seq![
            FaultView {
                severity: Severity::Warn,
                note: key + " value '"@ + word + "' invalid (must be "@ + one + " or "@ + two
                    + ")"@,
                message: "Interstitial: ["@ + id + "] "@ + key + "='"@ + word + "' invalid in '"@
                    + name + "' (rfc8216bis §D.2: values must be "@ + allowed + ")."@,
            },
        ]
    } else {
        seq![]
    }
}

pub open spec fn word_rule(
    id: Seq<char>,
    key: Seq<char>,
    value: Seq<char>,
    one: Seq<char>,
    two: Seq<char>,
    allowed: Seq<char>,
    name: Seq<char>,
) -> spec_fn(int) -> Seq<FaultView> {
    |i: int| word_faults(id, key, trimmed(pieces(value, ',')[i]), one, two, allowed, name)
}

/// The words of a comma-separated list are all of the two that are allowed.
pub open spec fn list_faults(
    id: Seq<char>,
    key: Seq<char>,
    value: Option<Seq<char>>,
    one: Seq<char>,
    two: Seq<char>,
    allowed: Seq<char>,
    name: Seq<char>,
) -> Seq<FaultView> {
    match value {
        Some(v) => gathered(
            pieces(v, ',').len(),
            word_rule(id, key, v, one, two, allowed, name),
        ),
        None => seq![],
    }
}

/// A value is one of the two that are allowed.
pub open spec fn choice_faults(
    id: Seq<char>,
    key: Seq<char>,
    value: Option<Seq<char>>,
    one: Seq<char>,
    two: Seq<char>,
    name: Seq<char>,
) -> Seq<FaultView> {
    match value {
        Some(v) => if v != one && v != two {
            seq![
                FaultView {
                    severity: Severity::Warn,
                    note: key + "='"@ + v + "' invalid (must be "@ + one + " or "@ + two + ")"@,
                    message: "Interstitial: ["@ + id + "] "@ + key + "='"@ + v + "' invalid in '"@
                        + name + "' (rfc8216bis §D.2: must be \""@ + one + "\" or \""@ + two
                        + "\")."@,
                },
            ]
        } else {
            seq![]
        },
        None => seq![],
    }
}

/// Whether a character may stand in a control label identifier.
pub open spec fn is_label_char(c: char) -> bool {
    'a' <= c <= 'z' || 'A' <= c <= 'Z' || c == '-' || c == '_'
}

/// The characters of `s` that may not stand in a control label identifier.
pub open spec fn stray_chars(s: Seq<char>) -> Seq<char>
    decreases s.len(),
{
    if s.len() == 0 {
        seq![]
    } else if is_label_char(s.last()) {
        stray_chars(s.drop_last())
    } else {
        stray_chars(s.drop_last()).push(s.last())
    }
}

/// A list of characters as it is written for debugging.
pub open spec fn chars_debug(s: Seq<char>) -> Seq<char> {
    "["@ + joined(s.map_values(|c: char| char_debug(c)), ", "@) + "]"@
}

/// The fault of a control label identifier that holds the characters written
/// in `shown`.
pub open spec fn label_fault(
    id: Seq<char>,
    label: Seq<char>,
    shown: Seq<char>,
    name: Seq<char>,
) -> FaultView {
    FaultView {
        severity: Severity::Error,
        note: "X-SKIP-CONTROL-LABEL-ID='"@ + label + "' contains invalid chars "@ + shown,
        message: "Interstitial: ["@ + id + "] X-SKIP-CONTROL-LABEL-ID='"@ + label
            + "' contains invalid characters "@ + shown + " in '"@ + name
            + "' (rfc8216bis §D.3: MUST be [a-z][A-Z]'-''_' only)."@,
    }
}

/// A control label identifier is made of letters, `-` and `_`.
pub open spec fn label_faults(
    id: Seq<char>,
    value: Option<Seq<char>>,
    name: Seq<char>,
) -> Seq<FaultView> {
    match value {
        Some(v) => if stray_chars(v).len() > 0 {
            seq![label_fault(id, v, chars_debug(stray_chars(v)), name)]
        } else {
            seq![]
        },
        None => seq![],
    }
}

/// All that is wrong with an interstitial, in order.
pub open spec fn tag_faults(a: Seq<(Seq<char>, Seq<char>)>, name: Seq<char>) -> Seq<FaultView> {
    let id = tag_id(a);
    id_faults(id, name) + start_faults(id, or_empty(lookup(a, "START-DATE"@)), name)
        + asset_faults(
        id,
        lookup(a, "X-ASSET-URI"@) is Some,
        lookup(a, "X-ASSET-LIST"@) is Some,
        name,
    ) + list_faults(
        id,
        "X-SNAP"@,
        lookup(a, "X-SNAP"@),
        "IN"@,
        "OUT"@,
        "OUT and/or IN"@,
        name,
    ) + list_faults(
        id,
        "X-RESTRICT"@,
        lookup(a, "X-RESTRICT"@),
        "SKIP"@,
        "JUMP"@,
        "SKIP and/or JUMP"@,
        name,
    ) + choice_faults(
        id,
        "X-CONTENT-MAY-VARY"@,
        lookup(a, "X-CONTENT-MAY-VARY"@),
        "YES"@,
        "NO"@,
        name,
    ) + choice_faults(
        id,
        "X-TIMELINE-OCCUPIES"@,
        lookup(a, "X-TIMELINE-OCCUPIES"@),
        "POINT"@,
        "RANGE"@,
        name,
    ) + choice_faults(
        id,
        "X-TIMELINE-STYLE"@,
        lookup(a, "X-TIMELINE-STYLE"@),
        "HIGHLIGHT"@,
        "PRIMARY"@,
        name,
    ) + label_faults(id, lookup(a, "X-SKIP-CONTROL-LABEL-ID"@), name)
}

/// The findings that report the faults.
pub open spec fn fault_issues(s: Seq<FaultView>, name: Seq<char>) -> Seq<IssueView> {
    s.map_values(|f: FaultView| IssueView::on_rendition(f.severity, name, f.message))
}

/// The interstitial that a tag describes by itself.
pub open spec fn entry(a: Seq<(Seq<char>, Seq<char>)>, pl: MediaPlaylist) -> InterstitialView {
    InterstitialView {
        rendition: pl.name@,
        id: tag_id(a),
        start_date: or_empty(lookup(a, "START-DATE"@)),
        asset_uri: lookup(a, "X-ASSET-URI"@),
        asset_list: lookup(a, "X-ASSET-LIST"@),
        resume_offset: numeric(lookup(a, "X-RESUME-OFFSET"@)),
        playout_limit: numeric(lookup(a, "X-PLAYOUT-LIMIT"@)),
        planned_duration_s: numeric(lookup(a, "PLANNED-DURATION"@)),
        snap: lookup(a, "X-SNAP"@),
        cue: lookup(a, "X-CUE"@),
        timeline_style: lookup(a, "X-TIMELINE-STYLE"@),
        errors: tag_faults(a, pl.name@).map_values(|f: FaultView| f.note),
        start_offset_s: None,
        content_duration_s: Double { bits: 0 },
        rendition_url: pl.url@,
        definitions: pairs(pl.definitions@),
    }
}

pub open spec fn line_issue_rule(pl: MediaPlaylist) -> spec_fn(int) -> Seq<IssueView> {
    |i: int|
        {
            let all = lines_of(pl.raw_content@);
            if introduces(all, i) {
                fault_issues(tag_faults(date_range(all[i])->0, pl.name@), pl.name@)
            } else {
                seq![]
            }
        }
}

/// The findings on the interstitials of one playlist.
pub open spec fn interstitial_findings(pl: MediaPlaylist) -> Seq<IssueView> {
    gathered(lines_of(pl.raw_content@).len(), line_issue_rule(pl))
}

pub open spec fn interstitial_rule(playlists: Seq<MediaPlaylist>) -> spec_fn(int) -> Seq<
    IssueView,
> {
    |i: int| interstitial_findings(playlists[i])
}

pub open spec fn line_entry_rule(pl: MediaPlaylist) -> spec_fn(int) -> Seq<InterstitialView> {
    |i: int|
        {
            let all = lines_of(pl.raw_content@);
            if introduces(all, i) {
                seq![entry(date_range(all[i])->0, pl)]
            } else {
                seq![]
            }
        }
}

/// The interstitials that one playlist introduces.
pub open spec fn playlist_entries(pl: MediaPlaylist) -> Seq<InterstitialView> {
    gathered(lines_of(pl.raw_content@).len(), line_entry_rule(pl))
}

pub open spec fn entry_rule(playlists: Seq<MediaPlaylist>) -> spec_fn(int) -> Seq<
    InterstitialView,
> {
    |i: int| playlist_entries(playlists[i])
}

/// The interstitials that the playlists introduce, each as its own tag
/// describes it.
pub open spec fn entries(playlists: Seq<MediaPlaylist>) -> Seq<InterstitialView> {
    gathered(playlists.len(), entry_rule(playlists))
}

pub open spec fn line_tag_rule(pl: MediaPlaylist) -> spec_fn(int) -> Seq<
    Seq<(Seq<char>, Seq<char>)>,
> {
    |i: int|
        {
            let all = lines_of(pl.raw_content@);
            match date_range(all[i]) {
                Some(a) => if of_class(a) {
                    seq![]
                } else {
                    seq![a]
                },
                None => seq![],
            }
        }
}

pub open spec fn tag_rule(playlists: Seq<MediaPlaylist>) -> spec_fn(int) -> Seq<
    Seq<(Seq<char>, Seq<char>)>,
> {
    |i: int| gathered(lines_of(playlists[i].raw_content@).len(), line_tag_rule(playlists[i]))
}

/// The EXT-X-DATERANGE tags of other classes or of none: the closing tags of
/// interstitials are among them.
pub open spec fn other_tags(playlists: Seq<MediaPlaylist>) -> Seq<Seq<(Seq<char>, Seq<char>)>> {
    gathered(playlists.len(), tag_rule(playlists))
}

/// A value of its own, or else the first number that the tags with the given
/// identifier have under `key`.
pub open spec fn own_or_first(
    own: Option<Real>,
    tags: Seq<Seq<(Seq<char>, Seq<char>)>>,
    id: Seq<char>,
    key: Seq<char>,
) -> Option<Real>
    decreases tags.len(),
{
    if tags.len() == 0 {
        own
    } else {
        match own_or_first(own, tags.drop_last(), id, key) {
            Some(v) => Some(v),
            None => if tag_id(tags.last()) == id {
                numeric(lookup(tags.last(), key))
            } else {
                None
            },
        }
    }
}

/// Whether no interstitial before `k` has the same identifier.
pub open spec fn is_first_of_id(list: Seq<InterstitialView>, k: int) -> bool {
    forall|j: int| 0 <= j < k ==> (#[trigger] list[j]).id != list[k].id
}

/// Interstitial `k`, with the playout limit and the resume offset that its
/// closing tags add. They are added to the first interstitial of their
/// identifier only.
pub open spec fn completed(
    list: Seq<InterstitialView>,
    tags: Seq<Seq<(Seq<char>, Seq<char>)>>,
    k: int,
) -> InterstitialView {
    if is_first_of_id(list, k) {
        InterstitialView {
            playout_limit: own_or_first(
                list[k].playout_limit,
                tags,
                list[k].id,
                "X-PLAYOUT-LIMIT"@,
            ),
            resume_offset: own_or_first(
                list[k].resume_offset,
                tags,
                list[k].id,
                "X-RESUME-OFFSET"@,
            ),
            ..list[k]
        }
    } else {
        list[k]
    }
}

/// The interstitials with what their closing tags add.
pub open spec fn merged(
    list: Seq<InterstitialView>,
    tags: Seq<Seq<(Seq<char>, Seq<char>)>>,
) -> Seq<InterstitialView> {
    Seq::new(list.len(), |k: int| completed(list, tags, k))
}

/// An interstitial with what one closing tag adds to it.
pub open spec fn filled(
    v: InterstitialView,
    a: Seq<(Seq<char>, Seq<char>)>,
) -> InterstitialView {
    InterstitialView {
        playout_limit: match v.playout_limit {
            Some(x) => Some(x),
            None => numeric(lookup(a, "X-PLAYOUT-LIMIT"@)),
        },
        resume_offset: match v.resume_offset {
            Some(x) => Some(x),
            None => numeric(lookup(a, "X-RESUME-OFFSET"@)),
        },
        ..v
    }
}

/// The interstitials with what one closing tag adds to them.
pub open spec fn with_tag(
    list: Seq<InterstitialView>,
    a: Seq<(Seq<char>, Seq<char>)>,
) -> Seq<InterstitialView> {
    Seq::new(
        list.len(),
        |k: int|
            if is_first_of_id(list, k) && list[k].id == tag_id(a) {
                filled(list[k], a)
            } else {
                list[k]
            },
    )
}

/// Merging one more tag is merging the others and then adding it.
proof fn lemma_merged_push(
    list: Seq<InterstitialView>,
    tags: Seq<Seq<(Seq<char>, Seq<char>)>>,
    a: Seq<(Seq<char>, Seq<char>)>,
)
    ensures
        merged(list, tags.push(a)) == with_tag(merged(list, tags), a),
{
    let some = merged(list, tags);
    assert(tags.push(a).drop_last() =~= tags);
    assert(forall|j: int|
        #![trigger some[j]]
        #![trigger list[j]]
        0 <= j < list.len() ==> some[j].id == list[j].id);
    assert forall|k: int| 0 <= k < list.len() implies is_first_of_id(list, k) == is_first_of_id(
        some,
        k,
    ) by {
        if is_first_of_id(list, k) {
            assert(forall|j: int| 0 <= j < k ==> (#[trigger] some[j]).id != some[k].id);
        }
        if is_first_of_id(some, k) {
            assert(forall|j: int| 0 <= j < k ==> (#[trigger] list[j]).id != list[k].id);
        }
    }
    assert(merged(list, tags.push(a)) =~= with_tag(some, a));
}

/// Reads a line that is an EXT-X-DATERANGE tag.
fn read_date_range(line: &[char]) -> (r: Option<Attributes>)
    ensures
        r is Some <==> date_range(line@) is Some,
        r matches Some(a) ==> date_range(line@) == Some(a@),
{
    match strip_prefix(trim(line), "#EXT-X-DATERANGE:") {
        Some(rest) => Some(parse_attributes(rest)),
        None => None,
    }
}

/// A value, or the empty text where there is none.
fn or_blank(v: Option<String>) -> (r: String)
    ensures
        r@ == or_empty(optional(v)),
{
    match v {
        Some(t) => t,
        None => String::new(),
    }
}

/// Whether a tag is of the interstitial class.
fn in_class(a: &Attributes) -> (r: bool)
    ensures
        r == of_class(a@),
{
    let class = or_blank(a.get("CLASS"));
    let chars = chars_of(class.as_str());
    contains(chars.as_slice(), "com.apple.hls.interstitial")
}

/// Adds a fault to the end of the list.
fn add_fault(list: &mut Vec<Fault>, severity: Severity, note: String, message: String)
    ensures
        faults_of(final(list)@) == faults_of(old(list)@) + seq![
            FaultView { severity, note: note@, message: message@ },
        ],
{
    let fault = Fault { severity, note, message };
    let ghost added = fault@;
    list.push(fault);
    assert(faults_of(list@) =~= faults_of(old(list)@) + seq![added]);
}

fn check_id(list: &mut Vec<Fault>, id: &str, name: &str)
    ensures
        faults_of(final(list)@) == faults_of(old(list)@) + id_faults(id@, name@),
{
    if id.is_empty() {
        add_fault(
            list,
            Severity::Error,
            "Missing required ID attribute".to_owned(),
            "Interstitial: DATERANGE in '".to_owned().concat(name).concat("' missing ID (MUST)"),
        );
    } else {
        assert(faults_of(list@) =~= faults_of(old(list)@) + id_faults(id@, name@));
    }
}

fn check_start(list: &mut Vec<Fault>, id: &str, start: &str, name: &str)
    ensures
        faults_of(final(list)@) == faults_of(old(list)@) + start_faults(id@, start@, name@),
{
    if start.is_empty() {
        add_fault(
            list,
            Severity::Error,
            "Missing required START-DATE".to_owned(),
            "Interstitial: [".to_owned().concat(id).concat("] missing START-DATE in '").concat(
                name,
            ).concat("'"),
        );
    } else {
        assert(faults_of(list@) =~= faults_of(old(list)@) + start_faults(id@, start@, name@));
    }
}

fn check_asset(list: &mut Vec<Fault>, id: &str, uri: bool, listed: bool, name: &str)
    ensures
        faults_of(final(list)@) == faults_of(old(list)@) + asset_faults(id@, uri, listed, name@),
{
    if !uri && !listed {
        add_fault(
            list,
            Severity::Error,
            "Missing X-ASSET-URI or X-ASSET-LIST (MUST have one)".to_owned(),
            "Interstitial: [".to_owned().concat(id).concat(
                "] missing X-ASSET-URI/X-ASSET-LIST in '",
            ).concat(name).concat("'"),
        );
    } else if uri && listed {
        add_fault(
            list,
            Severity::Error,
            "Has both X-ASSET-URI and X-ASSET-LIST (MUST have only one)".to_owned(),
            "Interstitial: [".to_owned().concat(id).concat(
                "] has both X-ASSET-URI and X-ASSET-LIST in '",
            ).concat(name).concat("' (MUST NOT)"),
        );
    } else {
        assert(faults_of(list@) =~= faults_of(old(list)@) + asset_faults(
            id@,
            uri,
            listed,
            name@,
        ));
    }
}

fn check_list(
    list: &mut Vec<Fault>,
    id: &str,
    key: &str,
    value: &Option<String>,
    one: &str,
    two: &str,
    allowed: &str,
    name: &str,
)
    ensures
        faults_of(final(list)@) == faults_of(old(list)@) + list_faults(
            id@,
            key@,
            optional(*value),
            one@,
            two@,
            allowed@,
            name@,
        ),
{
    match value {
        Some(v) => {
            let chars = chars_of(v.as_str());
            let words = split(chars.as_slice(), ',');
            let ghost rule = word_rule(id@, key@, v@, one@, two@, allowed@, name@);
            let ghost before = faults_of(list@);
            assert(before + gathered(0, rule) =~= before);
            let mut i: usize = 0;
            while i < words.len()
                invariant
                    i <= words.len(),
                    chars@ == v@,
                    slices(words@) == pieces(v@, ','),
                    rule == word_rule(id@, key@, v@, one@, two@, allowed@, name@),
                    faults_of(list@) == before + gathered(i as nat, rule),
                decreases words.len() - i,
            {
                let word = trim(words[i]);
                assert(word@ == trimmed(pieces(v@, ',')[i as int])) by {
                    assert(slices(words@)[i as int] == words@[i as int]@);
                }
                if !is_literal(word, one) && !is_literal(word, two) {
                    let text = string_of(word);
                    add_fault(
                        list,
                        Severity::Warn,
                        key.to_owned().concat(" value '").concat(text.as_str()).concat(
                            "' invalid (must be ",
                        ).concat(one).concat(" or ").concat(two).concat(")"),
                        "Interstitial: [".to_owned().concat(id).concat("] ").concat(key).concat(
                            "='",
                        ).concat(text.as_str()).concat("' invalid in '").concat(name).concat(
                            "' (rfc8216bis §D.2: values must be ",
                        ).concat(allowed).concat(")."),
                    );
                }
                i = i + 1;
                assert(faults_of(list@) =~= before + gathered(i as nat, rule));
            }
        },
        None => {
            assert(faults_of(list@) =~= faults_of(old(list)@) + list_faults(
                id@,
                key@,
                optional(*value),
                one@,
                two@,
                allowed@,
                name@,
            ));
        },
    }
}

fn check_choice(
    list: &mut Vec<Fault>,
    id: &str,
    key: &str,
    value: &Option<String>,
    one: &str,
    two: &str,
    name: &str,
)
    ensures
        faults_of(final(list)@) == faults_of(old(list)@) + choice_faults(
            id@,
            key@,
            optional(*value),
            one@,
            two@,
            name@,
        ),
{
    if let Some(v) = value {
        if !same_text(v.as_str(), one) && !same_text(v.as_str(), two) {
            add_fault(
                list,
                Severity::Warn,
                key.to_owned().concat("='").concat(v.as_str()).concat(
                    "' invalid (must be ",
                ).concat(one).concat(" or ").concat(two).concat(")"),
                "Interstitial: [".to_owned().concat(id).concat("] ").concat(key).concat(
                    "='",
                ).concat(v.as_str()).concat("' invalid in '").concat(name).concat(
                    "' (rfc8216bis §D.2: must be \"",
                ).concat(one).concat("\" or \"").concat(two).concat("\")."),
            );
            return;
        }
    }
    assert(faults_of(list@) =~= faults_of(old(list)@) + choice_faults(
        id@,
        key@,
        optional(*value),
        one@,
        two@,
        name@,
    ));
}

/// The characters that may not stand in a control label identifier.
pub fn stray(s: &[char]) -> (r: Vec<char>)
    ensures
        r@ == stray_chars(s@),
{
    let mut r: Vec<char> = Vec::new();
    let mut i: usize = 0;
    while i < s.len()
        invariant
            i <= s.len(),
            r@ == stray_chars(s@.take(i as int)),
        decreases s.len() - i,
    {
        let c = s[i];
        assert(s@.take(i + 1).drop_last() =~= s@.take(i as int));
        if !(('a' <= c && c <= 'z') || ('A' <= c && c <= 'Z') || c == '-' || c == '_') {
            r.push(c);
        }
        i = i + 1;
    }
    assert(s@.take(i as int) =~= s@);
    r
}

/// A list of characters as it is written for debugging.
fn show_chars(s: &[char]) -> (r: String)
    ensures
        r@ == chars_debug(s@),
{
    let mut shown: Vec<String> = Vec::new();
    let mut i: usize = 0;
    while i < s.len()
        invariant
            i <= s.len(),
            texts(shown@) == s@.take(i as int).map_values(|c: char| char_debug(c)),
        decreases s.len() - i,
    {
        add_text(&mut shown, debug_char(s[i]));
        i = i + 1;
        assert(texts(shown@) =~= s@.take(i as int).map_values(|c: char| char_debug(c)));
    }
    assert(s@.take(i as int) =~= s@);
    "[".to_owned().concat(join(shown.as_slice(), ", ").as_str()).concat("]")
}

/// The fault of a control label identifier that holds the characters written
/// in `shown`.
pub fn stray_fault(id: &str, label: &str, shown: &str, name: &str) -> (r: Fault)
    ensures
        r@ == label_fault(id@, label@, shown@, name@),
{
    Fault {
        severity: Severity::Error,
        note: "X-SKIP-CONTROL-LABEL-ID='".to_owned().concat(label).concat(
            "' contains invalid chars ",
        ).concat(shown),
        message: "Interstitial: [".to_owned().concat(id).concat(
            "] X-SKIP-CONTROL-LABEL-ID='",
        ).concat(label).concat("' contains invalid characters ").concat(shown).concat(
            " in '",
        ).concat(name).concat("' (rfc8216bis §D.3: MUST be [a-z][A-Z]'-''_' only)."),
    }
}

fn check_label(list: &mut Vec<Fault>, id: &str, value: &Option<String>, name: &str)
    ensures
        faults_of(final(list)@) == faults_of(old(list)@) + label_faults(
            id@,
            optional(*value),
            name@,
        ),
{
    if let Some(v) = value {
        let chars = chars_of(v.as_str());
        let bad = stray(chars.as_slice());
        if bad.len() > 0 {
            let shown = show_chars(bad.as_slice());
            let fault = stray_fault(id, v.as_str(), shown.as_str(), name);
            let ghost added = fault@;
            list.push(fault);
            assert(faults_of(list@) =~= faults_of(old(list)@) + seq![added]);
            return;
        }
    }
    assert(faults_of(list@) =~= faults_of(old(list)@) + label_faults(
        id@,
        optional(*value),
        name@,
    ));
}

/// All that is wrong with an interstitial, in order.
pub fn find_faults(a: &Attributes, name: &str) -> (r: Vec<Fault>)
    ensures
        faults_of(r@) == tag_faults(a@, name@),
{
    let id = or_blank(a.get("ID"));
    let start = or_blank(a.get("START-DATE"));
    let uri = a.get("X-ASSET-URI");
    let listed = a.get("X-ASSET-LIST");
    let mut r: Vec<Fault> = Vec::new();
    assert(faults_of(r@) + id_faults(id@, name@) =~= id_faults(id@, name@));
    check_id(&mut r, id.as_str(), name);
    check_start(&mut r, id.as_str(), start.as_str(), name);
    check_asset(&mut r, id.as_str(), uri.is_some(), listed.is_some(), name);
    check_list(
        &mut r,
        id.as_str(),
        "X-SNAP",
        &a.get("X-SNAP"),
        "IN",
        "OUT",
        "OUT and/or IN",
        name,
    );
    check_list(
        &mut r,
        id.as_str(),
        "X-RESTRICT",
        &a.get("X-RESTRICT"),
        "SKIP",
        "JUMP",
        "SKIP and/or JUMP",
        name,
    );
    check_choice(
        &mut r,
        id.as_str(),
        "X-CONTENT-MAY-VARY",
        &a.get("X-CONTENT-MAY-VARY"),
        "YES",
        "NO",
        name,
    );
    check_choice(
        &mut r,
        id.as_str(),
        "X-TIMELINE-OCCUPIES",
        &a.get("X-TIMELINE-OCCUPIES"),
        "POINT",
        "RANGE",
        name,
    );
    check_choice(
        &mut r,
        id.as_str(),
        "X-TIMELINE-STYLE",
        &a.get("X-TIMELINE-STYLE"),
        "HIGHLIGHT",
        "PRIMARY",
        name,
    );
    check_label(&mut r, id.as_str(), &a.get("X-SKIP-CONTROL-LABEL-ID"), name);
    r
}

/// A copy of a list of names and values.
fn copy_pairs(v: &Vec<(String, String)>) -> (r: Vec<(String, String)>)
    ensures
        pairs(r@) == pairs(v@),
{
    let mut r: Vec<(String, String)> = Vec::new();
    let mut i: usize = 0;
    while i < v.len()
        invariant
            i <= v.len(),
            pairs(r@) == pairs(v@).take(i as int),
        decreases v.len() - i,
    {
        let ghost before = pairs(r@);
        r.push((v[i].0.clone(), v[i].1.clone()));
        assert(pairs(r@) =~= before.push(pairs(v@)[i as int]));
        i = i + 1;
        assert(pairs(r@) =~= pairs(v@).take(i as int));
    }
    assert(pairs(v@).take(i as int) =~= pairs(v@));
    r
}

/// Reports the faults, and gives back their notes.
fn report_faults(issues: &mut Vec<Issue>, faults: Vec<Fault>, name: &str) -> (notes: Vec<String>)
    ensures
        findings(final(issues)@) == findings(old(issues)@) + fault_issues(
            faults_of(faults@),
            name@,
        ),
        texts(notes@) == faults_of(faults@).map_values(|f: FaultView| f.note),
{
    let mut notes: Vec<String> = Vec::new();
    let ghost all = faults_of(faults@);
    let ghost before = findings(issues@);
    let mut i: usize = 0;
    assert(before + fault_issues(all, name@).take(0) =~= before);
    while i < faults.len()
        invariant
            i <= faults.len(),
            all == faults_of(faults@),
            findings(issues@) == before + fault_issues(all, name@).take(i as int),
            texts(notes@) == all.map_values(|f: FaultView| f.note).take(i as int),
        decreases faults.len() - i,
    {
        let fault = &faults[i];
        assert(all[i as int] == fault@);
        report(issues, Issue::on_rendition(fault.severity, name, fault.message.clone()));
        add_text(&mut notes, fault.note.clone());
        i = i + 1;
        assert(findings(issues@) =~= before + fault_issues(all, name@).take(i as int));
        assert(texts(notes@) =~= all.map_values(|f: FaultView| f.note).take(i as int));
    }
    assert(fault_issues(all, name@).take(i as int) =~= fault_issues(all, name@));
    assert(all.map_values(|f: FaultView| f.note).take(i as int) =~= all.map_values(
        |f: FaultView| f.note,
    ));
    notes
}

/// The interstitial that a tag describes by itself, given the notes on its
/// faults.
fn make_entry(a: &Attributes, pl: &MediaPlaylist, notes: Vec<String>) -> (r: Interstitial)
    requires
        texts(notes@) == tag_faults(a@, pl.name@).map_values(|f: FaultView| f.note),
    ensures
        r@ == entry(a@, *pl),
{
    Interstitial {
        rendition: pl.name.clone(),
        id: or_blank(a.get("ID")),
        start_date: or_blank(a.get("START-DATE")),
        asset_uri: a.get("X-ASSET-URI"),
        asset_list: a.get("X-ASSET-LIST"),
        resume_offset: read_number(a.get("X-RESUME-OFFSET")),
        playout_limit: read_number(a.get("X-PLAYOUT-LIMIT")),
        planned_duration_s: read_number(a.get("PLANNED-DURATION")),
        snap: a.get("X-SNAP"),
        cue: a.get("X-CUE"),
        timeline_style: a.get("X-TIMELINE-STYLE"),
        errors: notes,
        start_offset_s: None,
        content_duration_s: Double::zero(),
        rendition_url: pl.url.clone(),
        definitions: copy_pairs(&pl.definitions),
    }
}

/// Reports on the interstitials of one playlist and collects them.
fn read_playlist(pl: &MediaPlaylist, issues: &mut Vec<Issue>, list: &mut Vec<Interstitial>)
    ensures
        findings(final(issues)@) == findings(old(issues)@) + interstitial_findings(*pl),
        interstitials_of(final(list)@) == interstitials_of(old(list)@) + playlist_entries(*pl),
{
    let content = chars_of(pl.raw_content.as_str());
    let rows = lines(content.as_slice());
    let ghost all = lines_of(pl.raw_content@);
    let ghost issues_before = findings(issues@);
    let ghost list_before = interstitials_of(list@);
    let mut seen = NameSet::new();
    let mut i: usize = 0;
    assert(issues_before + gathered(0, line_issue_rule(*pl)) =~= issues_before);
    assert(list_before + gathered(0, line_entry_rule(*pl)) =~= list_before);
    while i < rows.len()
        invariant
            i <= rows.len(),
            all == lines_of(pl.raw_content@),
            slices(rows@) == all,
            forall|id: Seq<char>|
                id.len() > 0 ==> (#[trigger] seen@.contains(id) <==> described_before(
                    all,
                    i as int,
                    id,
                )),
            findings(issues@) == issues_before + gathered(i as nat, line_issue_rule(*pl)),
            interstitials_of(list@) == list_before + gathered(i as nat, line_entry_rule(*pl)),
        decreases rows.len() - i,
    {
        let ghost seen_before = seen@;
        let ghost issues_now = findings(issues@);
        let ghost list_now = interstitials_of(list@);
        assert(slices(rows@)[i as int] == rows@[i as int]@);
        if let Some(a) = read_date_range(rows[i]) {
            if in_class(&a) {
                assert(is_class_line(all, i as int));
                let id = or_blank(a.get("ID"));
                if id.as_str().is_empty() || !seen.contains(id.as_str()) {
                    assert(introduces(all, i as int));
                    seen.insert(id);
                    let faults = find_faults(&a, pl.name.as_str());
                    let notes = report_faults(issues, faults, pl.name.as_str());
                    let found = make_entry(&a, pl, notes);
                    let ghost added = found@;
                    list.push(found);
                    assert(interstitials_of(list@) =~= list_now.push(added));
                }
            }
        }
        proof {
            let f = line_issue_rule(*pl);
            let g = line_entry_rule(*pl);
            assert(findings(issues@) =~= issues_now + f(i as int));
            assert(interstitials_of(list@) =~= list_now + g(i as int));
            assert(issues_before + gathered(i as nat, f) + f(i as int) =~= issues_before + (
            gathered(i as nat, f) + f(i as int)));
            assert(list_before + gathered(i as nat, g) + g(i as int) =~= list_before + (gathered(
                i as nat,
                g,
            ) + g(i as int)));
            assert forall|id: Seq<char>| id.len() > 0 implies (#[trigger] seen@.contains(id)
                <==> described_before(all, i + 1, id)) by {
                assert(seen_before.contains(id) <==> described_before(all, i as int, id));
                if described_before(all, i as int, id) {
                    let j = choose|j: int|
                        0 <= j < i && #[trigger] is_class_line(all, j) && tag_id(
                            date_range(all[j])->0,
                        ) == id;
                    assert(is_class_line(all, j));
                }
                if described_before(all, i + 1, id) && !described_before(all, i as int, id) {
                    assert(is_class_line(all, i as int));
                }
            }
        }
        i = i + 1;
    }
}

/// Adds what one closing tag says to the first interstitial of its identifier.
fn complete(list: &mut Vec<Interstitial>, a: &Attributes)
    ensures
        interstitials_of(final(list)@) == with_tag(interstitials_of(old(list)@), a@),
{
    let id = or_blank(a.get("ID"));
    let ghost before = interstitials_of(list@);
    let mut k: usize = 0;
    while k < list.len() && !same_text(list[k].id.as_str(), id.as_str())
        invariant
            k <= list.len(),
            before == interstitials_of(list@),
            list@ == old(list)@,
            forall|j: int| 0 <= j < k ==> (#[trigger] before[j]).id != id@,
        decreases list.len() - k,
    {
        assert(before[k as int].id == list@[k as int].id@);
        k = k + 1;
    }
    if k < list.len() {
        assert(before[k as int] == list@[k as int]@);
        assert(is_first_of_id(before, k as int));
        if list[k].playout_limit.is_none() {
            list[k].playout_limit = read_number(a.get("X-PLAYOUT-LIMIT"));
        }
        if list[k].resume_offset.is_none() {
            list[k].resume_offset = read_number(a.get("X-RESUME-OFFSET"));
        }
        proof {
            let now = interstitials_of(list@);
            assert(now[k as int] == list@[k as int]@);
            assert(now[k as int] == filled(before[k as int], a@));
            assert forall|j: int| 0 <= j < now.len() && j != k implies #[trigger] now[j]
                == before[j] && !(is_first_of_id(before, j) && before[j].id == tag_id(a@)) by {
                assert(list@[j] == old(list)@[j]);
                if j > k && before[j].id == tag_id(a@) {
                    assert(before[k as int].id == before[j].id);
                }
            }
            assert(now =~= with_tag(before, a@));
        }
    } else {
        assert(interstitials_of(list@) =~= with_tag(before, a@));
    }
}

/// Adds what the closing tags of one playlist say.
fn complete_from(
    pl: &MediaPlaylist,
    list: &mut Vec<Interstitial>,
    base: Ghost<Seq<InterstitialView>>,
    tags: Ghost<Seq<Seq<(Seq<char>, Seq<char>)>>>,
)
    requires
        interstitials_of(old(list)@) == merged(base@, tags@),
    ensures
        interstitials_of(final(list)@) == merged(
            base@,
            tags@ + gathered(lines_of(pl.raw_content@).len(), line_tag_rule(*pl)),
        ),
{
    let content = chars_of(pl.raw_content.as_str());
    let rows = lines(content.as_slice());
    let ghost all = lines_of(pl.raw_content@);
    let ghost f = line_tag_rule(*pl);
    let mut i: usize = 0;
    assert(tags@ + gathered(0, f) =~= tags@);
    while i < rows.len()
        invariant
            i <= rows.len(),
            all == lines_of(pl.raw_content@),
            slices(rows@) == all,
            f == line_tag_rule(*pl),
            interstitials_of(list@) == merged(base@, tags@ + gathered(i as nat, f)),
        decreases rows.len() - i,
    {
        let ghost now = tags@ + gathered(i as nat, f);
        assert(slices(rows@)[i as int] == rows@[i as int]@);
        if let Some(a) = read_date_range(rows[i]) {
            if !in_class(&a) {
                complete(list, &a);
                proof {
                    lemma_merged_push(base@, now, a@);
                    assert(f(i as int) == seq![a@]);
                    assert(now.push(a@) =~= tags@ + gathered((i + 1) as nat, f));
                }
            }
        }
        proof {
            if f(i as int).len() == 0 {
                assert(now =~= tags@ + gathered((i + 1) as nat, f));
            }
        }
        i = i + 1;
    }
}

/// The findings of one more playlist come after those of the playlists before
/// it, and so do its interstitials and its other tags.
proof fn lemma_next_playlist(playlists: Seq<MediaPlaylist>, i: int)
    requires
        0 <= i < playlists.len(),
    ensures
        gathered((i + 1) as nat, interstitial_rule(playlists)) == gathered(
            i as nat,
            interstitial_rule(playlists),
        ) + interstitial_findings(playlists[i]),
        gathered((i + 1) as nat, entry_rule(playlists)) == gathered(i as nat, entry_rule(playlists))
            + playlist_entries(playlists[i]),
        gathered((i + 1) as nat, tag_rule(playlists)) == gathered(i as nat, tag_rule(playlists))
            + gathered(
            lines_of(playlists[i].raw_content@).len(),
            line_tag_rule(playlists[i]),
        ),
{
}

/// The findings name no check of their own.
proof fn lemma_unassigned(playlists: Seq<MediaPlaylist>)
    ensures
        all_raised_by(
            gathered(playlists.len(), interstitial_rule(playlists)),
            CheckId::Unassigned,
        ),
{
    let id = CheckId::Unassigned;
    assert forall|k: int| 0 <= k < playlists.len() implies all_raised_by(
        #[trigger] interstitial_rule(playlists)(k),
        id,
    ) by {
        let pl = playlists[k];
        lemma_gathered_raised_by(lines_of(pl.raw_content@).len(), line_issue_rule(pl), id);
    }
    lemma_gathered_raised_by(playlists.len(), interstitial_rule(playlists), id);
}

/// Reports on the interstitials of the playlists and collects them.
fn read_playlists(playlists: &[MediaPlaylist]) -> (r: (Vec<Issue>, Vec<Interstitial>))
    ensures
        findings(r.0@) == gathered(playlists@.len(), interstitial_rule(playlists@)),
        interstitials_of(r.1@) == entries(playlists@),
{
    let ghost f = interstitial_rule(playlists@);
    let ghost g = entry_rule(playlists@);
    let mut issues: Vec<Issue> = Vec::new();
    let mut list: Vec<Interstitial> = Vec::new();
    let mut i: usize = 0;
    assert(findings(issues@) =~= gathered(0, f));
    assert(interstitials_of(list@) =~= gathered(0, g));
    while i < playlists.len()
        invariant
            i <= playlists.len(),
            f == interstitial_rule(playlists@),
            g == entry_rule(playlists@),
            findings(issues@) == gathered(i as nat, f),
            interstitials_of(list@) == gathered(i as nat, g),
        decreases playlists.len() - i,
    {
        read_playlist(&playlists[i], &mut issues, &mut list);
        proof {
            lemma_next_playlist(playlists@, i as int);
        }
        i = i + 1;
    }
    (issues, list)
}

/// Adds what the closing tags of the playlists say.
fn complete_all(playlists: &[MediaPlaylist], list: &mut Vec<Interstitial>)
    ensures
        interstitials_of(final(list)@) == merged(
            interstitials_of(old(list)@),
            other_tags(playlists@),
        ),
{
    let ghost base = interstitials_of(list@);
    let ghost f = tag_rule(playlists@);
    let mut i: usize = 0;
    assert(merged(base, gathered(0, f)) =~= base);
    while i < playlists.len()
        invariant
            i <= playlists.len(),
            f == tag_rule(playlists@),
            interstitials_of(list@) == merged(base, gathered(i as nat, f)),
        decreases playlists.len() - i,
    {
        complete_from(&playlists[i], list, Ghost(base), Ghost(gathered(i as nat, f)));
        proof {
            lemma_next_playlist(playlists@, i as int);
        }
        i = i + 1;
    }
}

/// Every interstitial names its identifier, its start date and its asset, and
/// its attributes have the values they may have.
///
/// A second tag of the interstitial class with the same identifier in the same
/// playlist is an update: it need not repeat the asset, so only the first tag
/// of each identifier is reported on and gives an interstitial. Tags of no
/// class with that identifier add the playout limit and the resume offset
/// where the interstitial has none of its own.
pub fn check_interstitials(playlists: &[MediaPlaylist]) -> (r: (Vec<Issue>, Vec<Interstitial>))
    ensures
        findings(r.0@) == named(
            CheckId::Interstitials,
            gathered(playlists@.len(), interstitial_rule(playlists@)),
        ),
        interstitials_of(r.1@) == merged(entries(playlists@), other_tags(playlists@)),
        all_raised_by(findings(r.0@), CheckId::Interstitials),
{
    let (issues, mut list) = read_playlists(playlists);
    complete_all(playlists, &mut list);
    proof {
        lemma_unassigned(playlists@);
    }
    (produced_by(CheckId::Interstitials, issues), list)
}

} // verus!
