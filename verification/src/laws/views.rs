//! What findings and interstitials stand for: their fields, one by one.
use crate::checks::interstitials::{faults_of, interstitials_of, label_fault, Fault};
use crate::checks::renditions::mix_message;
use crate::double::{decoded, Double};
use crate::numeral::number_in;
use crate::text::{optional, slices, text_or, texts};
use crate::types::{findings, pairs, Interstitial, Issue};
use vstd::prelude::*;

verus! {

/// An optional text stands for its characters, and none for none.
pub proof fn law_optional_texts(s: String, x: Double, default: Seq<char>)
    ensures
        optional(Some(s)) == Some(s@),
        optional(None) is None,
        text_or(Some(s), default) == s@,
        text_or(None, default) == default,
        number_in(Some(x)) == Some(decoded(x.bits)),
        number_in(None) is None,
{
}

/// A finding says what its fields hold.
pub proof fn law_finding_says_its_fields(issue: Issue)
    ensures
        issue@.severity == issue.severity,
        issue@.check_id == issue.check_id,
        issue@.segment_index == issue.segment_index,
        issue@.rendition_a == optional(issue.rendition_a),
        issue@.rendition_b == optional(issue.rendition_b),
        issue@.uri_a == optional(issue.uri_a),
        issue@.uri_b == optional(issue.uri_b),
        issue@.message == issue.message@,
        issue@.uri_note == optional(issue.uri_note),
{
}

/// What is known of an interstitial is what its fields hold.
pub proof fn law_interstitial_is_its_fields(v: Interstitial)
    ensures
        v@.rendition == v.rendition@,
        v@.id == v.id@,
        v@.start_date == v.start_date@,
        v@.asset_uri == optional(v.asset_uri),
        v@.asset_list == optional(v.asset_list),
        v@.resume_offset == number_in(v.resume_offset),
        v@.playout_limit == number_in(v.playout_limit),
        v@.planned_duration_s == number_in(v.planned_duration_s),
        v@.snap == optional(v.snap),
        v@.cue == optional(v.cue),
        v@.timeline_style == optional(v.timeline_style),
        v@.errors == texts(v.errors@),
        v@.start_offset_s == v.start_offset_s,
        v@.content_duration_s == v.content_duration_s,
        v@.rendition_url == v.rendition_url@,
        v@.definitions == pairs(v.definitions@),
{
}

/// A fault says what its fields hold.
pub proof fn law_fault_says_its_fields(fault: Fault)
    ensures
        fault@.severity == fault.severity,
        fault@.note == fault.note@,
        fault@.message == fault.message@,
{
}

/// Lists stand for their elements, one by one and in order.
pub proof fn law_lists_one_by_one(
    issues: Seq<Issue>,
    list: Seq<Interstitial>,
    faults: Seq<Fault>,
    words: Seq<String>,
    named: Seq<(String, String)>,
    rows: Seq<&[char]>,
    k: int,
)
    ensures
        findings(issues).len() == issues.len(),
        0 <= k < issues.len() ==> findings(issues)[k] == issues[k]@,
        interstitials_of(list).len() == list.len(),
        0 <= k < list.len() ==> interstitials_of(list)[k] == list[k]@,
        faults_of(faults).len() == faults.len(),
        0 <= k < faults.len() ==> faults_of(faults)[k] == faults[k]@,
        texts(words).len() == words.len(),
        0 <= k < words.len() ==> texts(words)[k] == words[k]@,
        pairs(named).len() == named.len(),
        0 <= k < named.len() ==> pairs(named)[k] == (named[k].0@, named[k].1@),
        slices(rows).len() == rows.len(),
        0 <= k < rows.len() ==> slices(rows)[k] == rows[k]@,
{
}

/// What is shown of a label or of methods stands in the words as it is given.
pub proof fn law_shown_as_given(
    id: Seq<char>,
    label: Seq<char>,
    shown: Seq<char>,
    name: Seq<char>,
)
    ensures
        label_fault(id, label, shown, name).severity == crate::types::Severity::Error,
        label_fault(id, label, shown, name).note == "X-SKIP-CONTROL-LABEL-ID='"@ + label
            + "' contains invalid chars "@ + shown,
        label_fault(id, label, shown, name).message == "Interstitial: ["@ + id
            + "] X-SKIP-CONTROL-LABEL-ID='"@ + label + "' contains invalid characters "@ + shown
            + " in '"@ + name + "' (rfc8216bis §D.3: MUST be [a-z][A-Z]'-''_' only)."@,
        mix_message(name, shown) == "RFC 8216bis §4.4.4.4: Playlist '"@ + name
            + "' uses multiple encryption methods: "@ + shown + "."@,
{
}

} // verus!
