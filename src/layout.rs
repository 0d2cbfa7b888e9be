//! How an outline is laid out as text: the shape that the parser reads back.
use crate::grammar::{bullet_tag, header_sep, note_tag, outline_tag, topic_tag};
use crate::outline::{PlanModel, SectionModel};
use crate::text::{is_letter, is_line_text};
use vstd::prelude::*;

verus! {

/// Blank lines placed around a section's parts.
pub struct Gaps {
    /// Extra blank lines between the header and the first query.
    pub after_header: nat,
    /// Blank lines between the last query and the note.
    pub before_note: nat,
}

/// The canonical layout: queries right under the header, one blank line
/// before the note.
pub open spec fn canonical_gaps() -> Gaps {
    Gaps { after_header: 0, before_note: 1 }
}

pub open spec fn line_feeds(n: nat) -> Seq<char> {
    Seq::new(n, |_k: int| '\n')
}

pub open spec fn query_lines(qs: Seq<Seq<char>>) -> Seq<char>
    decreases qs.len(),
{
    if qs.len() == 0 {
        Seq::empty()
    } else {
        bullet_tag() + qs[0] + seq!['\n'] + query_lines(qs.drop_first())
    }
}

pub open spec fn note_lines(note: Option<Seq<char>>, gap: nat) -> Seq<char> {
    match note {
        Some(n) => line_feeds(gap) + note_tag() + n + seq!['\n'],
        None => Seq::empty(),
    }
}

/// `label. header`, the queries, the note if any, and a blank line.
pub open spec fn section_text(sec: SectionModel, label: Seq<char>, gaps: Gaps) -> Seq<char> {
    label + header_sep() + sec.header + seq!['\n'] + line_feeds(gaps.after_header) + query_lines(
        sec.queries,
    ) + note_lines(sec.note, gaps.before_note) + seq!['\n']
}

pub open spec fn sections_text(
    secs: Seq<SectionModel>,
    labels: Seq<Seq<char>>,
    gaps: Seq<Gaps>,
) -> Seq<char>
    decreases secs.len(),
{
    if secs.len() == 0 {
        Seq::empty()
    } else {
        section_text(secs[0], labels[0], gaps[0]) + sections_text(
            secs.drop_first(),
            labels.drop_first(),
            gaps.drop_first(),
        )
    }
}

/// `Topic: topic`, a blank line, `Outline:`, a blank line, the sections.
pub open spec fn plan_text(p: PlanModel, labels: Seq<Seq<char>>, gaps: Seq<Gaps>) -> Seq<char> {
    topic_tag() + seq![' '] + p.topic + seq!['\n', '\n'] + outline_tag() + seq!['\n', '\n']
        + sections_text(p.sections, labels, gaps)
}

/// A section enumerator: one letter or more.
pub open spec fn is_label(l: Seq<char>) -> bool {
    l.len() > 0 && forall|k: int| 0 <= k < l.len() ==> is_letter(#[trigger] l[k])
}

/// A section that can be laid out and read back: one query or more, and all
/// texts single lines without surrounding whitespace.
pub open spec fn valid_section(sec: SectionModel) -> bool {
    &&& is_line_text(sec.header)
    &&& sec.queries.len() > 0
    &&& forall|k: int| 0 <= k < sec.queries.len() ==> is_line_text(#[trigger] sec.queries[k])
    &&& sec.note matches Some(n) ==> is_line_text(n)
}

/// An outline with one label and one set of gaps per section.
pub open spec fn valid_plan(p: PlanModel, labels: Seq<Seq<char>>, gaps: Seq<Gaps>) -> bool {
    &&& is_line_text(p.topic)
    &&& p.sections.len() > 0
    &&& labels.len() == p.sections.len()
    &&& gaps.len() == p.sections.len()
    &&& forall|k: int| 0 <= k < p.sections.len() ==> valid_section(#[trigger] p.sections[k])
    &&& forall|k: int| 0 <= k < labels.len() ==> is_label(#[trigger] labels[k])
}

} // verus!
