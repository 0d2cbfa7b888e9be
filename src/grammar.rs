//! The outline grammar, rule by rule, over absolute char positions.
//!
//! Each rule reads the input `s` from position `i` and either yields the
//! position where the unread rest begins together with a value, or fails with
//! an error kind and the offset where the failure was found.
use crate::outline::{ErrorKind, Marker, SectionModel, PlanModel};
use crate::text::{
    has_tag, is_blank, line_break_len, line_end, lone_cr, skip_blank, skip_letters, skip_space,
    trim, lemma_line_end_bounds, lemma_skip_blank_bounds,
};
use vstd::prelude::*;

verus! {

pub type Outcome<T> = Result<(int, T), (ErrorKind, int)>;

pub open spec fn topic_tag() -> Seq<char> {
    seq!['T', 'o', 'p', 'i', 'c', ':']
}

pub open spec fn outline_tag() -> Seq<char> {
    seq!['O', 'u', 't', 'l', 'i', 'n', 'e', ':']
}

pub open spec fn note_tag() -> Seq<char> {
    seq!['N', 'o', 't', 'e', ':', ' ']
}

pub open spec fn bullet_tag() -> Seq<char> {
    seq!['-', ' ']
}

pub open spec fn header_sep() -> Seq<char> {
    seq!['.', ' ']
}

pub proof fn lemma_tag_lengths()
    ensures
        topic_tag().len() == 6,
        outline_tag().len() == 8,
        note_tag().len() == 6,
        bullet_tag().len() == 2,
        header_sep().len() == 2,
{
}

/// `Topic:` and the rest of its line, which must end in a line terminator;
/// the whitespace after it is skipped.
pub open spec fn topic_rule(s: Seq<char>, i: int) -> Outcome<Seq<char>> {
    if !has_tag(s, i, topic_tag()) {
        Err((ErrorKind::ExpectedTag(Marker::Topic), i))
    } else {
        let e = line_end(s, i + 6);
        if e >= s.len() {
            Err((ErrorKind::IncompleteDocument, e))
        } else if lone_cr(s, e) {
            Err((ErrorKind::StrayCarriageReturn, e))
        } else {
            Ok((skip_space(s, e + line_break_len(s, e)), trim(s.subrange(i + 6, e))))
        }
    }
}

/// One or more letters, then `. `, then text up to a line terminator.
pub open spec fn header_rule(s: Seq<char>, i: int) -> Outcome<Seq<char>> {
    let k = skip_letters(s, i);
    if k == i || !has_tag(s, k, header_sep()) {
        Err((ErrorKind::MalformedHeader, i))
    } else {
        let e = line_end(s, k + 2);
        if e >= s.len() {
            Err((ErrorKind::MalformedHeader, i))
        } else if lone_cr(s, e) {
            Err((ErrorKind::StrayCarriageReturn, e))
        } else {
            Ok((e + line_break_len(s, e), trim(s.subrange(k + 2, e))))
        }
    }
}

/// A line that starts with `- `; the blank characters after its text are
/// skipped.
pub open spec fn query_rule(s: Seq<char>, i: int) -> Outcome<Seq<char>> {
    if !has_tag(s, i, bullet_tag()) {
        Err((ErrorKind::ExpectedTag(Marker::Bullet), i))
    } else {
        let e = line_end(s, i + 2);
        if lone_cr(s, e) {
            Err((ErrorKind::StrayCarriageReturn, e))
        } else {
            Ok((skip_blank(s, e), trim(s.subrange(i + 2, e))))
        }
    }
}

#[via_fn]
proof fn queries_from_decreases(s: Seq<char>, i: int) {
    if 0 <= i && has_tag(s, i, bullet_tag()) && !lone_cr(s, line_end(s, i + 2)) {
        lemma_line_end_bounds(s, i + 2);
        lemma_skip_blank_bounds(s, line_end(s, i + 2));
    }
}

/// As many well-formed queries as follow one another from `i` (possibly
/// none).
pub open spec fn queries_from(s: Seq<char>, i: int) -> (int, Seq<Seq<char>>)
    decreases s.len() - i
    via queries_from_decreases
{
    if 0 <= i && has_tag(s, i, bullet_tag()) && !lone_cr(s, line_end(s, i + 2)) {
        let e = line_end(s, i + 2);
        let (k, qs) = queries_from(s, skip_blank(s, e));
        (k, seq![trim(s.subrange(i + 2, e))] + qs)
    } else {
        (i, Seq::empty())
    }
}

/// One query or more.
pub open spec fn queries_rule(s: Seq<char>, i: int) -> Outcome<Seq<Seq<char>>> {
    if !has_tag(s, i, bullet_tag()) {
        Err((ErrorKind::ExpectedTag(Marker::Bullet), i))
    } else if lone_cr(s, line_end(s, i + 2)) {
        Err((ErrorKind::StrayCarriageReturn, line_end(s, i + 2)))
    } else {
        Ok(queries_from(s, i))
    }
}

/// An optional `Note: ` line after blank characters; the blank characters
/// that follow are skipped either way. A note line with a stray carriage
/// return is no note.
pub open spec fn note_rule(s: Seq<char>, i: int) -> (int, Option<Seq<char>>) {
    let k = skip_blank(s, i);
    if has_tag(s, k, note_tag()) && !lone_cr(s, line_end(s, k + 6)) {
        let e = line_end(s, k + 6);
        (skip_blank(s, e), Some(trim(s.subrange(k + 6, e))))
    } else {
        (k, None)
    }
}

/// A header, blank lines, one query or more, and an optional note.
pub open spec fn section_rule(s: Seq<char>, i: int) -> Outcome<SectionModel> {
    match header_rule(s, i) {
        Err(e) => Err(e),
        Ok((j, header)) => {
            let k = skip_blank(s, j);
            if !has_tag(s, k, bullet_tag()) {
                Err((ErrorKind::IncompleteSection, k))
            } else if lone_cr(s, line_end(s, k + 2)) {
                Err((ErrorKind::StrayCarriageReturn, line_end(s, k + 2)))
            } else {
                let (m, queries) = queries_from(s, k);
                let (n, note) = note_rule(s, m);
                Ok((n, SectionModel { header, queries, note }))
            }
        },
    }
}

/// Text at `i` has the shape that opens a section: letters, then `. `.
pub open spec fn starts_header(s: Seq<char>, i: int) -> bool {
    skip_letters(s, i) > i && has_tag(s, skip_letters(s, i), header_sep())
}

pub proof fn lemma_queries_from_bounds(s: Seq<char>, i: int)
    requires
        0 <= i <= s.len(),
    ensures
        i <= queries_from(s, i).0 <= s.len(),
    decreases s.len() - i,
{
    if has_tag(s, i, bullet_tag()) && !lone_cr(s, line_end(s, i + 2)) {
        lemma_line_end_bounds(s, i + 2);
        lemma_skip_blank_bounds(s, line_end(s, i + 2));
        lemma_queries_from_bounds(s, skip_blank(s, line_end(s, i + 2)));
    }
}

pub proof fn lemma_note_bounds(s: Seq<char>, i: int)
    requires
        0 <= i <= s.len(),
    ensures
        i <= note_rule(s, i).0 <= s.len(),
{
    let k = skip_blank(s, i);
    lemma_skip_blank_bounds(s, i);
    if has_tag(s, k, note_tag()) && !lone_cr(s, line_end(s, k + 6)) {
        lemma_line_end_bounds(s, k + 6);
        lemma_skip_blank_bounds(s, line_end(s, k + 6));
    }
}

/// A section that parses ends after its start, within the input.
pub proof fn lemma_section_bounds(s: Seq<char>, i: int)
    requires
        0 <= i <= s.len(),
        section_rule(s, i) is Ok,
    ensures
        i < section_rule(s, i)->Ok_0.0 <= s.len(),
{
    let k = skip_letters(s, i);
    crate::text::lemma_skip_letters_bounds(s, i);
    lemma_line_end_bounds(s, k + 2);
    let j = line_end(s, k + 2) + line_break_len(s, line_end(s, k + 2));
    lemma_skip_blank_bounds(s, j);
    let m = skip_blank(s, j);
    lemma_queries_from_bounds(s, m);
    lemma_note_bounds(s, queries_from(s, m).0);
}

#[via_fn]
proof fn sections_from_decreases(s: Seq<char>, i: int) {
    if 0 <= i <= s.len() && section_rule(s, i) is Ok {
        lemma_section_bounds(s, i);
    }
}

/// One section, then more for as long as the rest opens with a header.
pub open spec fn sections_from(s: Seq<char>, i: int) -> Outcome<Seq<SectionModel>>
    decreases s.len() - i
    via sections_from_decreases
{
    if 0 <= i <= s.len() {
        match section_rule(s, i) {
            Err(e) => Err(e),
            Ok((j, sec)) => {
                if starts_header(s, j) {
                    match sections_from(s, j) {
                        Err(e) => Err(e),
                        Ok((k, rest)) => Ok((k, seq![sec] + rest)),
                    }
                } else {
                    Ok((j, seq![sec]))
                }
            },
        }
    } else {
        Err((ErrorKind::IncompleteDocument, i))
    }
}

/// `Outline:`, whitespace, and one section or more.
pub open spec fn sections_rule(s: Seq<char>, i: int) -> Outcome<Seq<SectionModel>> {
    if !(has_tag(s, i, outline_tag()) && i + 8 < s.len() && is_blank(s[i + 8])) {
        Err((ErrorKind::ExpectedTag(Marker::Outline), i))
    } else {
        let k = skip_blank(s, i + 8);
        if k >= s.len() {
            Err((ErrorKind::IncompleteDocument, k))
        } else {
            sections_from(s, k)
        }
    }
}

/// The topic, then the sections.
pub open spec fn plan_rule(s: Seq<char>, i: int) -> Outcome<PlanModel> {
    match topic_rule(s, i) {
        Err(e) => Err(e),
        Ok((j, topic)) => match sections_rule(s, j) {
            Err(e) => Err(e),
            Ok((k, sections)) => Ok((k, PlanModel { topic, sections })),
        },
    }
}

/// A whole input that is exactly one outline.
pub open spec fn document_rule(s: Seq<char>) -> Result<PlanModel, (ErrorKind, int)> {
    match plan_rule(s, 0) {
        Err(e) => Err(e),
        Ok((k, plan)) => if k < s.len() {
            Err((ErrorKind::UnexpectedTrailingInput, k))
        } else {
            Ok(plan)
        },
    }
}

} // verus!
