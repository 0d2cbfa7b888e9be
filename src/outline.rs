//! The parsed outline and the ways a parse can fail.
use vstd::prelude::*;

verus! {

/// One outline subdivision: a header, its bullet queries and an optional note.
#[derive(Debug, PartialEq, Eq)]
pub struct Section {
    pub header: String,
    pub queries: Vec<String>,
    pub note: Option<String>,
}

/// A whole outline: the topic and its sections, in order.
#[derive(Debug, PartialEq, Eq)]
pub struct Plan {
    pub topic: String,
    pub sections: Vec<Section>,
}

/// What a section is, as text.
pub struct SectionModel {
    pub header: Seq<char>,
    pub queries: Seq<Seq<char>>,
    pub note: Option<Seq<char>>,
}

/// What a plan is, as text.
pub struct PlanModel {
    pub topic: Seq<char>,
    pub sections: Seq<SectionModel>,
}

pub open spec fn note_model(n: Option<String>) -> Option<Seq<char>> {
    match n {
        Some(t) => Some(t@),
        None => None,
    }
}

pub open spec fn texts_model(v: Seq<String>) -> Seq<Seq<char>> {
    v.map_values(|q: String| q@)
}

impl View for Section {
    type V = SectionModel;

    open spec fn view(&self) -> SectionModel {
        SectionModel {
            header: self.header@,
            queries: texts_model(self.queries@),
            note: note_model(self.note),
        }
    }
}

pub open spec fn sections_model(v: Seq<Section>) -> Seq<SectionModel> {
    v.map_values(|x: Section| x@)
}

impl View for Plan {
    type V = PlanModel;

    open spec fn view(&self) -> PlanModel {
        PlanModel { topic: self.topic@, sections: sections_model(self.sections@) }
    }
}

/// A literal marker that the grammar requires at some position.
#[derive(Debug, Clone, Copy, PartialEq, Eq, Structural)]
pub enum Marker {
    /// `Topic:` at the start of the outline.
    Topic,
    /// `Outline:` followed by whitespace, before the first section.
    Outline,
    /// `- ` at the start of a bullet query.
    Bullet,
}

/// Which structural element could not be recognised.
#[derive(Debug, Clone, Copy, PartialEq, Eq, Structural)]
pub enum ErrorKind {
    /// A required literal marker was absent.
    ExpectedTag(Marker),
    /// A header line lacked its letters, its `. ` separator or its line end.
    MalformedHeader,
    /// A header was followed by no bullet query.
    IncompleteSection,
    /// The topic line had no line end, or no section followed `Outline:`.
    IncompleteDocument,
    /// A line held a carriage return that no line feed follows.
    StrayCarriageReturn,
    /// Text remained after a complete outline.
    UnexpectedTrailingInput,
}

/// A failed parse: what went wrong, and at which char offset of the input.
#[derive(Debug, Clone, Copy, PartialEq, Eq, Structural)]
pub struct ParseError {
    pub kind: ErrorKind,
    pub offset: usize,
}

} // verus!
