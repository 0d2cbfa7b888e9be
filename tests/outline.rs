use essay_writer::outline::{ErrorKind, Marker, ParseError, Plan, Section};
use essay_writer::parser::{parse, parse_header, parse_note, parse_plan, parse_query, parse_section, parse_sections, parse_topic};
use essay_writer::state::AgentState;

fn section(header: &str, queries: &[&str], note: Option<&str>) -> Section {
    Section {
        header: header.to_string(),
        queries: queries.iter().map(|q| q.to_string()).collect(),
        note: note.map(|n| n.to_string()),
    }
}

#[test]
fn minimal_document_parses() {
    let plan = parse("Topic: X\n\nOutline:\n\nI. Intro\n- a\n- b\n").unwrap();
    let expected = Plan {
        topic: "X".to_string(),
        sections: vec![section("Intro", &["a", "b"], None)],
    };
    assert_eq!(plan, expected);
}

#[test]
fn document_with_note_parses() {
    let plan = parse("Topic: X\n\nOutline:\n\nI. Intro\n- a\n- b\nNote: check sources\n\n").unwrap();
    let expected = Plan {
        topic: "X".to_string(),
        sections: vec![section("Intro", &["a", "b"], Some("check sources"))],
    };
    assert_eq!(plan, expected);
}

#[test]
fn missing_topic_tag_fails() {
    let r = parse("Subject: X\n\nOutline:\n\nI. Intro\n- a\n");
    assert_eq!(r, Err(ParseError { kind: ErrorKind::ExpectedTag(Marker::Topic), offset: 0 }));
}

#[test]
fn header_without_separator_fails() {
    let r = parse("Topic: X\n\nOutline:\n\nI Intro\n- a\n");
    assert_eq!(r, Err(ParseError { kind: ErrorKind::MalformedHeader, offset: 20 }));
    let h = parse_header("I Intro\n");
    assert_eq!(h, Err(ParseError { kind: ErrorKind::MalformedHeader, offset: 0 }));
}

#[test]
fn header_followed_by_header_fails() {
    let r = parse("Topic: X\n\nOutline:\n\nI. Intro\nII. Next\n- a\n");
    assert_eq!(r, Err(ParseError { kind: ErrorKind::IncompleteSection, offset: 29 }));
}

#[test]
fn header_followed_by_note_or_end_fails() {
    let r = parse("Topic: X\n\nOutline:\n\nI. Intro\nNote: n\n");
    assert_eq!(r.unwrap_err().kind, ErrorKind::IncompleteSection);
    let r = parse("Topic: X\n\nOutline:\n\nI. Intro\n");
    assert_eq!(r.unwrap_err().kind, ErrorKind::IncompleteSection);
    let r = parse("Topic: X\n\nOutline:\n\nI. Intro\n- a\n\nII. Next\n");
    assert_eq!(r.unwrap_err().kind, ErrorKind::IncompleteSection);
}

#[test]
fn notes_are_optional_per_section_in_either_order() {
    let first = parse("Topic: T\n\nOutline:\n\nI. A\n- a\n\nNote: n\n\nII. B\n- b\n").unwrap();
    assert_eq!(
        first.sections,
        vec![section("A", &["a"], Some("n")), section("B", &["b"], None)]
    );
    let second = parse("Topic: T\n\nOutline:\n\nI. A\n- a\n\nII. B\n- b\n\nNote: n\n").unwrap();
    assert_eq!(
        second.sections,
        vec![section("A", &["a"], None), section("B", &["b"], Some("n"))]
    );
}

#[test]
fn extra_blank_lines_do_not_change_the_result() {
    let plain = parse("Topic: T\n\nOutline:\n\nI. A\n- a\n- b\nNote: n\n").unwrap();
    let spaced = parse("Topic: T\n\nOutline:\n\nI. A\n\n\n- a\n- b\n\n\n\nNote: n\n").unwrap();
    assert_eq!(plain, spaced);
}

#[test]
fn rendered_document_round_trips() {
    let text = "Topic: Rivers\n\nOutline:\n\nI. Sources\n- springs\n- glaciers\n\nNote: keep it short\n\nII. Deltas\n- silt\n\n";
    let expected = Plan {
        topic: "Rivers".to_string(),
        sections: vec![
            section("Sources", &["springs", "glaciers"], Some("keep it short")),
            section("Deltas", &["silt"], None),
        ],
    };
    assert_eq!(parse(text).unwrap(), expected);
}

#[test]
fn missing_outline_marker_fails() {
    let r = parse("Topic: X\n\nI. Intro\n- a\n");
    assert_eq!(r, Err(ParseError { kind: ErrorKind::ExpectedTag(Marker::Outline), offset: 10 }));
}

#[test]
fn outline_without_sections_fails() {
    let r = parse("Topic: X\n\nOutline:\n\n");
    assert_eq!(r, Err(ParseError { kind: ErrorKind::IncompleteDocument, offset: 20 }));
}

#[test]
fn topic_without_line_end_fails() {
    let r = parse_topic("Topic: X");
    assert_eq!(r, Err(ParseError { kind: ErrorKind::IncompleteDocument, offset: 8 }));
}

#[test]
fn trailing_text_is_rejected_by_full_parse() {
    let text = "Topic: X\n\nOutline:\n\nI. Intro\n- a\nthe end\n";
    let r = parse(text);
    assert_eq!(r, Err(ParseError { kind: ErrorKind::UnexpectedTrailingInput, offset: 33 }));
    let (rest, plan) = parse_plan(text).unwrap();
    assert_eq!(rest, "the end\n");
    assert_eq!(plan.sections, vec![section("Intro", &["a"], None)]);
}

#[test]
fn query_without_marker_fails() {
    let r = parse_query("* item\n");
    assert_eq!(r, Err(ParseError { kind: ErrorKind::ExpectedTag(Marker::Bullet), offset: 0 }));
}

#[test]
fn texts_are_trimmed() {
    let (rest, t) = parse_topic("Topic:   spaced out \t\n\n  Outline:").unwrap();
    assert_eq!(t, "spaced out");
    assert_eq!(rest, "Outline:");
    let (rest, q) = parse_query("-   padded  \n  - next").unwrap();
    assert_eq!(q, "padded");
    assert_eq!(rest, "- next");
    let (_, h) = parse_header("IV.   Wide  \u{a0}\n").unwrap();
    assert_eq!(h, "Wide");
}

#[test]
fn any_letters_enumerate_a_header() {
    let (rest, h) = parse_header("ZZZ. Title\nmore").unwrap();
    assert_eq!(h, "Title");
    assert_eq!(rest, "more");
}

#[test]
fn header_without_line_end_fails() {
    let r = parse_header("III. References");
    assert_eq!(r, Err(ParseError { kind: ErrorKind::MalformedHeader, offset: 0 }));
}

#[test]
fn absent_note_consumes_only_blank_lines() {
    let (rest, n) = parse_note("\n\nII. Next\n").unwrap();
    assert_eq!(n, None);
    assert_eq!(rest, "II. Next\n");
}

#[test]
fn non_ascii_text_is_kept() {
    let (rest, sec) = parse_section("I. Überblick\n- café ☕\n").unwrap();
    assert_eq!(sec, section("Überblick", &["café ☕"], None));
    assert_eq!(rest, "");
}

#[test]
fn sections_stop_before_text_that_is_no_header() {
    let (rest, v) = parse_sections("Outline:\nI. A\n- a\n\nclosing words").unwrap();
    assert_eq!(v, vec![section("A", &["a"], None)]);
    assert_eq!(rest, "closing words");
}

#[test]
fn new_state_starts_empty() {
    let s = AgentState::new("rivers".to_string(), 2);
    assert_eq!(s.task, "rivers");
    assert_eq!(s.revision_number, 2);
    assert_eq!(s.max_revisions, 2);
    assert!(s.plan.is_none() && s.queries.is_none() && s.urls.is_none());
    assert!(s.research.is_none() && s.draft.is_none() && s.critique.is_none());
    assert!(s.content.is_none());
}

#[test]
fn lone_carriage_return_in_a_line_fails() {
    let r = parse_topic("Topic: a\rb\n");
    assert_eq!(r, Err(ParseError { kind: ErrorKind::StrayCarriageReturn, offset: 8 }));
    let r = parse_header("I. a\rb\n");
    assert_eq!(r, Err(ParseError { kind: ErrorKind::StrayCarriageReturn, offset: 4 }));
    let r = parse_query("- a\rb\n");
    assert_eq!(r, Err(ParseError { kind: ErrorKind::StrayCarriageReturn, offset: 3 }));
    let r = parse("Topic: a\rb\n\nOutline:\n\nI. H\n- q\n\n");
    assert_eq!(r.unwrap_err().kind, ErrorKind::StrayCarriageReturn);
}

#[test]
fn note_with_lone_carriage_return_is_no_note() {
    let (rest, n) = parse_note("Note: a\rb\n").unwrap();
    assert_eq!(n, None);
    assert_eq!(rest, "Note: a\rb\n");
}

#[test]
fn carriage_return_line_feed_ends_lines() {
    let plan = parse("Topic: X\r\n\r\nOutline:\r\n\r\nI. Intro\r\n- a\r\n- b\r\n").unwrap();
    let expected = Plan {
        topic: "X".to_string(),
        sections: vec![section("Intro", &["a", "b"], None)],
    };
    assert_eq!(plan, expected);
}

#[test]
fn note_text_is_trimmed() {
    let (rest, n) = parse_note("Note: x  \n").unwrap();
    assert_eq!(n, Some("x".to_string()));
    assert_eq!(rest, "");
}
