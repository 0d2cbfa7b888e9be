//! The executable parser. Each rule is proved to compute exactly what the
//! rule of the same name in `grammar` describes.
use crate::grammar::{
    bullet_tag, document_rule, header_rule, header_sep, note_rule, note_tag, outline_tag,
    plan_rule, queries_from, queries_rule, query_rule, section_rule, sections_from, sections_rule,
    starts_header, topic_rule, topic_tag, lemma_section_bounds, lemma_tag_lengths, Outcome,
};
use crate::outline::{
    note_model, sections_model, texts_model, ErrorKind, Marker, ParseError, Plan, Section,
};
use crate::text::{
    blank_end, break_len, char_is_blank, is_lone_cr, chars_of, find_line_end, letters_end, space_end, string_of, tag_at,
    trimmed, lemma_line_end_bounds, lemma_skip_blank_bounds, lemma_skip_letters_bounds,
    lemma_skip_space_bounds,
};
use vstd::prelude::*;

verus! {

/// The error kind and offset that a failure carries.
pub open spec fn err_of(e: ParseError) -> (ErrorKind, int) {
    (e.kind, e.offset as int)
}

/// The rule succeeded, ending at `j` with value `v`.
pub open spec fn ends_at<T>(m: Outcome<T>, j: usize, v: T) -> bool {
    m == Ok::<(int, T), (ErrorKind, int)>((j as int, v))
}

/// The rule failed as `e` says.
pub open spec fn fails_as<T>(m: Outcome<T>, e: ParseError) -> bool {
    m == Err::<(int, T), (ErrorKind, int)>(err_of(e))
}

/// The rule, run on `s` from its start, succeeded with value `v`, and `rest`
/// is what it left unread.
pub open spec fn yields<T>(m: Outcome<T>, s: Seq<char>, rest: Seq<char>, v: T) -> bool {
    &&& m is Ok
    &&& m->Ok_0.1 == v
    &&& 0 <= m->Ok_0.0 <= s.len()
    &&& rest == s.subrange(m->Ok_0.0, s.len() as int)
}

fn topic_chars() -> (r: Vec<char>)
    ensures
        r@ == topic_tag(),
{
    let r = vec!['T', 'o', 'p', 'i', 'c', ':'];
    assert(r@ =~= topic_tag());
    r
}

fn outline_chars() -> (r: Vec<char>)
    ensures
        r@ == outline_tag(),
{
    let r = vec!['O', 'u', 't', 'l', 'i', 'n', 'e', ':'];
    assert(r@ =~= outline_tag());
    r
}

fn note_chars() -> (r: Vec<char>)
    ensures
        r@ == note_tag(),
{
    let r = vec!['N', 'o', 't', 'e', ':', ' '];
    assert(r@ =~= note_tag());
    r
}

fn bullet_chars() -> (r: Vec<char>)
    ensures
        r@ == bullet_tag(),
{
    let r = vec!['-', ' '];
    assert(r@ =~= bullet_tag());
    r
}

fn sep_chars() -> (r: Vec<char>)
    ensures
        r@ == header_sep(),
{
    let r = vec!['.', ' '];
    assert(r@ =~= header_sep());
    r
}

fn topic_at(s: &Vec<char>, i: usize) -> (r: Result<(usize, String), ParseError>)
    requires
        i <= s@.len(),
    ensures
        match r {
            Ok((j, t)) => ends_at(topic_rule(s@, i as int), j, t@),
            Err(e) => fails_as(topic_rule(s@, i as int), e),
        },
{
    proof {
        lemma_tag_lengths();
    }
    let n = s.len();
    let tag = topic_chars();
    if !tag_at(s, i, &tag) {
        return Err(ParseError { kind: ErrorKind::ExpectedTag(Marker::Topic), offset: i });
    }
    let e = find_line_end(s, i + 6);
    proof {
        lemma_line_end_bounds(s@, i + 6);
    }
    if e >= n {
        return Err(ParseError { kind: ErrorKind::IncompleteDocument, offset: e });
    }
    if is_lone_cr(s, e) {
        return Err(ParseError { kind: ErrorKind::StrayCarriageReturn, offset: e });
    }
    let t = trimmed(s, i + 6, e);
    let j = space_end(s, e + break_len(s, e));
    Ok((j, t))
}

fn header_at(s: &Vec<char>, i: usize) -> (r: Result<(usize, String), ParseError>)
    requires
        i <= s@.len(),
    ensures
        match r {
            Ok((j, t)) => ends_at(header_rule(s@, i as int), j, t@),
            Err(e) => fails_as(header_rule(s@, i as int), e),
        },
{
    proof {
        lemma_tag_lengths();
    }
    let n = s.len();
    let k = letters_end(s, i);
    proof {
        lemma_skip_letters_bounds(s@, i as int);
    }
    let sep = sep_chars();
    if k == i || !tag_at(s, k, &sep) {
        return Err(ParseError { kind: ErrorKind::MalformedHeader, offset: i });
    }
    let e = find_line_end(s, k + 2);
    proof {
        lemma_line_end_bounds(s@, k + 2);
    }
    if e >= n {
        return Err(ParseError { kind: ErrorKind::MalformedHeader, offset: i });
    }
    if is_lone_cr(s, e) {
        return Err(ParseError { kind: ErrorKind::StrayCarriageReturn, offset: e });
    }
    let t = trimmed(s, k + 2, e);
    Ok((e + break_len(s, e), t))
}

fn query_at(s: &Vec<char>, i: usize) -> (r: Result<(usize, String), ParseError>)
    requires
        i <= s@.len(),
    ensures
        match r {
            Ok((j, t)) => ends_at(query_rule(s@, i as int), j, t@),
            Err(e) => fails_as(query_rule(s@, i as int), e),
        },
{
    proof {
        lemma_tag_lengths();
    }
    let n = s.len();
    let bullet = bullet_chars();
    if !tag_at(s, i, &bullet) {
        return Err(ParseError { kind: ErrorKind::ExpectedTag(Marker::Bullet), offset: i });
    }
    let e = find_line_end(s, i + 2);
    proof {
        lemma_line_end_bounds(s@, i + 2);
    }
    if is_lone_cr(s, e) {
        return Err(ParseError { kind: ErrorKind::StrayCarriageReturn, offset: e });
    }
    let t = trimmed(s, i + 2, e);
    let j = blank_end(s, e);
    Ok((j, t))
}

fn queries_at(s: &Vec<char>, i: usize) -> (r: (usize, Vec<String>))
    requires
        i <= s@.len(),
    ensures
        r.0 as int == queries_from(s@, i as int).0,
        texts_model(r.1@) == queries_from(s@, i as int).1,
{
    proof {
        lemma_tag_lengths();
    }
    let n = s.len();
    let bullet = bullet_chars();
    let mut out: Vec<String> = Vec::new();
    let mut j = i;
    assert(texts_model(out@) + queries_from(s@, i as int).1 =~= queries_from(s@, i as int).1);
    loop
        invariant
            j <= s@.len(),
            n == s@.len(),
            bullet@ == bullet_tag(),
            queries_from(s@, i as int).0 == queries_from(s@, j as int).0,
            queries_from(s@, i as int).1 == texts_model(out@) + queries_from(s@, j as int).1,
        ensures
            queries_from(s@, i as int).0 == j as int,
            queries_from(s@, i as int).1 == texts_model(out@),
        decreases s@.len() - j,
    {
        if !tag_at(s, j, &bullet) {
            assert(texts_model(out@) + queries_from(s@, j as int).1 =~= texts_model(out@));
            break ;
        }
        let e = find_line_end(s, j + 2);
        proof {
            lemma_line_end_bounds(s@, j + 2);
            lemma_skip_blank_bounds(s@, e as int);
        }
        if is_lone_cr(s, e) {
            assert(texts_model(out@) + queries_from(s@, j as int).1 =~= texts_model(out@));
            break ;
        }
        let q = trimmed(s, j + 2, e);
        let nj = blank_end(s, e);
        let ghost before = out@;
        out.push(q);
        proof {
            assert(texts_model(out@) =~= texts_model(before).push(q@));
            assert(texts_model(out@) + queries_from(s@, nj as int).1 =~= texts_model(before)
                + queries_from(s@, j as int).1);
        }
        j = nj;
    }
    (j, out)
}

fn queries_rule_at(s: &Vec<char>, i: usize) -> (r: Result<(usize, Vec<String>), ParseError>)
    requires
        i <= s@.len(),
    ensures
        match r {
            Ok((j, v)) => ends_at(queries_rule(s@, i as int), j, texts_model(v@)),
            Err(e) => fails_as(queries_rule(s@, i as int), e),
        },
{
    proof {
        lemma_tag_lengths();
    }
    let bullet = bullet_chars();
    if !tag_at(s, i, &bullet) {
        return Err(ParseError { kind: ErrorKind::ExpectedTag(Marker::Bullet), offset: i });
    }
    let n = s.len();
    let e = find_line_end(s, i + 2);
    proof {
        lemma_line_end_bounds(s@, i + 2);
    }
    if is_lone_cr(s, e) {
        return Err(ParseError { kind: ErrorKind::StrayCarriageReturn, offset: e });
    }
    Ok(queries_at(s, i))
}

fn note_at(s: &Vec<char>, i: usize) -> (r: (usize, Option<String>))
    requires
        i <= s@.len(),
    ensures
        note_rule(s@, i as int) == (r.0 as int, note_model(r.1)),
{
    proof {
        lemma_tag_lengths();
    }
    let k = blank_end(s, i);
    proof {
        lemma_skip_blank_bounds(s@, i as int);
    }
    let n = s.len();
    let tag = note_chars();
    if tag_at(s, k, &tag) {
        let e = find_line_end(s, k + 6);
        proof {
            lemma_line_end_bounds(s@, k + 6);
        }
        if !is_lone_cr(s, e) {
            let t = trimmed(s, k + 6, e);
            return (blank_end(s, e), Some(t));
        }
    }
    (k, None)
}

fn section_at(s: &Vec<char>, i: usize) -> (r: Result<(usize, Section), ParseError>)
    requires
        i <= s@.len(),
    ensures
        match r {
            Ok((j, sec)) => ends_at(section_rule(s@, i as int), j, sec@),
            Err(e) => fails_as(section_rule(s@, i as int), e),
        },
{
    proof {
        lemma_tag_lengths();
    }
    let (j, header) = match header_at(s, i) {
        Ok(p) => p,
        Err(e) => {
            return Err(e);
        },
    };
    proof {
        lemma_skip_letters_bounds(s@, i as int);
        lemma_line_end_bounds(s@, crate::text::skip_letters(s@, i as int) + 2);
    }
    let k = blank_end(s, j);
    proof {
        lemma_skip_blank_bounds(s@, j as int);
    }
    let n = s.len();
    let bullet = bullet_chars();
    if !tag_at(s, k, &bullet) {
        return Err(ParseError { kind: ErrorKind::IncompleteSection, offset: k });
    }
    let e = find_line_end(s, k + 2);
    proof {
        lemma_line_end_bounds(s@, k + 2);
    }
    if is_lone_cr(s, e) {
        return Err(ParseError { kind: ErrorKind::StrayCarriageReturn, offset: e });
    }
    let (m, queries) = queries_at(s, k);
    proof {
        crate::grammar::lemma_queries_from_bounds(s@, k as int);
    }
    let (n, note) = note_at(s, m);
    let sec = Section { header, queries, note };
    Ok((n, sec))
}

fn opens_header(s: &Vec<char>, i: usize) -> (r: bool)
    requires
        i <= s@.len(),
    ensures
        r == starts_header(s@, i as int),
{
    let k = letters_end(s, i);
    proof {
        lemma_skip_letters_bounds(s@, i as int);
    }
    let sep = sep_chars();
    k > i && tag_at(s, k, &sep)
}

fn sections_from_at(s: &Vec<char>, i: usize) -> (r: Result<(usize, Vec<Section>), ParseError>)
    requires
        i <= s@.len(),
    ensures
        match r {
            Ok((j, v)) => ends_at(sections_from(s@, i as int), j, sections_model(v@)) && j <= s@.len(),
            Err(e) => fails_as(sections_from(s@, i as int), e),
        },
{
    let mut out: Vec<Section> = Vec::new();
    let mut j = i;
    assert(sections_model(out@) + Seq::<crate::outline::SectionModel>::empty() =~= Seq::<
        crate::outline::SectionModel,
    >::empty());
    loop
        invariant
            i <= j <= s@.len(),
            match sections_from(s@, j as int) {
                Ok((k, rest)) => sections_from(s@, i as int) == Ok::<
                    (int, Seq<crate::outline::SectionModel>),
                    (ErrorKind, int),
                >((k, sections_model(out@) + rest)),
                Err(e) => sections_from(s@, i as int) == Err::<
                    (int, Seq<crate::outline::SectionModel>),
                    (ErrorKind, int),
                >(e),
            },
        decreases s@.len() - j,
    {
        let ghost before = out@;
        let (nj, sec) = match section_at(s, j) {
            Ok(p) => p,
            Err(e) => {
                return Err(e);
            },
        };
        proof {
            lemma_section_bounds(s@, j as int);
        }
        let ghost sm = sec@;
        out.push(sec);
        proof {
            assert(sections_model(out@) =~= sections_model(before).push(sm));
        }
        if opens_header(s, nj) {
            proof {
                match sections_from(s@, nj as int) {
                    Ok((k, rest)) => {
                        assert(sections_model(out@) + rest =~= sections_model(before) + (seq![sm]
                            + rest));
                    },
                    Err(e) => {},
                }
            }
            j = nj;
        } else {
            proof {
                assert(sections_model(out@) =~= sections_model(before) + seq![sm]);
            }
            return Ok((nj, out));
        }
    }
}

fn sections_at(s: &Vec<char>, i: usize) -> (r: Result<(usize, Vec<Section>), ParseError>)
    requires
        i <= s@.len(),
    ensures
        match r {
            Ok((j, v)) => ends_at(sections_rule(s@, i as int), j, sections_model(v@)) && j <= s@.len(),
            Err(e) => fails_as(sections_rule(s@, i as int), e),
        },
{
    proof {
        lemma_tag_lengths();
    }
    let n = s.len();
    let tag = outline_chars();
    if !(tag_at(s, i, &tag) && i + 8 < n && char_is_blank(s[i + 8])) {
        return Err(ParseError { kind: ErrorKind::ExpectedTag(Marker::Outline), offset: i });
    }
    let k = blank_end(s, i + 8);
    if k >= s.len() {
        return Err(ParseError { kind: ErrorKind::IncompleteDocument, offset: k });
    }
    sections_from_at(s, k)
}

fn plan_at(s: &Vec<char>, i: usize) -> (r: Result<(usize, Plan), ParseError>)
    requires
        i <= s@.len(),
    ensures
        match r {
            Ok((j, p)) => ends_at(plan_rule(s@, i as int), j, p@) && j <= s@.len(),
            Err(e) => fails_as(plan_rule(s@, i as int), e),
        },
{
    let (j, topic) = match topic_at(s, i) {
        Ok(p) => p,
        Err(e) => {
            return Err(e);
        },
    };
    proof {
        lemma_tag_lengths();
        lemma_line_end_bounds(s@, i + 6);
        lemma_skip_space_bounds(s@, crate::text::line_end(s@, i + 6) + 1);
    }
    let (k, sections) = match sections_at(s, j) {
        Ok(p) => p,
        Err(e) => {
            return Err(e);
        },
    };
    Ok((k, Plan { topic, sections }))
}

/// Parses the `Topic:` line at the start of `input`; yields the unread rest
/// and the trimmed topic.
pub fn parse_topic(input: &str) -> (r: Result<(String, String), ParseError>)
    ensures
        match r {
            Ok((rest, t)) => yields(topic_rule(input@, 0), input@, rest@, t@),
            Err(e) => fails_as(topic_rule(input@, 0), e),
        },
{
    let s = chars_of(input);
    match topic_at(&s, 0) {
        Ok((j, t)) => {
            proof {
                lemma_tag_lengths();
                lemma_line_end_bounds(s@, 6);
                lemma_skip_space_bounds(s@, crate::text::line_end(s@, 6) + 1);
            }
            Ok((string_of(&s, j, s.len()), t))
        },
        Err(e) => Err(e),
    }
}

/// Parses a section header such as `II. Benefits` ending in a line feed;
/// yields the unread rest and the trimmed header text.
pub fn parse_header(input: &str) -> (r: Result<(String, String), ParseError>)
    ensures
        match r {
            Ok((rest, t)) => yields(header_rule(input@, 0), input@, rest@, t@),
            Err(e) => fails_as(header_rule(input@, 0), e),
        },
{
    let s = chars_of(input);
    match header_at(&s, 0) {
        Ok((j, t)) => {
            proof {
                lemma_skip_letters_bounds(s@, 0);
                lemma_line_end_bounds(s@, crate::text::skip_letters(s@, 0) + 2);
            }
            Ok((string_of(&s, j, s.len()), t))
        },
        Err(e) => Err(e),
    }
}

/// Parses one bullet query `- text`; yields the unread rest and the trimmed
/// query.
pub fn parse_query(input: &str) -> (r: Result<(String, String), ParseError>)
    ensures
        match r {
            Ok((rest, t)) => yields(query_rule(input@, 0), input@, rest@, t@),
            Err(e) => fails_as(query_rule(input@, 0), e),
        },
{
    let s = chars_of(input);
    match query_at(&s, 0) {
        Ok((j, t)) => {
            proof {
                lemma_tag_lengths();
                lemma_line_end_bounds(s@, 2);
                lemma_skip_blank_bounds(s@, crate::text::line_end(s@, 2));
            }
            Ok((string_of(&s, j, s.len()), t))
        },
        Err(e) => Err(e),
    }
}

/// Parses one bullet query or more.
pub fn parse_queries(input: &str) -> (r: Result<(String, Vec<String>), ParseError>)
    ensures
        match r {
            Ok((rest, v)) => yields(queries_rule(input@, 0), input@, rest@, texts_model(v@)),
            Err(e) => fails_as(queries_rule(input@, 0), e),
        },
{
    let s = chars_of(input);
    match queries_rule_at(&s, 0) {
        Ok((j, v)) => {
            proof {
                crate::grammar::lemma_queries_from_bounds(s@, 0);
            }
            Ok((string_of(&s, j, s.len()), v))
        },
        Err(e) => Err(e),
    }
}

/// Parses an optional `Note: ` line. It never fails: without the marker it
/// yields `None` and skips only blank characters.
pub fn parse_note(input: &str) -> (r: Result<(String, Option<String>), ParseError>)
    ensures
        match r {
            Ok((rest, n)) => {
                &&& note_rule(input@, 0).1 == note_model(n)
                &&& rest@ == input@.subrange(note_rule(input@, 0).0, input@.len() as int)
            },
            Err(e) => false,
        },
{
    let s = chars_of(input);
    let (j, n) = note_at(&s, 0);
    proof {
        crate::grammar::lemma_note_bounds(s@, 0);
    }
    Ok((string_of(&s, j, s.len()), n))
}

/// Parses one section: header, bullet queries and optional note.
pub fn parse_section(input: &str) -> (r: Result<(String, Section), ParseError>)
    ensures
        match r {
            Ok((rest, sec)) => yields(section_rule(input@, 0), input@, rest@, sec@),
            Err(e) => fails_as(section_rule(input@, 0), e),
        },
{
    let s = chars_of(input);
    match section_at(&s, 0) {
        Ok((j, sec)) => {
            proof {
                lemma_section_bounds(s@, 0);
            }
            Ok((string_of(&s, j, s.len()), sec))
        },
        Err(e) => Err(e),
    }
}

/// Parses the `Outline:` marker and the sections after it.
pub fn parse_sections(input: &str) -> (r: Result<(String, Vec<Section>), ParseError>)
    ensures
        match r {
            Ok((rest, v)) => yields(sections_rule(input@, 0), input@, rest@, sections_model(v@)),
            Err(e) => fails_as(sections_rule(input@, 0), e),
        },
{
    let s = chars_of(input);
    match sections_at(&s, 0) {
        Ok((j, v)) => Ok((string_of(&s, j, s.len()), v)),
        Err(e) => Err(e),
    }
}

/// Parses a topic and the outline after it; what follows the last section is
/// handed back unread.
pub fn parse_plan(input: &str) -> (r: Result<(String, Plan), ParseError>)
    ensures
        match r {
            Ok((rest, p)) => yields(plan_rule(input@, 0), input@, rest@, p@),
            Err(e) => fails_as(plan_rule(input@, 0), e),
        },
{
    let s = chars_of(input);
    match plan_at(&s, 0) {
        Ok((j, p)) => Ok((string_of(&s, j, s.len()), p)),
        Err(e) => Err(e),
    }
}

/// Parses an input that must be exactly one outline.
pub fn parse(input: &str) -> (r: Result<Plan, ParseError>)
    ensures
        match r {
            Ok(p) => document_rule(input@) == Ok::<crate::outline::PlanModel, (ErrorKind, int)>(p@),
            Err(e) => document_rule(input@) == Err::<crate::outline::PlanModel, (ErrorKind, int)>(err_of(e)),
        },
{
    let s = chars_of(input);
    match plan_at(&s, 0) {
        Ok((j, p)) => {
            if j < s.len() {
                Err(ParseError { kind: ErrorKind::UnexpectedTrailingInput, offset: j })
            } else {
                Ok(p)
            }
        },
        Err(e) => Err(e),
    }
}

} // verus!
