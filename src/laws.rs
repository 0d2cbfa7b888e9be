//! Properties of the outline grammar, stated over its rules and proved.
use crate::grammar::{
    bullet_tag, document_rule, header_rule, header_sep, note_tag, outline_tag, queries_from,
    section_rule, sections_from, sections_rule, starts_header, topic_rule, topic_tag,
    lemma_queries_from_bounds, lemma_section_bounds, lemma_tag_lengths,
};
use crate::layout::{
    canonical_gaps, is_label, line_feeds, note_lines, plan_text, query_lines, section_text,
    sections_text, valid_plan, valid_section, Gaps,
};
use crate::outline::{ErrorKind, PlanModel, SectionModel};
use crate::text::{
    has_tag, is_blank, is_letter, is_line_text, line_break_len, line_end, lone_cr, skip_blank, trim,
    lemma_has_tag_index, lemma_has_tag_sub, lemma_line_end_run, lemma_skip_blank_bounds,
    lemma_skip_blank_run, lemma_skip_letters_bounds, lemma_skip_letters_run,
    lemma_skip_space_run, lemma_trim_padded, lemma_trimmed_line, skip_letters,
};
use vstd::prelude::*;

verus! {

/// A section that parses holds at least one query.
pub proof fn lemma_parsed_section_has_queries(s: Seq<char>, i: int)
    requires
        0 <= i <= s.len(),
        section_rule(s, i) is Ok,
    ensures
        section_rule(s, i)->Ok_0.1.queries.len() > 0,
{
    let j = header_rule(s, i)->Ok_0.0;
    let k = skip_blank(s, j);
    assert(has_tag(s, k, bullet_tag()));
    assert(queries_from(s, k).1.len() > 0);
}

/// A header followed, past blank characters, by another header, by a note or
/// by the end of the input makes no section: the parse fails as incomplete
/// at the place where the first query was due.
pub proof fn lemma_header_without_queries_fails(s: Seq<char>, i: int)
    requires
        0 <= i <= s.len(),
        header_rule(s, i) is Ok,
        ({
            let k = skip_blank(s, header_rule(s, i)->Ok_0.0);
            k == s.len() || starts_header(s, k) || has_tag(s, k, note_tag())
        }),
    ensures
        section_rule(s, i) == Err::<(int, SectionModel), (ErrorKind, int)>(
            (ErrorKind::IncompleteSection, skip_blank(s, header_rule(s, i)->Ok_0.0)),
        ),
{
    lemma_tag_lengths();
    let k = skip_blank(s, header_rule(s, i)->Ok_0.0);
    if starts_header(s, k) {
        assert(is_letter(s[k]));
    }
    if has_tag(s, k, note_tag()) {
        assert(s.subrange(k, k + 6)[0] == 'N');
    }
    if has_tag(s, k, bullet_tag()) {
        assert(s.subrange(k, k + 2)[0] == '-');
    }
}

/// Every section in a run that parses holds at least one query.
pub proof fn lemma_sections_have_queries(s: Seq<char>, i: int)
    requires
        0 <= i <= s.len(),
        sections_from(s, i) is Ok,
    ensures
        forall|n: int|
            0 <= n < sections_from(s, i)->Ok_0.1.len() ==> (#[trigger] sections_from(
                s,
                i,
            )->Ok_0.1[n]).queries.len() > 0,
    decreases s.len() - i,
{
    lemma_parsed_section_has_queries(s, i);
    lemma_section_bounds(s, i);
    let j = section_rule(s, i)->Ok_0.0;
    if starts_header(s, j) {
        lemma_sections_have_queries(s, j);
    }
}

/// No outline that parses holds a section without queries.
pub proof fn lemma_document_sections_have_queries(s: Seq<char>)
    requires
        document_rule(s) is Ok,
    ensures
        forall|n: int|
            0 <= n < document_rule(s)->Ok_0.sections.len() ==> (#[trigger] document_rule(
                s,
            )->Ok_0.sections[n]).queries.len() > 0,
{
    lemma_tag_lengths();
    let j = topic_rule(s, 0)->Ok_0.0;
    crate::text::lemma_line_end_bounds(s, 6);
    crate::text::lemma_skip_space_bounds(s, line_end(s, 6) + 1);
    lemma_skip_blank_bounds(s, j + 8);
    lemma_sections_have_queries(s, skip_blank(s, j + 8));
}

proof fn lemma_line_text_read(s: Seq<char>, i: int, t: Seq<char>)
    requires
        is_line_text(t),
        has_tag(s, i, t + seq!['\n']),
    ensures
        line_end(s, i) == i + t.len(),
        s[i + t.len()] == '\n',
        line_break_len(s, i + t.len()) == 1,
        !lone_cr(s, i + t.len()),
        trim(s.subrange(i, i + t.len())) == t,
{
    let w = t + seq!['\n'];
    lemma_has_tag_index(s, i, w);
    assert forall|k: int| i <= k < i + t.len() implies #[trigger] s[k] != '\n' && s[k] != '\r' by {
        assert(s[i + (k - i)] == w[k - i]);
        assert(w[k - i] == t[k - i]);
    }
    assert(s[i + t.len()] == w[t.len() as int]);
    lemma_line_end_run(s, i, t.len() as int);
    lemma_has_tag_sub(s, i, w, 0, t.len() as int);
    assert(w.subrange(0, t.len() as int) =~= t);
    lemma_trim_padded(Seq::empty(), t);
    assert(Seq::<char>::empty() + t =~= t);
}

proof fn lemma_header_read(s: Seq<char>, i: int, label: Seq<char>, h: Seq<char>)
    requires
        is_label(label),
        is_line_text(h),
        has_tag(s, i, label + header_sep() + h + seq!['\n']),
    ensures
        header_rule(s, i) == Ok::<(int, Seq<char>), (ErrorKind, int)>(
            (i + label.len() + 2 + h.len() + 1, h),
        ),
{
    lemma_tag_lengths();
    let w = label + header_sep() + h + seq!['\n'];
    let l = label.len() as int;
    lemma_has_tag_index(s, i, w);
    assert forall|k: int| i <= k < i + l implies is_letter(#[trigger] s[k]) by {
        assert(s[i + (k - i)] == w[k - i]);
        assert(w[k - i] == label[k - i]);
    }
    assert(s[i + l] == w[l]);
    lemma_skip_letters_run(s, i, l);
    lemma_has_tag_sub(s, i, w, l, l + 2);
    assert(w.subrange(l, l + 2) =~= header_sep());
    lemma_has_tag_sub(s, i, w, l + 2, w.len() as int);
    assert(w.subrange(l + 2, w.len() as int) =~= h + seq!['\n']);
    lemma_line_text_read(s, i + l + 2, h);
}

proof fn lemma_queries_read(s: Seq<char>, k: int, qs: Seq<Seq<char>>)
    requires
        qs.len() > 0,
        forall|m: int| 0 <= m < qs.len() ==> is_line_text(#[trigger] qs[m]),
        has_tag(s, k, query_lines(qs)),
        !has_tag(s, skip_blank(s, k + query_lines(qs).len()), bullet_tag()),
    ensures
        queries_from(s, k) == (skip_blank(s, k + query_lines(qs).len()), qs),
    decreases qs.len(),
{
    lemma_tag_lengths();
    let w = query_lines(qs);
    let q = qs[0];
    let tail = qs.drop_first();
    let rest = query_lines(tail);
    assert(w == bullet_tag() + q + seq!['\n'] + rest);
    let ql = q.len() as int;
    let le = k + 2 + ql;
    lemma_has_tag_sub(s, k, w, 0, 2);
    assert(w.subrange(0, 2) =~= bullet_tag());
    lemma_has_tag_sub(s, k, w, 2, ql + 3);
    assert(w.subrange(2, ql + 3) =~= q + seq!['\n']);
    lemma_line_text_read(s, k + 2, q);
    lemma_has_tag_sub(s, k, w, ql + 3, w.len() as int);
    assert(w.subrange(ql + 3, w.len() as int) =~= rest);
    let m = skip_blank(s, k + w.len());
    assert(skip_blank(s, le) == skip_blank(s, le + 1));
    if tail.len() == 0 {
        assert(rest.len() == 0);
        assert(queries_from(s, m) == (m, Seq::<Seq<char>>::empty()));
        assert(seq![q] + Seq::<Seq<char>>::empty() =~= qs);
    } else {
        assert(rest == bullet_tag() + tail[0] + seq!['\n'] + query_lines(tail.drop_first()));
        lemma_has_tag_index(s, le + 1, rest);
        assert(s[le + 1 + 0] == rest[0]);
        assert(!is_blank(s[le + 1]));
        assert forall|m2: int| 0 <= m2 < tail.len() implies is_line_text(#[trigger] tail[m2]) by {
            assert(tail[m2] == qs[m2 + 1]);
        }
        lemma_queries_read(s, le + 1, tail);
        assert(seq![q] + tail =~= qs);
    }
}

/// Where a header opens, no note does: `Note: ` is no `letters. `.
proof fn lemma_header_is_no_note(s: Seq<char>, e: int)
    requires
        0 <= e <= s.len(),
        starts_header(s, e),
    ensures
        !has_tag(s, e, note_tag()),
        !has_tag(s, e, bullet_tag()),
        e < s.len(),
        !is_blank(s[e]),
{
    lemma_tag_lengths();
    lemma_skip_letters_bounds(s, e);
    assert(e < s.len() && is_letter(s[e]));
    if has_tag(s, e, bullet_tag()) {
        assert(s.subrange(e, e + 2)[0] == s[e]);
    }
    if has_tag(s, e, note_tag()) {
        lemma_has_tag_index(s, e, note_tag());
        assert(s[e + 0] == note_tag()[0]);
        assert(s[e + 1] == note_tag()[1]);
        assert(s[e + 2] == note_tag()[2]);
        assert(s[e + 3] == note_tag()[3]);
        assert(s[e + 4] == note_tag()[4]);
        lemma_skip_letters_run(s, e, 4);
        let k = e + 4;
        assert(s.subrange(k, k + 2)[0] == s[k]);
    }
}

/// Laid-out text of a section opens with a header.
proof fn lemma_section_opens_header(s: Seq<char>, e: int, sec: SectionModel, label: Seq<char>, gaps: Gaps)
    requires
        is_label(label),
        has_tag(s, e, section_text(sec, label, gaps)),
    ensures
        starts_header(s, e),
{
    lemma_tag_lengths();
    let w = section_text(sec, label, gaps);
    let l = label.len() as int;
    lemma_has_tag_index(s, e, w);
    assert forall|k: int| e <= k < e + l implies is_letter(#[trigger] s[k]) by {
        assert(s[e + (k - e)] == w[k - e]);
        assert(w[k - e] == label[k - e]);
    }
    assert(s[e + l] == w[l]);
    lemma_skip_letters_run(s, e, l);
    lemma_has_tag_sub(s, e, w, l, l + 2);
    assert(w.subrange(l, l + 2) =~= header_sep());
}

#[verifier::rlimit(30)]
proof fn lemma_section_read(s: Seq<char>, i: int, sec: SectionModel, label: Seq<char>, gaps: Gaps)
    requires
        valid_section(sec),
        is_label(label),
        has_tag(s, i, section_text(sec, label, gaps)),
        ({
            let e = i + section_text(sec, label, gaps).len();
            e == s.len() || starts_header(s, e)
        }),
    ensures
        section_rule(s, i) == Ok::<(int, SectionModel), (ErrorKind, int)>(
            (i + section_text(sec, label, gaps).len(), sec),
        ),
{
    lemma_tag_lengths();
    let w = section_text(sec, label, gaps);
    let e = i + w.len();
    let x1 = label + header_sep() + sec.header + seq!['\n'];
    let feeds = line_feeds(gaps.after_header);
    let ql = query_lines(sec.queries);
    let nl = note_lines(sec.note, gaps.before_note);
    assert(w == x1 + feeds + ql + nl + seq!['\n']);
    let p1 = i + x1.len();
    let p2 = p1 + feeds.len();
    let p3 = p2 + ql.len();
    let p4 = p3 + nl.len();
    assert(e == p4 + 1);
    lemma_has_tag_index(s, i, w);
    // header
    lemma_has_tag_sub(s, i, w, 0, x1.len() as int);
    assert(w.subrange(0, x1.len() as int) =~= x1);
    lemma_header_read(s, i, label, sec.header);
    // blank lines after the header
    assert forall|k: int| p1 <= k < p1 + feeds.len() implies is_blank(#[trigger] s[k]) by {
        assert(s[i + (k - i)] == w[k - i]);
        assert(w[k - i] == feeds[k - p1]);
    }
    let q0 = sec.queries[0];
    assert(ql == bullet_tag() + q0 + seq!['\n'] + query_lines(sec.queries.drop_first()));
    assert(s[i + (p2 - i)] == w[p2 - i]);
    assert(w[p2 - i] == ql[0]);
    lemma_skip_blank_run(s, p1, feeds.len() as int);
    // queries
    lemma_has_tag_sub(s, i, w, p2 - i, p3 - i);
    assert(w.subrange(p2 - i, p3 - i) =~= ql);
    lemma_has_tag_sub(s, p2, ql, 0, 2);
    assert(ql.subrange(0, 2) =~= bullet_tag());
    lemma_has_tag_sub(s, i, w, p3 - i, w.len() as int);
    assert(w.subrange(p3 - i, w.len() as int) =~= nl + seq!['\n']);
    lemma_has_tag_index(s, p3, nl + seq!['\n']);
    assert(s[p4] == (nl + seq!['\n'])[nl.len() as int]);
    if e < s.len() {
        lemma_header_is_no_note(s, e);
    }
    match sec.note {
        Some(n) => {
            let b = gaps.before_note as int;
            assert(nl == line_feeds(gaps.before_note) + note_tag() + n + seq!['\n']);
            let t = nl + seq!['\n'];
            let nn = n.len() as int;
            assert forall|k: int| p3 <= k < p3 + b implies is_blank(#[trigger] s[k]) by {
                assert(s[p3 + (k - p3)] == t[k - p3]);
                assert(t[k - p3] == nl[k - p3]);
            }
            let m = p3 + b;
            assert(s[p3 + (m - p3)] == t[m - p3]);
            assert(t[m - p3] == note_tag()[0]);
            lemma_skip_blank_run(s, p3, b);
            assert(!has_tag(s, m, bullet_tag())) by {
                if has_tag(s, m, bullet_tag()) {
                    assert(s.subrange(m, m + 2)[0] == s[m]);
                }
            }
            lemma_queries_read(s, p2, sec.queries);
            // the note
            assert(skip_blank(s, m) == m);
            lemma_has_tag_sub(s, p3, t, b, b + 6);
            assert(t.subrange(b, b + 6) =~= note_tag());
            lemma_has_tag_sub(s, p3, t, b + 6, b + 6 + nn + 1);
            assert(t.subrange(b + 6, b + 6 + nn + 1) =~= n + seq!['\n']);
            lemma_line_text_read(s, m + 6, n);
            let ne = m + 6 + n.len();
            assert(ne + 2 == e);
            assert(s[p3 + (ne + 1 - p3)] == t[ne + 1 - p3]);
            lemma_skip_blank_run(s, ne, 2);
        },
        None => {
            assert(nl.len() == 0);
            lemma_skip_blank_run(s, p3, 1);
            assert(!has_tag(s, e, bullet_tag()));
            lemma_queries_read(s, p2, sec.queries);
            lemma_skip_blank_run(s, e, 0);
        },
    }
}

proof fn lemma_sections_read(
    s: Seq<char>,
    i: int,
    secs: Seq<SectionModel>,
    labels: Seq<Seq<char>>,
    gaps: Seq<Gaps>,
)
    requires
        secs.len() > 0,
        labels.len() == secs.len(),
        gaps.len() == secs.len(),
        forall|k: int| 0 <= k < secs.len() ==> valid_section(#[trigger] secs[k]),
        forall|k: int| 0 <= k < labels.len() ==> is_label(#[trigger] labels[k]),
        has_tag(s, i, sections_text(secs, labels, gaps)),
        i + sections_text(secs, labels, gaps).len() == s.len(),
    ensures
        sections_from(s, i) == Ok::<(int, Seq<SectionModel>), (ErrorKind, int)>(
            (s.len() as int, secs),
        ),
    decreases secs.len(),
{
    let w = sections_text(secs, labels, gaps);
    let first = section_text(secs[0], labels[0], gaps[0]);
    let tail = secs.drop_first();
    let tl = labels.drop_first();
    let tg = gaps.drop_first();
    let rest = sections_text(tail, tl, tg);
    assert(w == first + rest);
    let e = i + first.len();
    lemma_has_tag_sub(s, i, w, 0, first.len() as int);
    assert(w.subrange(0, first.len() as int) =~= first);
    lemma_has_tag_sub(s, i, w, first.len() as int, w.len() as int);
    assert(w.subrange(first.len() as int, w.len() as int) =~= rest);
    assert forall|k: int| 0 <= k < tail.len() implies valid_section(#[trigger] tail[k]) by {
        assert(tail[k] == secs[k + 1]);
    }
    assert forall|k: int| 0 <= k < tl.len() implies is_label(#[trigger] tl[k]) by {
        assert(tl[k] == labels[k + 1]);
    }
    if tail.len() == 0 {
        assert(rest.len() == 0);
        lemma_section_read(s, i, secs[0], labels[0], gaps[0]);
        assert(!starts_header(s, e));
        assert(seq![secs[0]] =~= secs);
    } else {
        assert(rest == section_text(tail[0], tl[0], tg[0]) + sections_text(
            tail.drop_first(),
            tl.drop_first(),
            tg.drop_first(),
        ));
        lemma_has_tag_sub(s, e, rest, 0, section_text(tail[0], tl[0], tg[0]).len() as int);
        assert(rest.subrange(0, section_text(tail[0], tl[0], tg[0]).len() as int)
            =~= section_text(tail[0], tl[0], tg[0]));
        lemma_section_opens_header(s, e, tail[0], tl[0], tg[0]);
        lemma_section_read(s, i, secs[0], labels[0], gaps[0]);
        lemma_sections_read(s, e, tail, tl, tg);
        assert(seq![secs[0]] + tail =~= secs);
    }
}

proof fn lemma_topic_read(s: Seq<char>, t: Seq<char>)
    requires
        is_line_text(t),
        has_tag(s, 0, topic_tag() + seq![' '] + t + seq!['\n', '\n', 'O']),
    ensures
        topic_rule(s, 0) == Ok::<(int, Seq<char>), (ErrorKind, int)>(((t.len() + 9) as int, t)),
{
    lemma_tag_lengths();
    let w = topic_tag() + seq![' '] + t + seq!['\n', '\n', 'O'];
    let tl = t.len() as int;
    lemma_has_tag_sub(s, 0, w, 0, 6);
    assert(w.subrange(0, 6) =~= topic_tag());
    lemma_has_tag_sub(s, 0, w, 7, 8 + tl);
    assert(w.subrange(7, 8 + tl) =~= t + seq!['\n']);
    lemma_line_text_read(s, 7, t);
    lemma_has_tag_index(s, 0, w);
    assert(s[6] == w[6]);
    assert(s[0 + (8 + tl)] == w[8 + tl]);
    assert(s[0 + (9 + tl)] == w[9 + tl]);
    assert(line_end(s, 6) == 7 + tl);
    lemma_has_tag_sub(s, 0, w, 6, 7 + tl);
    assert(w.subrange(6, 7 + tl) =~= seq![' '] + t);
    lemma_trim_padded(seq![' '], t);
    lemma_skip_space_run(s, 8 + tl, 1);
}

proof fn lemma_outline_read(s: Seq<char>, k: int)
    requires
        has_tag(s, k, outline_tag() + seq!['\n', '\n']),
        starts_header(s, k + 10),
    ensures
        sections_rule(s, k) == sections_from(s, k + 10),
{
    lemma_tag_lengths();
    let w = outline_tag() + seq!['\n', '\n'];
    lemma_has_tag_sub(s, k, w, 0, 8);
    assert(w.subrange(0, 8) =~= outline_tag());
    lemma_has_tag_index(s, k, w);
    assert(s[k + 8] == w[8]);
    assert(s[k + 9] == w[9]);
    lemma_skip_letters_bounds(s, k + 10);
    lemma_header_is_no_note(s, k + 10);
    lemma_skip_blank_run(s, k + 8, 2);
}

proof fn lemma_plan_from_parts(s: Seq<char>, p: PlanModel, k: int)
    requires
        topic_rule(s, 0) == Ok::<(int, Seq<char>), (ErrorKind, int)>((k, p.topic)),
        sections_rule(s, k) == sections_from(s, k + 10),
        sections_from(s, k + 10) == Ok::<(int, Seq<SectionModel>), (ErrorKind, int)>(
            (s.len() as int, p.sections),
        ),
    ensures
        document_rule(s) == Ok::<PlanModel, (ErrorKind, int)>(p),
{
}

proof fn lemma_plan_read(s: Seq<char>, p: PlanModel, labels: Seq<Seq<char>>, gaps: Seq<Gaps>)
    requires
        valid_plan(p, labels, gaps),
        has_tag(s, 0, topic_tag() + seq![' '] + p.topic + seq!['\n', '\n', 'O']),
        has_tag(s, p.topic.len() + 9int, outline_tag() + seq!['\n', '\n']),
        has_tag(s, p.topic.len() + 19int, sections_text(p.sections, labels, gaps)),
        s.len() == p.topic.len() + 19 + sections_text(p.sections, labels, gaps).len(),
    ensures
        document_rule(s) == Ok::<PlanModel, (ErrorKind, int)>(p),
{
    lemma_tag_lengths();
    let st = sections_text(p.sections, labels, gaps);
    let first = section_text(p.sections[0], labels[0], gaps[0]);
    let k = p.topic.len() + 9int;
    assert(st == first + sections_text(
        p.sections.drop_first(),
        labels.drop_first(),
        gaps.drop_first(),
    ));
    lemma_has_tag_sub(s, k + 10, st, 0, first.len() as int);
    assert(st.subrange(0, first.len() as int) =~= first);
    lemma_section_opens_header(s, k + 10, p.sections[0], labels[0], gaps[0]);
    lemma_topic_read(s, p.topic);
    lemma_outline_read(s, k);
    lemma_sections_read(s, k + 10, p.sections, labels, gaps);
    lemma_plan_from_parts(s, p, k);
}

proof fn lemma_plan_text_parts(p: PlanModel, labels: Seq<Seq<char>>, gaps: Seq<Gaps>)
    ensures
        ({
            let s = plan_text(p, labels, gaps);
            &&& has_tag(s, 0, topic_tag() + seq![' '] + p.topic + seq!['\n', '\n', 'O'])
            &&& has_tag(s, p.topic.len() + 9int, outline_tag() + seq!['\n', '\n'])
            &&& has_tag(s, p.topic.len() + 19int, sections_text(p.sections, labels, gaps))
            &&& s.len() == p.topic.len() + 19 + sections_text(p.sections, labels, gaps).len()
        }),
{
    lemma_tag_lengths();
    let s = plan_text(p, labels, gaps);
    let st = sections_text(p.sections, labels, gaps);
    let t = p.topic;
    let k = t.len() + 9int;
    assert(has_tag(s, 0, s)) by {
        assert(s.subrange(0, s.len() as int) =~= s);
    }
    assert(has_tag(s, 0, topic_tag() + seq![' '] + t + seq!['\n', '\n', 'O'])) by {
        lemma_has_tag_sub(s, 0, s, 0, k + 1);
        assert(s.subrange(0, k + 1) =~= topic_tag() + seq![' '] + t + seq!['\n', '\n', 'O']);
    }
    assert(has_tag(s, k, outline_tag() + seq!['\n', '\n'])) by {
        lemma_has_tag_sub(s, 0, s, k, k + 10);
        assert(s.subrange(k, k + 10) =~= outline_tag() + seq!['\n', '\n']);
    }
    assert(has_tag(s, k + 10, st)) by {
        lemma_has_tag_sub(s, 0, s, k + 10, s.len() as int);
        assert(s.subrange(k + 10, s.len() as int) =~= st);
    }
}

/// Any outline laid out as text, with any blank lines after its headers and
/// before its notes, reads back as exactly that outline.
pub proof fn lemma_round_trip(p: PlanModel, labels: Seq<Seq<char>>, gaps: Seq<Gaps>)
    requires
        valid_plan(p, labels, gaps),
    ensures
        document_rule(plan_text(p, labels, gaps)) == Ok::<PlanModel, (ErrorKind, int)>(p),
{
    lemma_plan_text_parts(p, labels, gaps);
    lemma_plan_read(plan_text(p, labels, gaps), p, labels, gaps);
}

/// The canonical layout of a valid outline parses back to that outline.
pub proof fn lemma_canonical_round_trip(p: PlanModel, labels: Seq<Seq<char>>)
    requires
        valid_plan(p, labels, Seq::new(p.sections.len(), |_k: int| canonical_gaps())),
    ensures
        document_rule(plan_text(p, labels, Seq::new(p.sections.len(), |_k: int| canonical_gaps())))
            == Ok::<PlanModel, (ErrorKind, int)>(p),
{
    lemma_round_trip(p, labels, Seq::new(p.sections.len(), |_k: int| canonical_gaps()));
}

/// Extra blank lines between a header and its first query, or between the
/// last query and the note, do not change what an outline parses to.
pub proof fn lemma_blank_lines_ignored(
    p: PlanModel,
    labels: Seq<Seq<char>>,
    gaps: Seq<Gaps>,
    more: Seq<Gaps>,
)
    requires
        valid_plan(p, labels, gaps),
        more.len() == gaps.len(),
    ensures
        document_rule(plan_text(p, labels, more)) == document_rule(plan_text(p, labels, gaps)),
{
    lemma_round_trip(p, labels, gaps);
    lemma_round_trip(p, labels, more);
}

/// Two adjacent sections, one with a note and one without, parse back
/// correctly in either order.
pub proof fn lemma_note_optional_per_section(
    topic: Seq<char>,
    with_note: SectionModel,
    without_note: SectionModel,
    l1: Seq<char>,
    l2: Seq<char>,
)
    requires
        is_line_text(topic),
        valid_section(with_note),
        valid_section(without_note),
        with_note.note is Some,
        without_note.note is None,
        is_label(l1),
        is_label(l2),
    ensures
        ({
            let p = PlanModel { topic, sections: seq![with_note, without_note] };
            let gaps = seq![canonical_gaps(), canonical_gaps()];
            document_rule(plan_text(p, seq![l1, l2], gaps)) == Ok::<PlanModel, (ErrorKind, int)>(p)
        }),
        ({
            let p = PlanModel { topic, sections: seq![without_note, with_note] };
            let gaps = seq![canonical_gaps(), canonical_gaps()];
            document_rule(plan_text(p, seq![l1, l2], gaps)) == Ok::<PlanModel, (ErrorKind, int)>(p)
        }),
{
    let gaps = seq![canonical_gaps(), canonical_gaps()];
    let p1 = PlanModel { topic, sections: seq![with_note, without_note] };
    let p2 = PlanModel { topic, sections: seq![without_note, with_note] };
    let labels = seq![l1, l2];
    assert(valid_plan(p1, labels, gaps));
    assert(valid_plan(p2, labels, gaps));
    lemma_round_trip(p1, labels, gaps);
    lemma_round_trip(p2, labels, gaps);
}

proof fn lemma_has_tag_whole(t: Seq<char>)
    ensures
        has_tag(t, 0, t),
{
    assert(t.subrange(0, t.len() as int) =~= t);
}

/// Blank lines added after a section's header or before its note do not
/// change what the section parses to: laid out with any gaps, a section reads
/// back as itself and leaves nothing unread.
pub proof fn lemma_section_blank_lines_ignored(sec: SectionModel, label: Seq<char>, gaps: Gaps)
    requires
        valid_section(sec),
        is_label(label),
    ensures
        section_rule(section_text(sec, label, gaps), 0) == Ok::<(int, SectionModel), (ErrorKind, int)>(
            (section_text(sec, label, gaps).len() as int, sec),
        ),
{
    lemma_has_tag_whole(section_text(sec, label, gaps));
    lemma_section_read(section_text(sec, label, gaps), 0, sec, label, gaps);
}

/// After `Outline:` and a blank line, any run of laid-out sections reads back
/// as exactly those sections, whichever of them carry notes and in whatever
/// order.
pub proof fn lemma_sections_read_back(
    secs: Seq<SectionModel>,
    labels: Seq<Seq<char>>,
    gaps: Seq<Gaps>,
)
    requires
        secs.len() > 0,
        labels.len() == secs.len(),
        gaps.len() == secs.len(),
        forall|k: int| 0 <= k < secs.len() ==> valid_section(#[trigger] secs[k]),
        forall|k: int| 0 <= k < labels.len() ==> is_label(#[trigger] labels[k]),
    ensures
        ({
            let s = outline_tag() + seq!['\n', '\n'] + sections_text(secs, labels, gaps);
            sections_rule(s, 0) == Ok::<(int, Seq<SectionModel>), (ErrorKind, int)>(
                (s.len() as int, secs),
            )
        }),
{
    lemma_tag_lengths();
    let st = sections_text(secs, labels, gaps);
    let head = outline_tag() + seq!['\n', '\n'];
    let s = head + st;
    let first = section_text(secs[0], labels[0], gaps[0]);
    assert(s.subrange(0, 10) =~= head);
    assert(s.subrange(10, s.len() as int) =~= st);
    assert(st == first + sections_text(secs.drop_first(), labels.drop_first(), gaps.drop_first()));
    lemma_has_tag_sub(s, 10, st, 0, first.len() as int);
    assert(st.subrange(0, first.len() as int) =~= first);
    lemma_section_opens_header(s, 10, secs[0], labels[0], gaps[0]);
    lemma_outline_read(s, 0);
    lemma_sections_read(s, 10, secs, labels, gaps);
}

/// Two adjacent sections, one with a note and one without, parse back
/// correctly after `Outline:` in either order.
pub proof fn lemma_sections_note_either_order(
    with_note: SectionModel,
    without_note: SectionModel,
    l1: Seq<char>,
    l2: Seq<char>,
)
    requires
        valid_section(with_note),
        valid_section(without_note),
        with_note.note is Some,
        without_note.note is None,
        is_label(l1),
        is_label(l2),
    ensures
        ({
            let secs = seq![with_note, without_note];
            let s = outline_tag() + seq!['\n', '\n'] + sections_text(
                secs,
                seq![l1, l2],
                seq![canonical_gaps(), canonical_gaps()],
            );
            sections_rule(s, 0) == Ok::<(int, Seq<SectionModel>), (ErrorKind, int)>(
                (s.len() as int, secs),
            )
        }),
        ({
            let secs = seq![without_note, with_note];
            let s = outline_tag() + seq!['\n', '\n'] + sections_text(
                secs,
                seq![l1, l2],
                seq![canonical_gaps(), canonical_gaps()],
            );
            sections_rule(s, 0) == Ok::<(int, Seq<SectionModel>), (ErrorKind, int)>(
                (s.len() as int, secs),
            )
        }),
{
    let labels = seq![l1, l2];
    let gaps = seq![canonical_gaps(), canonical_gaps()];
    let a = seq![with_note, without_note];
    let b = seq![without_note, with_note];
    assert(forall|k: int| 0 <= k < a.len() ==> valid_section(#[trigger] a[k]));
    assert(forall|k: int| 0 <= k < b.len() ==> valid_section(#[trigger] b[k]));
    assert(forall|k: int| 0 <= k < labels.len() ==> is_label(#[trigger] labels[k]));
    lemma_sections_read_back(a, labels, gaps);
    lemma_sections_read_back(b, labels, gaps);
}

proof fn lemma_queries_are_lines(s: Seq<char>, i: int)
    requires
        0 <= i <= s.len(),
    ensures
        forall|m: int|
            0 <= m < queries_from(s, i).1.len() ==> is_line_text(
                #[trigger] queries_from(s, i).1[m],
            ),
    decreases s.len() - i,
{
    lemma_tag_lengths();
    if has_tag(s, i, bullet_tag()) && !lone_cr(s, line_end(s, i + 2)) {
        let e = line_end(s, i + 2);
        lemma_trimmed_line(s, i + 2);
        lemma_skip_blank_bounds(s, e);
        lemma_queries_are_lines(s, skip_blank(s, e));
        let qs = queries_from(s, i).1;
        let rest = queries_from(s, skip_blank(s, e)).1;
        assert forall|m: int| 0 <= m < qs.len() implies is_line_text(#[trigger] qs[m]) by {
            if m > 0 {
                assert(qs[m] == rest[m - 1]);
            }
        }
    }
}

/// A section that parses is a valid section: one query or more, and header,
/// queries and note each a single line without surrounding whitespace.
pub proof fn lemma_parsed_section_is_valid(s: Seq<char>, i: int)
    requires
        0 <= i <= s.len(),
        section_rule(s, i) is Ok,
    ensures
        valid_section(section_rule(s, i)->Ok_0.1),
{
    lemma_tag_lengths();
    lemma_parsed_section_has_queries(s, i);
    let l = skip_letters(s, i);
    lemma_skip_letters_bounds(s, i);
    lemma_trimmed_line(s, l + 2);
    crate::text::lemma_line_end_bounds(s, l + 2);
    let j = header_rule(s, i)->Ok_0.0;
    lemma_skip_blank_bounds(s, j);
    let k = skip_blank(s, j);
    lemma_queries_are_lines(s, k);
    lemma_queries_from_bounds(s, k);
    let m = queries_from(s, k).0;
    lemma_skip_blank_bounds(s, m);
    let n0 = skip_blank(s, m);
    if has_tag(s, n0, note_tag()) {
        lemma_trimmed_line(s, n0 + 6);
    }
}

proof fn lemma_sections_are_valid(s: Seq<char>, i: int)
    requires
        0 <= i <= s.len(),
        sections_from(s, i) is Ok,
    ensures
        forall|n: int|
            0 <= n < sections_from(s, i)->Ok_0.1.len() ==> valid_section(
                #[trigger] sections_from(s, i)->Ok_0.1[n],
            ),
    decreases s.len() - i,
{
    lemma_parsed_section_is_valid(s, i);
    lemma_section_bounds(s, i);
    let j = section_rule(s, i)->Ok_0.0;
    if starts_header(s, j) {
        lemma_sections_are_valid(s, j);
    }
}

/// Every outline that parses is valid: its topic is a single line without
/// surrounding whitespace (so it holds no carriage return), and so is every
/// header, query and note of its sections, each of which has a query.
pub proof fn lemma_parsed_document_is_valid(s: Seq<char>)
    requires
        document_rule(s) is Ok,
    ensures
        is_line_text(document_rule(s)->Ok_0.topic),
        forall|n: int|
            0 <= n < document_rule(s)->Ok_0.sections.len() ==> valid_section(
                #[trigger] document_rule(s)->Ok_0.sections[n],
            ),
{
    lemma_tag_lengths();
    lemma_trimmed_line(s, 6);
    let j = topic_rule(s, 0)->Ok_0.0;
    crate::text::lemma_line_end_bounds(s, 6);
    crate::text::lemma_skip_space_bounds(s, line_end(s, 6) + line_break_len(s, line_end(s, 6)));
    lemma_skip_blank_bounds(s, j + 8);
    lemma_sections_are_valid(s, skip_blank(s, j + 8));
}

} // verus!
