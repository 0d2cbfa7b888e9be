//! Characters, scanning positions and trimming over a sequence of chars.
use vstd::prelude::*;
use vstd::std_specs::iter::IteratorSpec;

verus! {

/// The characters that `char::is_whitespace` accepts (Unicode White_Space).
pub open spec fn is_space(c: char) -> bool {
    let u = c as u32;
    (0x09 <= u && u <= 0x0d) || u == 0x20 || u == 0x85 || u == 0xa0 || u == 0x1680 || (0x2000
        <= u && u <= 0x200a) || u == 0x2028 || u == 0x2029 || u == 0x202f || u == 0x205f || u
        == 0x3000
}

/// Blank characters between lines: space, tab, carriage return, line feed.
pub open spec fn is_blank(c: char) -> bool {
    c == ' ' || c == '\t' || c == '\r' || c == '\n'
}

/// An ASCII letter, as used in a section enumerator.
pub open spec fn is_letter(c: char) -> bool {
    ('a' <= c && c <= 'z') || ('A' <= c && c <= 'Z')
}

/// First position at or after `i` that holds no blank character.
pub open spec fn skip_blank(s: Seq<char>, i: int) -> int
    decreases s.len() - i,
{
    if 0 <= i < s.len() && is_blank(s[i]) {
        skip_blank(s, i + 1)
    } else {
        i
    }
}

/// First position at or after `i` that holds no whitespace.
pub open spec fn skip_space(s: Seq<char>, i: int) -> int
    decreases s.len() - i,
{
    if 0 <= i < s.len() && is_space(s[i]) {
        skip_space(s, i + 1)
    } else {
        i
    }
}

/// First position at or after `i` that holds no letter.
pub open spec fn skip_letters(s: Seq<char>, i: int) -> int
    decreases s.len() - i,
{
    if 0 <= i < s.len() && is_letter(s[i]) {
        skip_letters(s, i + 1)
    } else {
        i
    }
}

/// Position of the first line feed or carriage return at or after `i`, or
/// the end of `s`.
pub open spec fn line_end(s: Seq<char>, i: int) -> int
    decreases s.len() - i,
{
    if 0 <= i < s.len() && s[i] != '\n' && s[i] != '\r' {
        line_end(s, i + 1)
    } else {
        i
    }
}

/// Length of the line terminator at `e`: 1 for a line feed, 2 for a
/// carriage return and a line feed, 0 where none stands.
pub open spec fn line_break_len(s: Seq<char>, e: int) -> int {
    if 0 <= e < s.len() && s[e] == '\n' {
        1
    } else if 0 <= e && e + 1 < s.len() && s[e] == '\r' && s[e + 1] == '\n' {
        2
    } else {
        0
    }
}

/// A carriage return at `e` that no line feed follows.
pub open spec fn lone_cr(s: Seq<char>, e: int) -> bool {
    0 <= e < s.len() && s[e] == '\r' && line_break_len(s, e) == 0
}

/// Last position at or before `j`, and not before `lo`, that follows a
/// character other than whitespace (or `lo` itself).
pub open spec fn back_space(s: Seq<char>, lo: int, j: int) -> int
    decreases j - lo,
{
    if lo < j && 0 < j <= s.len() && is_space(s[j - 1]) {
        back_space(s, lo, j - 1)
    } else {
        j
    }
}

/// `t` with leading and trailing whitespace removed.
pub open spec fn trim(t: Seq<char>) -> Seq<char> {
    let lo = skip_space(t, 0);
    t.subrange(lo, back_space(t, lo, t.len() as int))
}

/// The literal `t` stands in `s` at position `i`.
pub open spec fn has_tag(s: Seq<char>, i: int, t: Seq<char>) -> bool {
    0 <= i && i + t.len() <= s.len() && s.subrange(i, i + t.len()) == t
}

pub proof fn lemma_skip_blank_bounds(s: Seq<char>, i: int)
    requires
        0 <= i <= s.len(),
    ensures
        i <= skip_blank(s, i) <= s.len(),
        skip_blank(s, i) < s.len() ==> !is_blank(s[skip_blank(s, i)]),
    decreases s.len() - i,
{
    if i < s.len() && is_blank(s[i]) {
        lemma_skip_blank_bounds(s, i + 1);
    }
}

pub proof fn lemma_skip_space_bounds(s: Seq<char>, i: int)
    requires
        0 <= i <= s.len(),
    ensures
        i <= skip_space(s, i) <= s.len(),
        skip_space(s, i) < s.len() ==> !is_space(s[skip_space(s, i)]),
    decreases s.len() - i,
{
    if i < s.len() && is_space(s[i]) {
        lemma_skip_space_bounds(s, i + 1);
    }
}

pub proof fn lemma_skip_letters_bounds(s: Seq<char>, i: int)
    requires
        0 <= i <= s.len(),
    ensures
        i <= skip_letters(s, i) <= s.len(),
    decreases s.len() - i,
{
    if i < s.len() && is_letter(s[i]) {
        lemma_skip_letters_bounds(s, i + 1);
    }
}

pub proof fn lemma_line_end_bounds(s: Seq<char>, i: int)
    requires
        0 <= i <= s.len(),
    ensures
        i <= line_end(s, i) <= s.len(),
        line_end(s, i) < s.len() ==> s[line_end(s, i)] == '\n' || s[line_end(s, i)] == '\r',
        line_end(s, i) < s.len() ==> line_break_len(s, line_end(s, i)) > 0 || lone_cr(
            s,
            line_end(s, i),
        ),
    decreases s.len() - i,
{
    if i < s.len() && s[i] != '\n' && s[i] != '\r' {
        lemma_line_end_bounds(s, i + 1);
    }
}

pub proof fn lemma_has_tag_index(s: Seq<char>, i: int, t: Seq<char>)
    requires
        has_tag(s, i, t),
    ensures
        forall|k: int| 0 <= k < t.len() ==> s[i + k] == #[trigger] t[k],
{
    assert forall|k: int| 0 <= k < t.len() implies s[i + k] == #[trigger] t[k] by {
        assert(s.subrange(i, i + t.len())[k] == s[i + k]);
    }
}

pub proof fn lemma_back_space_bounds(s: Seq<char>, lo: int, j: int)
    requires
        0 <= lo <= j <= s.len(),
    ensures
        lo <= back_space(s, lo, j) <= j,
        back_space(s, lo, j) == lo || !is_space(s[back_space(s, lo, j) - 1]),
    decreases j - lo,
{
    if lo < j && is_space(s[j - 1]) {
        lemma_back_space_bounds(s, lo, j - 1);
    }
}

/// No line feed or carriage return stands before the end of a line.
pub proof fn lemma_before_line_end(s: Seq<char>, i: int)
    requires
        0 <= i <= s.len(),
    ensures
        forall|k: int| i <= k < line_end(s, i) ==> #[trigger] s[k] != '\n' && s[k] != '\r',
    decreases s.len() - i,
{
    if i < s.len() && s[i] != '\n' && s[i] != '\r' {
        lemma_before_line_end(s, i + 1);
    }
}

/// The trimmed text of a line is a single line without surrounding
/// whitespace.
pub proof fn lemma_trimmed_line(s: Seq<char>, a: int)
    requires
        0 <= a <= s.len(),
    ensures
        a <= line_end(s, a) <= s.len(),
        is_line_text(trim(s.subrange(a, line_end(s, a)))),
{
    lemma_line_end_bounds(s, a);
    lemma_before_line_end(s, a);
    let t = s.subrange(a, line_end(s, a));
    let lo = skip_space(t, 0);
    lemma_skip_space_bounds(t, 0);
    lemma_back_space_bounds(t, lo, t.len() as int);
    let b = back_space(t, lo, t.len() as int);
    let r = trim(t);
    assert forall|k: int| 0 <= k < r.len() implies #[trigger] r[k] != '\n' && r[k] != '\r' by {
        assert(r[k] == t[lo + k]);
        assert(t[lo + k] == s[a + lo + k]);
    }
    if r.len() > 0 {
        assert(r[0] == t[lo]);
        assert(r[r.len() - 1] == t[b - 1]);
    }
}

/// Where `t` stands, each piece of `t` stands at its own offset.
pub proof fn lemma_has_tag_sub(s: Seq<char>, i: int, t: Seq<char>, a: int, b: int)
    requires
        has_tag(s, i, t),
        0 <= a <= b <= t.len(),
    ensures
        has_tag(s, i + a, t.subrange(a, b)),
{
    lemma_has_tag_index(s, i, t);
    assert(s.subrange(i + a, i + a + (b - a)) =~= t.subrange(a, b));
}

pub proof fn lemma_skip_blank_run(s: Seq<char>, i: int, n: int)
    requires
        0 <= i,
        0 <= n,
        i + n <= s.len(),
        forall|k: int| i <= k < i + n ==> is_blank(#[trigger] s[k]),
        i + n == s.len() || !is_blank(s[i + n]),
    ensures
        skip_blank(s, i) == i + n,
    decreases n,
{
    if n > 0 {
        lemma_skip_blank_run(s, i + 1, n - 1);
    }
}

pub proof fn lemma_skip_space_run(s: Seq<char>, i: int, n: int)
    requires
        0 <= i,
        0 <= n,
        i + n <= s.len(),
        forall|k: int| i <= k < i + n ==> is_space(#[trigger] s[k]),
        i + n == s.len() || !is_space(s[i + n]),
    ensures
        skip_space(s, i) == i + n,
    decreases n,
{
    if n > 0 {
        lemma_skip_space_run(s, i + 1, n - 1);
    }
}

pub proof fn lemma_skip_letters_run(s: Seq<char>, i: int, n: int)
    requires
        0 <= i,
        0 <= n,
        i + n <= s.len(),
        forall|k: int| i <= k < i + n ==> is_letter(#[trigger] s[k]),
        i + n == s.len() || !is_letter(s[i + n]),
    ensures
        skip_letters(s, i) == i + n,
    decreases n,
{
    if n > 0 {
        lemma_skip_letters_run(s, i + 1, n - 1);
    }
}

pub proof fn lemma_line_end_run(s: Seq<char>, i: int, n: int)
    requires
        0 <= i,
        0 <= n,
        i + n <= s.len(),
        forall|k: int| i <= k < i + n ==> #[trigger] s[k] != '\n' && s[k] != '\r',
        i + n == s.len() || s[i + n] == '\n',
    ensures
        line_end(s, i) == i + n,
    decreases n,
{
    if n > 0 {
        lemma_line_end_run(s, i + 1, n - 1);
    }
}

pub proof fn lemma_back_space_run(s: Seq<char>, lo: int, j: int, b: int)
    requires
        0 <= lo <= b <= j <= s.len(),
        forall|k: int| b <= k < j ==> is_space(#[trigger] s[k]),
        b == lo || !is_space(s[b - 1]),
    ensures
        back_space(s, lo, j) == b,
    decreases j - b,
{
    if b < j {
        lemma_back_space_run(s, lo, j - 1, b);
    }
}

/// Text with no whitespace at either end and no line feed or carriage
/// return inside.
pub open spec fn is_line_text(t: Seq<char>) -> bool {
    &&& forall|k: int| 0 <= k < t.len() ==> #[trigger] t[k] != '\n' && t[k] != '\r'
    &&& t.len() > 0 ==> !is_space(t[0]) && !is_space(t[t.len() - 1])
}

/// Trimming `pad + t`, where `pad` is whitespace and `t` has none at its
/// ends, gives `t`.
pub proof fn lemma_trim_padded(pad: Seq<char>, t: Seq<char>)
    requires
        forall|k: int| 0 <= k < pad.len() ==> is_space(#[trigger] pad[k]),
        is_line_text(t),
    ensures
        trim(pad + t) == t,
{
    let u = pad + t;
    let a = pad.len() as int;
    assert forall|k: int| 0 <= k < 0 + a implies is_space(#[trigger] u[k]) by {
        assert(u[k] == pad[k]);
    }
    if t.len() > 0 {
        assert(u[a] == t[0]);
    }
    lemma_skip_space_run(u, 0, a);
    if t.len() > 0 {
        assert(u[u.len() - 1] == t[t.len() - 1]);
    }
    lemma_back_space_run(u, a, u.len() as int, u.len() as int);
    assert(u.subrange(a, u.len() as int) =~= t);
}

/// Relies on `String::push`: appends one char to the end of the string.
#[verifier::external_body]
fn push_char(s: &mut String, c: char)
    ensures
        final(s)@ == old(s)@.push(c),
{
    s.push(c);
}

/// The chars of `s`, in order.
pub fn chars_of(s: &str) -> (r: Vec<char>)
    ensures
        r@ == s@,
{
    let mut out: Vec<char> = Vec::new();
    let mut it = s.chars();
    proof {
        broadcast use vstd::string::axiom_spec_iter, vstd::string::next_postcondition;
    }
    loop
        invariant
            out@ + it.remaining() == s@,
            it.decrease() is Some,
        ensures
            out@ == s@,
        decreases it.decrease()->0,
    {
        let ghost old_rem = it.remaining();
        match it.next() {
            Some(c) => {
                proof {
                    assert(out@.push(c) + it.remaining() =~= out@ + old_rem);
                }
                out.push(c);
            },
            None => {
                assert(out@ + it.remaining() =~= out@);
                break ;
            },
        }
    }
    out
}

/// A string holding the chars of `s` from `lo` up to `hi`.
pub fn string_of(s: &Vec<char>, lo: usize, hi: usize) -> (r: String)
    requires
        lo <= hi <= s@.len(),
    ensures
        r@ == s@.subrange(lo as int, hi as int),
{
    let mut out = String::new();
    let mut i = lo;
    while i < hi
        invariant
            lo <= i <= hi <= s@.len(),
            out@ == s@.subrange(lo as int, i as int),
        decreases hi - i,
    {
        push_char(&mut out, s[i]);
        i = i + 1;
        assert(out@ =~= s@.subrange(lo as int, i as int));
    }
    out
}

pub fn char_is_space(c: char) -> (r: bool)
    ensures
        r == is_space(c),
{
    let u = c as u32;
    (0x09 <= u && u <= 0x0d) || u == 0x20 || u == 0x85 || u == 0xa0 || u == 0x1680 || (0x2000
        <= u && u <= 0x200a) || u == 0x2028 || u == 0x2029 || u == 0x202f || u == 0x205f || u
        == 0x3000
}

pub fn char_is_blank(c: char) -> (r: bool)
    ensures
        r == is_blank(c),
{
    c == ' ' || c == '\t' || c == '\r' || c == '\n'
}

pub fn char_is_letter(c: char) -> (r: bool)
    ensures
        r == is_letter(c),
{
    ('a' <= c && c <= 'z') || ('A' <= c && c <= 'Z')
}

pub fn blank_end(s: &Vec<char>, i: usize) -> (r: usize)
    requires
        i <= s@.len(),
    ensures
        r == skip_blank(s@, i as int),
{
    let mut j = i;
    while j < s.len() && char_is_blank(s[j])
        invariant
            i <= j <= s@.len(),
            skip_blank(s@, i as int) == skip_blank(s@, j as int),
        decreases s@.len() - j,
    {
        j = j + 1;
    }
    j
}

pub fn space_end(s: &Vec<char>, i: usize) -> (r: usize)
    requires
        i <= s@.len(),
    ensures
        r == skip_space(s@, i as int),
{
    let mut j = i;
    while j < s.len() && char_is_space(s[j])
        invariant
            i <= j <= s@.len(),
            skip_space(s@, i as int) == skip_space(s@, j as int),
        decreases s@.len() - j,
    {
        j = j + 1;
    }
    j
}

pub fn letters_end(s: &Vec<char>, i: usize) -> (r: usize)
    requires
        i <= s@.len(),
    ensures
        r == skip_letters(s@, i as int),
{
    let mut j = i;
    while j < s.len() && char_is_letter(s[j])
        invariant
            i <= j <= s@.len(),
            skip_letters(s@, i as int) == skip_letters(s@, j as int),
        decreases s@.len() - j,
    {
        j = j + 1;
    }
    j
}

pub fn find_line_end(s: &Vec<char>, i: usize) -> (r: usize)
    requires
        i <= s@.len(),
    ensures
        r == line_end(s@, i as int),
{
    let mut j = i;
    while j < s.len() && s[j] != '\n' && s[j] != '\r'
        invariant
            i <= j <= s@.len(),
            line_end(s@, i as int) == line_end(s@, j as int),
        decreases s@.len() - j,
    {
        j = j + 1;
    }
    j
}

/// Length of the line terminator at `e` (see `line_break_len`).
pub fn break_len(s: &Vec<char>, e: usize) -> (r: usize)
    requires
        e <= s@.len(),
    ensures
        r as int == line_break_len(s@, e as int),
{
    let n = s.len();
    if e < n && s[e] == '\n' {
        1
    } else if e < n && e + 1 < n && s[e] == '\r' && s[e + 1] == '\n' {
        2
    } else {
        0
    }
}

/// Whether a carriage return that no line feed follows stands at `e`.
pub fn is_lone_cr(s: &Vec<char>, e: usize) -> (r: bool)
    requires
        e <= s@.len(),
    ensures
        r == lone_cr(s@, e as int),
{
    e < s.len() && s[e] == '\r' && break_len(s, e) == 0
}

/// Whether the chars of `t` stand in `s` at position `i`.
pub fn tag_at(s: &Vec<char>, i: usize, t: &Vec<char>) -> (r: bool)
    requires
        i <= s@.len(),
    ensures
        r == has_tag(s@, i as int, t@),
{
    let n = s.len();
    if t.len() > n - i {
        return false;
    }
    let mut k: usize = 0;
    while k < t.len()
        invariant
            n == s@.len(),
            i <= s@.len(),
            i + t@.len() <= s@.len(),
            k <= t@.len(),
            forall|m: int| 0 <= m < k ==> s@[i + m] == t@[m],
        decreases t@.len() - k,
    {
        assert(i + k < s@.len());
        if s[i + k] != t[k] {
            assert(s@.subrange(i as int, i + t@.len())[k as int] != t@[k as int]);
            return false;
        }
        k = k + 1;
    }
    assert(s@.subrange(i as int, i + t@.len()) =~= t@);
    true
}

/// The chars of `s` from `lo` up to `hi`, with surrounding whitespace removed.
pub fn trimmed(s: &Vec<char>, lo: usize, hi: usize) -> (r: String)
    requires
        lo <= hi <= s@.len(),
    ensures
        r@ == trim(s@.subrange(lo as int, hi as int)),
{
    let ghost t = s@.subrange(lo as int, hi as int);
    let mut a = lo;
    while a < hi && char_is_space(s[a])
        invariant
            lo <= a <= hi <= s@.len(),
            t == s@.subrange(lo as int, hi as int),
            skip_space(t, 0) == skip_space(t, a - lo),
        decreases hi - a,
    {
        assert(t[a - lo] == s@[a as int]);
        a = a + 1;
    }
    let mut b = hi;
    while a < b && char_is_space(s[b - 1])
        invariant
            lo <= a <= b <= hi <= s@.len(),
            t == s@.subrange(lo as int, hi as int),
            a - lo == skip_space(t, 0),
            back_space(t, a - lo, hi - lo) == back_space(t, a - lo, b - lo),
        decreases b - a,
    {
        assert(t[b - 1 - lo] == s@[b - 1]);
        b = b - 1;
    }
    let r = string_of(s, a, b);
    assert(r@ =~= t.subrange(a - lo, b - lo));
    r
}

} // verus!
