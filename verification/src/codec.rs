//! Cache payload codec: a deterministic, length-prefixed text encoding of
//! course and lesson lists. Both directions are specified as mathematical
//! functions, and decoding provably inverts encoding, so a cache hit on a
//! previously written entry yields exactly the list that was written.

use vstd::prelude::*;

use crate::model::{Course, CourseView, Lesson, LessonView};
use crate::text::{
    all_digits, chars_to_string, dec_digit, dec_rep, digits_val, is_dec_digit, is_dec_digit_exec,
    occurs_at, push_range, push_str_chars, push_u64_dec, str_to_chars, lemma_digits_val_bounds,
};

verus! {

// ---------------------------------------------------------------------------
// Encoding, as spec functions.
// ---------------------------------------------------------------------------
/// A string field: its character count in decimal, a colon, the characters.
pub open spec fn enc_str(s: Seq<char>) -> Seq<char> {
    dec_rep(s.len() as int) + seq![':'] + s
}

/// An optional string field: `N` for absent, `S` plus the field for present.
pub open spec fn enc_opt(o: Option<Seq<char>>) -> Seq<char> {
    match o {
        None => seq!['N'],
        Some(s) => seq!['S'] + enc_str(s),
    }
}

/// One course: its four fields in declaration order.
pub open spec fn enc_course(c: CourseView) -> Seq<char> {
    enc_str(c.id) + enc_str(c.code) + enc_str(c.name) + enc_str(c.category)
}

/// One lesson: its six fields in declaration order.
pub open spec fn enc_lesson(l: LessonView) -> Seq<char> {
    enc_str(l.starts_at) + enc_str(l.ends_at) + enc_str(l.subject) + enc_opt(l.teacher) + enc_opt(
        l.location,
    ) + enc_opt(l.description)
}

/// The concatenation of a list of encoded courses.
pub open spec fn enc_course_items(l: Seq<CourseView>) -> Seq<char>
    decreases l.len(),
{
    if l.len() == 0 {
        Seq::<char>::empty()
    } else {
        enc_course(l[0]) + enc_course_items(l.drop_first())
    }
}

/// The concatenation of a list of encoded lessons.
pub open spec fn enc_lesson_items(l: Seq<LessonView>) -> Seq<char>
    decreases l.len(),
{
    if l.len() == 0 {
        Seq::<char>::empty()
    } else {
        enc_lesson(l[0]) + enc_lesson_items(l.drop_first())
    }
}

/// A whole course-list payload: a tag, the count, and the items.
pub open spec fn enc_courses(l: Seq<CourseView>) -> Seq<char> {
    seq!['C'] + dec_rep(l.len() as int) + seq![';'] + enc_course_items(l)
}

/// A whole lesson-list payload.
pub open spec fn enc_lessons(l: Seq<LessonView>) -> Seq<char> {
    seq!['L'] + dec_rep(l.len() as int) + seq![';'] + enc_lesson_items(l)
}

// ---------------------------------------------------------------------------
// Decoding, as spec functions.
// ---------------------------------------------------------------------------
/// The end of the run of decimal digits starting at `pos`.
pub open spec fn digit_run_end(p: Seq<char>, pos: int) -> int
    decreases p.len() + 1 - pos,
{
    if 0 <= pos < p.len() && is_dec_digit(p[pos]) {
        digit_run_end(p, pos + 1)
    } else {
        pos
    }
}

/// Reads a decimal count at `pos`: at least one digit, no leading zero
/// (except `0` itself); yields the value and the position after the run.
pub open spec fn dec_nat(p: Seq<char>, pos: int) -> Option<(int, int)> {
    let e = digit_run_end(p, pos);
    if e == pos {
        None
    } else if e - pos > 1 && p[pos] == '0' {
        None
    } else {
        Some((digits_val(p.subrange(pos, e)), e))
    }
}

/// Reads one string field at `pos`: a count, a colon, that many characters.
pub open spec fn dec_str(p: Seq<char>, pos: int) -> Option<(Seq<char>, int)> {
    match dec_nat(p, pos) {
        None => None,
        Some((n, e)) => if e < p.len() && p[e] == ':' && e + 1 + n <= p.len() {
            Some((p.subrange(e + 1, e + 1 + n), e + 1 + n))
        } else {
            None
        },
    }
}

/// Reads one optional string field at `pos`.
pub open spec fn dec_opt(p: Seq<char>, pos: int) -> Option<(Option<Seq<char>>, int)> {
    if 0 <= pos < p.len() && p[pos] == 'N' {
        Some((None, pos + 1))
    } else if 0 <= pos < p.len() && p[pos] == 'S' {
        match dec_str(p, pos + 1) {
            None => None,
            Some((s, e)) => Some((Some(s), e)),
        }
    } else {
        None
    }
}

/// Reads one course at `pos`.
pub open spec fn dec_course(p: Seq<char>, pos: int) -> Option<(CourseView, int)> {
    match dec_str(p, pos) {
        None => None,
        Some((id, e1)) => match dec_str(p, e1) {
            None => None,
            Some((code, e2)) => match dec_str(p, e2) {
                None => None,
                Some((name, e3)) => match dec_str(p, e3) {
                    None => None,
                    Some((category, e4)) => Some(
                        (CourseView { id, code, name, category }, e4),
                    ),
                },
            },
        },
    }
}

/// Reads one lesson at `pos`.
pub open spec fn dec_lesson(p: Seq<char>, pos: int) -> Option<(LessonView, int)> {
    match dec_str(p, pos) {
        None => None,
        Some((starts_at, e1)) => match dec_str(p, e1) {
            None => None,
            Some((ends_at, e2)) => match dec_str(p, e2) {
                None => None,
                Some((subject, e3)) => match dec_opt(p, e3) {
                    None => None,
                    Some((teacher, e4)) => match dec_opt(p, e4) {
                        None => None,
                        Some((location, e5)) => match dec_opt(p, e5) {
                            None => None,
                            Some((description, e6)) => Some(
                                (
                                    LessonView {
                                        starts_at,
                                        ends_at,
                                        subject,
                                        teacher,
                                        location,
                                        description,
                                    },
                                    e6,
                                ),
                            ),
                        },
                    },
                },
            },
        },
    }
}

/// Reads `k` consecutive courses starting at `pos`.
pub open spec fn dec_course_items(p: Seq<char>, pos: int, k: nat) -> Option<
    (Seq<CourseView>, int),
>
    decreases k,
{
    if k == 0 {
        Some((Seq::<CourseView>::empty(), pos))
    } else {
        match dec_course(p, pos) {
            None => None,
            Some((c, e)) => match dec_course_items(p, e, (k - 1) as nat) {
                None => None,
                Some((rest, e2)) => Some((seq![c] + rest, e2)),
            },
        }
    }
}

/// Reads `k` consecutive lessons starting at `pos`.
pub open spec fn dec_lesson_items(p: Seq<char>, pos: int, k: nat) -> Option<
    (Seq<LessonView>, int),
>
    decreases k,
{
    if k == 0 {
        Some((Seq::<LessonView>::empty(), pos))
    } else {
        match dec_lesson(p, pos) {
            None => None,
            Some((c, e)) => match dec_lesson_items(p, e, (k - 1) as nat) {
                None => None,
                Some((rest, e2)) => Some((seq![c] + rest, e2)),
            },
        }
    }
}

/// Decodes a whole course-list payload; `None` on any malformation.
pub open spec fn dec_courses(p: Seq<char>) -> Option<Seq<CourseView>> {
    if p.len() == 0 || p[0] != 'C' {
        None
    } else {
        match dec_nat(p, 1) {
            None => None,
            Some((n, e)) => if n >= 0 && e < p.len() && p[e] == ';' {
                match dec_course_items(p, e + 1, n as nat) {
                    None => None,
                    Some((items, e2)) => if e2 == p.len() {
                        Some(items)
                    } else {
                        None
                    },
                }
            } else {
                None
            },
        }
    }
}

/// Decodes a whole lesson-list payload; `None` on any malformation.
pub open spec fn dec_lessons(p: Seq<char>) -> Option<Seq<LessonView>> {
    if p.len() == 0 || p[0] != 'L' {
        None
    } else {
        match dec_nat(p, 1) {
            None => None,
            Some((n, e)) => if n >= 0 && e < p.len() && p[e] == ';' {
                match dec_lesson_items(p, e + 1, n as nat) {
                    None => None,
                    Some((items, e2)) => if e2 == p.len() {
                        Some(items)
                    } else {
                        None
                    },
                }
            } else {
                None
            },
        }
    }
}

// ---------------------------------------------------------------------------
// Executable encoders.
// ---------------------------------------------------------------------------
/// Appending an element encodes as the old items followed by the element.
pub proof fn lemma_enc_course_items_push(l: Seq<CourseView>, c: CourseView)
    ensures
        enc_course_items(l.push(c)) == enc_course_items(l) + enc_course(c),
    decreases l.len(),
{
    if l.len() == 0 {
        assert(l.push(c).drop_first() =~= Seq::<CourseView>::empty());
        assert(enc_course_items(l.push(c)) == enc_course(c) + enc_course_items(
            Seq::<CourseView>::empty(),
        ));
        assert(enc_course_items(Seq::<CourseView>::empty()) == Seq::<char>::empty());
        assert(enc_course_items(l.push(c)) =~= enc_course_items(l) + enc_course(c));
    } else {
        assert(l.push(c).drop_first() =~= l.drop_first().push(c));
        lemma_enc_course_items_push(l.drop_first(), c);
        assert(enc_course(l[0]) + (enc_course_items(l.drop_first()) + enc_course(c)) =~= (
        enc_course(l[0]) + enc_course_items(l.drop_first())) + enc_course(c));
    }
}

/// Appending an element encodes as the old items followed by the element.
pub proof fn lemma_enc_lesson_items_push(l: Seq<LessonView>, c: LessonView)
    ensures
        enc_lesson_items(l.push(c)) == enc_lesson_items(l) + enc_lesson(c),
    decreases l.len(),
{
    if l.len() == 0 {
        assert(l.push(c).drop_first() =~= Seq::<LessonView>::empty());
        assert(enc_lesson_items(l.push(c)) == enc_lesson(c) + enc_lesson_items(
            Seq::<LessonView>::empty(),
        ));
        assert(enc_lesson_items(Seq::<LessonView>::empty()) == Seq::<char>::empty());
        assert(enc_lesson_items(l.push(c)) =~= enc_lesson_items(l) + enc_lesson(c));
    } else {
        assert(l.push(c).drop_first() =~= l.drop_first().push(c));
        lemma_enc_lesson_items_push(l.drop_first(), c);
        assert(enc_lesson(l[0]) + (enc_lesson_items(l.drop_first()) + enc_lesson(c)) =~= (
        enc_lesson(l[0]) + enc_lesson_items(l.drop_first())) + enc_lesson(c));
    }
}

/// Appends one encoded string field to `out`.
fn push_str_field(out: &mut Vec<char>, s: &String)
    ensures
        final(out)@ == old(out)@ + enc_str(s@),
{
    let n = s.as_str().unicode_len();
    push_u64_dec(out, n as u64);
    out.push(':');
    push_str_chars(out, s.as_str());
    proof {
        assert(final(out)@ =~= old(out)@ + enc_str(s@));
    }
}

/// Appends one encoded optional string field to `out`.
fn push_opt_field(out: &mut Vec<char>, o: &Option<String>)
    ensures
        final(out)@ == old(out)@ + enc_opt(match o {
            Some(s) => Some(s@),
            None => None,
        }),
{
    match o {
        None => {
            out.push('N');
            proof {
                assert(final(out)@ =~= old(out)@ + enc_opt(None));
            }
        },
        Some(s) => {
            out.push('S');
            push_str_field(out, s);
            proof {
                assert(final(out)@ =~= old(out)@ + enc_opt(Some(s@)));
            }
        },
    }
}

/// Appends one encoded course to `out`.
fn push_course(out: &mut Vec<char>, c: &Course)
    ensures
        final(out)@ == old(out)@ + enc_course(c@),
{
    push_str_field(out, &c.id);
    push_str_field(out, &c.code);
    push_str_field(out, &c.name);
    push_str_field(out, &c.category);
    proof {
        assert(final(out)@ =~= old(out)@ + enc_course(c@));
    }
}

/// Appends one encoded lesson to `out`.
fn push_lesson(out: &mut Vec<char>, l: &Lesson)
    ensures
        final(out)@ == old(out)@ + enc_lesson(l@),
{
    push_str_field(out, &l.starts_at);
    push_str_field(out, &l.ends_at);
    push_str_field(out, &l.subject);
    push_opt_field(out, &l.teacher);
    push_opt_field(out, &l.location);
    push_opt_field(out, &l.description);
    proof {
        assert(final(out)@ =~= old(out)@ + enc_lesson(l@));
    }
}

/// Serializes a course list into its cache payload.
#[verifier::loop_isolation(false)]
pub fn encode_courses(l: &Vec<Course>) -> (r: String)
    ensures
        r@ == enc_courses(l.deep_view()),
{
    let mut out: Vec<char> = Vec::new();
    out.push('C');
    push_u64_dec(&mut out, l.len() as u64);
    out.push(';');
    let ghost header = seq!['C'] + dec_rep(l.deep_view().len() as int) + seq![';'];
    proof {
        assert(l.deep_view().len() == l@.len());
        assert(out@ =~= header);
        assert(l.deep_view().take(0) =~= Seq::<CourseView>::empty());
    }
    let n = l.len();
    let mut i: usize = 0;
    while i < n
        invariant
            out@ == header + enc_course_items(l.deep_view().take(i as int)),
            i <= n,
        decreases n - i,
    {
        push_course(&mut out, &l[i]);
        proof {
            assert(l.deep_view()[i as int] == l@[i as int]@);
            assert(l.deep_view().take(i + 1) =~= l.deep_view().take(i as int).push(
                l.deep_view()[i as int],
            ));
            lemma_enc_course_items_push(l.deep_view().take(i as int), l.deep_view()[i as int]);
            assert(out@ =~= header + enc_course_items(l.deep_view().take(i + 1)));
        }
        i = i + 1;
    }
    proof {
        assert(l.deep_view().take(n as int) =~= l.deep_view());
        assert(out@ =~= enc_courses(l.deep_view()));
    }
    chars_to_string(&out)
}

/// Serializes a lesson list into its cache payload.
#[verifier::loop_isolation(false)]
pub fn encode_lessons(l: &Vec<Lesson>) -> (r: String)
    ensures
        r@ == enc_lessons(l.deep_view()),
{
    let mut out: Vec<char> = Vec::new();
    out.push('L');
    push_u64_dec(&mut out, l.len() as u64);
    out.push(';');
    let ghost header = seq!['L'] + dec_rep(l.deep_view().len() as int) + seq![';'];
    proof {
        assert(l.deep_view().len() == l@.len());
        assert(out@ =~= header);
        assert(l.deep_view().take(0) =~= Seq::<LessonView>::empty());
    }
    let n = l.len();
    let mut i: usize = 0;
    while i < n
        invariant
            out@ == header + enc_lesson_items(l.deep_view().take(i as int)),
            i <= n,
        decreases n - i,
    {
        push_lesson(&mut out, &l[i]);
        proof {
            assert(l.deep_view()[i as int] == l@[i as int]@);
            assert(l.deep_view().take(i + 1) =~= l.deep_view().take(i as int).push(
                l.deep_view()[i as int],
            ));
            lemma_enc_lesson_items_push(l.deep_view().take(i as int), l.deep_view()[i as int]);
            assert(out@ =~= header + enc_lesson_items(l.deep_view().take(i + 1)));
        }
        i = i + 1;
    }
    proof {
        assert(l.deep_view().take(n as int) =~= l.deep_view());
        assert(out@ =~= enc_lessons(l.deep_view()));
    }
    chars_to_string(&out)
}

// ---------------------------------------------------------------------------
// Round trip: decoding inverts encoding.
// ---------------------------------------------------------------------------
/// If `a + b` occurs at `pos`, then `a` occurs at `pos` and `b` right after.
proof fn lemma_occurs_split(p: Seq<char>, a: Seq<char>, b: Seq<char>, pos: int)
    requires
        occurs_at(p, a + b, pos),
    ensures
        occurs_at(p, a, pos),
        occurs_at(p, b, pos + a.len()),
{
    let ab = a + b;
    assert forall|k: int| 0 <= k < ab.len() implies p[pos + k] == ab[k] by {
        assert(p.subrange(pos, pos + ab.len() as int)[k] == ab[k]);
    }
    assert(p.subrange(pos, pos + a.len() as int) =~= a);
    assert forall|k: int|
        0 <= k < b.len() implies p.subrange(pos + a.len(), pos + a.len() + b.len())[k] == b[k] by {
        assert(p.subrange(pos, pos + ab.len() as int)[a.len() + k] == ab[a.len() + k]);
    }
    assert(p.subrange(pos + a.len(), pos + a.len() + b.len()) =~= b);
}

/// If the one-character sequence `[c]` occurs at `pos`, that character is
/// `c`.
proof fn lemma_occurs_char(p: Seq<char>, c: char, pos: int)
    requires
        occurs_at(p, seq![c], pos),
    ensures
        p[pos] == c,
{
    assert(p.subrange(pos, pos + seq![c].len() as int)[0] == seq![c][0]);
}

/// The decimal rendering consists of digits, has no leading zero (except
/// `0` itself), and parses back to the rendered value.
proof fn lemma_dec_rep_props(n: int)
    requires
        n >= 0,
    ensures
        all_digits(dec_rep(n)),
        dec_rep(n).len() >= 1,
        digits_val(dec_rep(n)) == n,
        dec_rep(n).len() > 1 ==> dec_rep(n)[0] != '0',
    decreases n,
{
    if n < 10 {
        let s = dec_rep(n);
        assert(s.drop_last() =~= Seq::<char>::empty());
        assert(digits_val(s) == digits_val(s.drop_last()) * 10 + (s[0] as int - 48));
    } else {
        lemma_dec_rep_props(n / 10);
        let s = dec_rep(n);
        let h = dec_rep(n / 10);
        assert(s == h.push(dec_digit(n % 10)));
        assert(s.drop_last() =~= h);
        assert(digits_val(s) == digits_val(h) * 10 + (s[s.len() - 1] as int - 48));
        assert(s[s.len() - 1] == dec_digit(n % 10));
        assert(s[0] == h[0]);
        assert(h.len() > 1 ==> h[0] != '0');
        if h.len() == 1 {
            assert(h.drop_last() =~= Seq::<char>::empty());
            assert(digits_val(h) == digits_val(h.drop_last()) * 10 + (h[h.len() - 1] as int
                - 48));
            assert(h[0] != '0');
        }
    }
}

/// The digit run starting at `pos` ends exactly at `e` when everything up
/// to `e` is a digit and `e` sits at the end or on a non-digit.
proof fn lemma_digit_run_exact(p: Seq<char>, pos: int, e: int)
    requires
        0 <= pos <= e <= p.len(),
        forall|k: int| pos <= k < e ==> is_dec_digit(#[trigger] p[k]),
        e == p.len() || !is_dec_digit(p[e]),
    ensures
        digit_run_end(p, pos) == e,
    decreases e - pos,
{
    if pos < e {
        lemma_digit_run_exact(p, pos + 1, e);
    }
}

/// Reading a count where `dec_rep(n)` was written, with a non-digit right
/// after it, yields exactly `n`.
proof fn lemma_dec_nat_at(p: Seq<char>, pos: int, n: int)
    requires
        n >= 0,
        occurs_at(p, dec_rep(n), pos),
        pos + dec_rep(n).len() == p.len() || !is_dec_digit(p[pos + dec_rep(n).len()]),
    ensures
        dec_nat(p, pos) == Some((n, pos + dec_rep(n).len())),
{
    lemma_dec_rep_props(n);
    let m = dec_rep(n).len() as int;
    assert(forall|k: int|
        pos <= k < pos + m ==> is_dec_digit(#[trigger] p[k]) && p[k] == dec_rep(n)[k - pos]) by {
        assert(forall|k: int|
            pos <= k < pos + m ==> p.subrange(pos, pos + m)[k - pos] == #[trigger] p[k]);
    }
    lemma_digit_run_exact(p, pos, pos + m);
    assert(p.subrange(pos, pos + m) == dec_rep(n));
    if m > 1 {
        assert(p[pos] == dec_rep(n)[0]);
    }
}

/// Reading a string field where `enc_str(s)` was written yields exactly `s`.
proof fn lemma_dec_str_at(p: Seq<char>, pos: int, s: Seq<char>)
    requires
        occurs_at(p, enc_str(s), pos),
    ensures
        dec_str(p, pos) == Some((s, pos + enc_str(s).len())),
{
    let rep = dec_rep(s.len() as int);
    let m = rep.len() as int;
    assert(enc_str(s) == (rep + seq![':']) + s);
    lemma_occurs_split(p, rep + seq![':'], s, pos);
    lemma_occurs_split(p, rep, seq![':'], pos);
    lemma_occurs_char(p, ':', pos + m);
    lemma_dec_nat_at(p, pos, s.len() as int);
    assert(p.subrange(pos + m + 1, pos + m + 1 + s.len()) == s);
}

/// Reading an optional field where `enc_opt(o)` was written yields `o`.
proof fn lemma_dec_opt_at(p: Seq<char>, pos: int, o: Option<Seq<char>>)
    requires
        occurs_at(p, enc_opt(o), pos),
    ensures
        dec_opt(p, pos) == Some((o, pos + enc_opt(o).len())),
{
    match o {
        None => {
            lemma_occurs_char(p, 'N', pos);
        },
        Some(s) => {
            assert(enc_opt(o) == seq!['S'] + enc_str(s));
            lemma_occurs_split(p, seq!['S'], enc_str(s), pos);
            lemma_occurs_char(p, 'S', pos);
            assert(p[pos] != 'N');
            lemma_dec_str_at(p, pos + 1, s);
        },
    }
}

/// Reading a course where `enc_course(c)` was written yields exactly `c`.
proof fn lemma_dec_course_at(p: Seq<char>, pos: int, c: CourseView)
    requires
        occurs_at(p, enc_course(c), pos),
    ensures
        dec_course(p, pos) == Some((c, pos + enc_course(c).len())),
{
    let a = enc_str(c.id);
    let b = enc_str(c.code);
    let d = enc_str(c.name);
    let e = enc_str(c.category);
    assert(enc_course(c) == ((a + b) + d) + e);
    lemma_occurs_split(p, (a + b) + d, e, pos);
    lemma_occurs_split(p, a + b, d, pos);
    lemma_occurs_split(p, a, b, pos);
    lemma_dec_str_at(p, pos, c.id);
    lemma_dec_str_at(p, pos + a.len(), c.code);
    lemma_dec_str_at(p, pos + a.len() + b.len(), c.name);
    lemma_dec_str_at(p, pos + a.len() + b.len() + d.len(), c.category);
}

/// Reading a lesson where `enc_lesson(l)` was written yields exactly `l`.
proof fn lemma_dec_lesson_at(p: Seq<char>, pos: int, l: LessonView)
    requires
        occurs_at(p, enc_lesson(l), pos),
    ensures
        dec_lesson(p, pos) == Some((l, pos + enc_lesson(l).len())),
{
    let a = enc_str(l.starts_at);
    let b = enc_str(l.ends_at);
    let c = enc_str(l.subject);
    let d = enc_opt(l.teacher);
    let e = enc_opt(l.location);
    let f = enc_opt(l.description);
    assert(enc_lesson(l) == ((((a + b) + c) + d) + e) + f);
    lemma_occurs_split(p, (((a + b) + c) + d) + e, f, pos);
    lemma_occurs_split(p, ((a + b) + c) + d, e, pos);
    lemma_occurs_split(p, (a + b) + c, d, pos);
    lemma_occurs_split(p, a + b, c, pos);
    lemma_occurs_split(p, a, b, pos);
    lemma_dec_str_at(p, pos, l.starts_at);
    lemma_dec_str_at(p, pos + a.len(), l.ends_at);
    lemma_dec_str_at(p, pos + a.len() + b.len(), l.subject);
    lemma_dec_opt_at(p, pos + a.len() + b.len() + c.len(), l.teacher);
    lemma_dec_opt_at(p, pos + a.len() + b.len() + c.len() + d.len(), l.location);
    lemma_dec_opt_at(p, pos + a.len() + b.len() + c.len() + d.len() + e.len(), l.description);
}

/// Reading `l.len()` courses where the items of `l` were written yields `l`.
proof fn lemma_dec_course_items_at(p: Seq<char>, pos: int, l: Seq<CourseView>)
    requires
        occurs_at(p, enc_course_items(l), pos),
    ensures
        dec_course_items(p, pos, l.len()) == Some((l, pos + enc_course_items(l).len())),
    decreases l.len(),
{
    if l.len() == 0 {
        assert(l =~= Seq::<CourseView>::empty());
    } else {
        lemma_occurs_split(p, enc_course(l[0]), enc_course_items(l.drop_first()), pos);
        lemma_dec_course_at(p, pos, l[0]);
        lemma_dec_course_items_at(p, pos + enc_course(l[0]).len(), l.drop_first());
        assert(seq![l[0]] + l.drop_first() =~= l);
    }
}

/// Reading `l.len()` lessons where the items of `l` were written yields `l`.
proof fn lemma_dec_lesson_items_at(p: Seq<char>, pos: int, l: Seq<LessonView>)
    requires
        occurs_at(p, enc_lesson_items(l), pos),
    ensures
        dec_lesson_items(p, pos, l.len()) == Some((l, pos + enc_lesson_items(l).len())),
    decreases l.len(),
{
    if l.len() == 0 {
        assert(l =~= Seq::<LessonView>::empty());
    } else {
        lemma_occurs_split(p, enc_lesson(l[0]), enc_lesson_items(l.drop_first()), pos);
        lemma_dec_lesson_at(p, pos, l[0]);
        lemma_dec_lesson_items_at(p, pos + enc_lesson(l[0]).len(), l.drop_first());
        assert(seq![l[0]] + l.drop_first() =~= l);
    }
}

// ---------------------------------------------------------------------------
// Executable decoders.
// ---------------------------------------------------------------------------
/// The digit run never moves backwards, stays within the payload, covers
/// only digits, and stops at the end or on a non-digit.
pub proof fn lemma_digit_run_facts(p: Seq<char>, pos: int)
    requires
        0 <= pos,
    ensures
        pos <= digit_run_end(p, pos),
        pos <= p.len() ==> digit_run_end(p, pos) <= p.len(),
        pos > p.len() ==> digit_run_end(p, pos) == pos,
        forall|k: int| pos <= k < digit_run_end(p, pos) ==> is_dec_digit(#[trigger] p[k]),
        digit_run_end(p, pos) == p.len() || (digit_run_end(p, pos) < p.len() ==> !is_dec_digit(
            p[digit_run_end(p, pos)],
        )),
    decreases p.len() + 1 - pos,
{
    if 0 <= pos < p.len() && is_dec_digit(p[pos]) {
        lemma_digit_run_facts(p, pos + 1);
    }
}

/// Reading more digits never shrinks the value.
proof fn lemma_digits_val_take_monotone(s: Seq<char>, i: int)
    requires
        all_digits(s),
        0 <= i <= s.len(),
    ensures
        digits_val(s) >= digits_val(s.take(i)),
    decreases s.len() - i,
{
    if i == s.len() {
        assert(s.take(i) =~= s);
    } else {
        assert(all_digits(s.drop_last()));
        lemma_digits_val_take_monotone(s.drop_last(), i);
        assert(s.drop_last().take(i) =~= s.take(i));
        lemma_digits_val_bounds(s.drop_last());
        assert(s[s.len() - 1] as int - 48 >= 0);
    }
}

/// A successfully read string field moves the position forward and stays
/// within the payload.
proof fn lemma_dec_str_step(p: Seq<char>, pos: int)
    requires
        0 <= pos,
    ensures
        dec_str(p, pos) matches Some((s, e)) ==> pos + 2 <= e <= p.len(),
{
    lemma_digit_run_facts(p, pos);
    let e0 = digit_run_end(p, pos);
    if e0 > pos && e0 <= p.len() {
        let run = p.subrange(pos, e0);
        assert forall|k: int| 0 <= k < run.len() implies is_dec_digit(#[trigger] run[k]) by {
            assert(run[k] == p[pos + k]);
        }
        lemma_digits_val_bounds(run);
    }
}

/// A successfully read optional field moves the position forward and stays
/// within the payload.
proof fn lemma_dec_opt_step(p: Seq<char>, pos: int)
    requires
        0 <= pos,
    ensures
        dec_opt(p, pos) matches Some((o, e)) ==> pos + 1 <= e <= p.len(),
{
    lemma_dec_str_step(p, pos + 1);
}

/// A successfully read course moves the position forward and stays within
/// the payload.
proof fn lemma_dec_course_step(p: Seq<char>, pos: int)
    requires
        0 <= pos,
    ensures
        dec_course(p, pos) matches Some((c, e)) ==> pos + 1 <= e <= p.len(),
{
    lemma_dec_str_step(p, pos);
    match dec_str(p, pos) {
        None => {},
        Some((s1, e1)) => {
            lemma_dec_str_step(p, e1);
            match dec_str(p, e1) {
                None => {},
                Some((s2, e2)) => {
                    lemma_dec_str_step(p, e2);
                    match dec_str(p, e2) {
                        None => {},
                        Some((s3, e3)) => {
                            lemma_dec_str_step(p, e3);
                        },
                    }
                },
            }
        },
    }
}

/// A successfully read lesson moves the position forward and stays within
/// the payload.
proof fn lemma_dec_lesson_step(p: Seq<char>, pos: int)
    requires
        0 <= pos,
    ensures
        dec_lesson(p, pos) matches Some((c, e)) ==> pos + 1 <= e <= p.len(),
{
    lemma_dec_str_step(p, pos);
    match dec_str(p, pos) {
        None => {},
        Some((s1, e1)) => {
            lemma_dec_str_step(p, e1);
            match dec_str(p, e1) {
                None => {},
                Some((s2, e2)) => {
                    lemma_dec_str_step(p, e2);
                    match dec_str(p, e2) {
                        None => {},
                        Some((s3, e3)) => {
                            lemma_dec_opt_step(p, e3);
                            match dec_opt(p, e3) {
                                None => {},
                                Some((o4, e4)) => {
                                    lemma_dec_opt_step(p, e4);
                                    match dec_opt(p, e4) {
                                        None => {},
                                        Some((o5, e5)) => {
                                            lemma_dec_opt_step(p, e5);
                                        },
                                    }
                                },
                            }
                        },
                    }
                },
            }
        },
    }
}

/// Reading `k` courses, when it succeeds, consumes at least `k` characters
/// and ends within the payload (for `k > 0`).
proof fn lemma_dec_course_items_bound(p: Seq<char>, pos: int, k: nat)
    requires
        0 <= pos,
    ensures
        dec_course_items(p, pos, k) matches Some((l, e2)) ==> e2 >= pos + k && (k > 0 ==> e2
            <= p.len()),
    decreases k,
{
    if k > 0 {
        lemma_dec_course_step(p, pos);
        match dec_course(p, pos) {
            None => {},
            Some((c, e)) => {
                lemma_dec_course_items_bound(p, e, (k - 1) as nat);
            },
        }
    }
}

/// Reading `k` lessons, when it succeeds, consumes at least `k` characters
/// and ends within the payload (for `k > 0`).
proof fn lemma_dec_lesson_items_bound(p: Seq<char>, pos: int, k: nat)
    requires
        0 <= pos,
    ensures
        dec_lesson_items(p, pos, k) matches Some((l, e2)) ==> e2 >= pos + k && (k > 0 ==> e2
            <= p.len()),
    decreases k,
{
    if k > 0 {
        lemma_dec_lesson_step(p, pos);
        match dec_lesson(p, pos) {
            None => {},
            Some((c, e)) => {
                lemma_dec_lesson_items_bound(p, e, (k - 1) as nat);
            },
        }
    }
}

/// Reads a count, or reports that the payload cannot carry one that fits.
#[verifier::loop_isolation(false)]
fn dec_nat_exec(p: &Vec<char>, pos: usize) -> (r: Option<(usize, usize)>)
    requires
        pos <= p@.len(),
    ensures
        match r {
            Some((n, e)) => dec_nat(p@, pos as int) == Some((n as int, e as int)) && pos < e
                <= p@.len(),
            None => dec_nat(p@, pos as int) is None || (dec_nat(p@, pos as int) matches Some(
                (n2, _),
            ) && n2 > p@.len()),
        },
{
    let len = p.len();
    proof {
        lemma_digit_run_facts(p@, pos as int);
    }
    let mut e: usize = pos;
    while e < len && is_dec_digit_exec(p[e])
        invariant
            pos <= e <= len,
            digit_run_end(p@, pos as int) == digit_run_end(p@, e as int),
        decreases len - e,
    {
        proof {
            assert(digit_run_end(p@, e as int) == digit_run_end(p@, e + 1));
        }
        e = e + 1;
    }
    proof {
        assert(digit_run_end(p@, e as int) == e as int);
        assert(digit_run_end(p@, pos as int) == e as int);
    }
    if e == pos {
        return None;
    }
    if e - pos > 1 && p[pos] == '0' {
        return None;
    }
    let ghost run = p@.subrange(pos as int, e as int);
    proof {
        assert(all_digits(run));
        lemma_digits_val_bounds(run);
    }
    let mut acc: u128 = 0;
    let mut j: usize = pos;
    proof {
        assert(p@.subrange(pos as int, pos as int) =~= Seq::<char>::empty());
    }
    while j < e
        invariant
            pos <= j <= e,
            acc == digits_val(p@.subrange(pos as int, j as int)),
            acc <= p@.len(),
        decreases e - j,
    {
        let ghost pre = p@.subrange(pos as int, j as int);
        let c = p[j];
        proof {
            assert(is_dec_digit(p@[j as int]));
        }
        let d: u128 = (c as u32 as u128) - 48;
        let acc2: u128 = acc * 10 + d;
        proof {
            assert(p@.subrange(pos as int, j + 1).drop_last() =~= pre);
            assert(digits_val(p@.subrange(pos as int, j + 1)) == digits_val(pre) * 10 + (
            p@[j as int] as int - 48));
        }
        if acc2 > len as u128 {
            proof {
                assert(all_digits(run));
                lemma_digits_val_take_monotone(run, j + 1 - pos);
                assert(run.take(j + 1 - pos) =~= p@.subrange(pos as int, j + 1));
                assert(digits_val(run) >= acc2);
            }
            return None;
        }
        acc = acc2;
        j = j + 1;
    }
    proof {
        assert(p@.subrange(pos as int, e as int) == run);
    }
    Some((acc as usize, e))
}

/// Reads one string field.
fn dec_str_exec(p: &Vec<char>, pos: usize) -> (r: Option<(String, usize)>)
    requires
        pos <= p@.len(),
    ensures
        match r {
            Some((s, e)) => dec_str(p@, pos as int) == Some((s@, e as int)) && pos < e <= p@.len(),
            None => dec_str(p@, pos as int) is None,
        },
{
    match dec_nat_exec(p, pos) {
        None => {
            proof {
                lemma_digit_run_facts(p@, pos as int);
            }
            None
        },
        Some((n, e)) => {
            if e >= p.len() {
                return None;
            }
            if p[e] != ':' {
                return None;
            }
            let rem = p.len() - e - 1;
            if n > rem {
                return None;
            }
            let mut cs: Vec<char> = Vec::new();
            push_range(&mut cs, p, e + 1, e + 1 + n);
            let s = chars_to_string(&cs);
            proof {
                assert(s@ =~= p@.subrange(e + 1, e + 1 + n));
            }
            Some((s, e + 1 + n))
        },
    }
}

/// Reads one optional string field.
fn dec_opt_exec(p: &Vec<char>, pos: usize) -> (r: Option<(Option<String>, usize)>)
    requires
        pos <= p@.len(),
    ensures
        match r {
            Some((o, e)) => dec_opt(p@, pos as int) == Some((o.deep_view(), e as int)) && pos < e
                <= p@.len(),
            None => dec_opt(p@, pos as int) is None,
        },
{
    if pos >= p.len() {
        return None;
    }
    let c = p[pos];
    if c == 'N' {
        return Some((None, pos + 1));
    }
    if c == 'S' {
        match dec_str_exec(p, pos + 1) {
            None => None,
            Some((s, e)) => Some((Some(s), e)),
        }
    } else {
        None
    }
}

/// Reads one course record.
fn dec_course_exec(p: &Vec<char>, pos: usize) -> (r: Option<(Course, usize)>)
    requires
        pos <= p@.len(),
    ensures
        match r {
            Some((c, e)) => dec_course(p@, pos as int) == Some((c@, e as int)) && pos < e
                <= p@.len(),
            None => dec_course(p@, pos as int) is None,
        },
{
    let (id, e1) = match dec_str_exec(p, pos) {
        None => {
            return None;
        },
        Some(x) => x,
    };
    let (code, e2) = match dec_str_exec(p, e1) {
        None => {
            return None;
        },
        Some(x) => x,
    };
    let (name, e3) = match dec_str_exec(p, e2) {
        None => {
            return None;
        },
        Some(x) => x,
    };
    let (category, e4) = match dec_str_exec(p, e3) {
        None => {
            return None;
        },
        Some(x) => x,
    };
    Some((Course { id, code, name, category }, e4))
}

/// Reads one lesson record.
fn dec_lesson_exec(p: &Vec<char>, pos: usize) -> (r: Option<(Lesson, usize)>)
    requires
        pos <= p@.len(),
    ensures
        match r {
            Some((l, e)) => dec_lesson(p@, pos as int) == Some((l@, e as int)) && pos < e
                <= p@.len(),
            None => dec_lesson(p@, pos as int) is None,
        },
{
    let (starts_at, e1) = match dec_str_exec(p, pos) {
        None => {
            return None;
        },
        Some(x) => x,
    };
    let (ends_at, e2) = match dec_str_exec(p, e1) {
        None => {
            return None;
        },
        Some(x) => x,
    };
    let (subject, e3) = match dec_str_exec(p, e2) {
        None => {
            return None;
        },
        Some(x) => x,
    };
    let (teacher, e4) = match dec_opt_exec(p, e3) {
        None => {
            return None;
        },
        Some(x) => x,
    };
    let (location, e5) = match dec_opt_exec(p, e4) {
        None => {
            return None;
        },
        Some(x) => x,
    };
    let (description, e6) = match dec_opt_exec(p, e5) {
        None => {
            return None;
        },
        Some(x) => x,
    };
    Some((Lesson { starts_at, ends_at, subject, teacher, location, description }, e6))
}

/// Deserializes a course-list cache payload; `None` on any malformation.
#[verifier::loop_isolation(false)]
pub fn decode_courses(payload: &str) -> (r: Option<Vec<Course>>)
    ensures
        match r {
            Some(v) => dec_courses(payload@) == Some(v.deep_view()),
            None => dec_courses(payload@) is None,
        },
{
    let p = str_to_chars(payload);
    if p.len() == 0 {
        return None;
    }
    if p[0] != 'C' {
        return None;
    }
    let (count, e) = match dec_nat_exec(&p, 1) {
        None => {
            proof {
                lemma_digit_run_facts(p@, 1);
                match dec_nat(p@, 1) {
                    None => {},
                    Some((n2, e2)) => {
                        lemma_dec_course_items_bound(p@, e2 + 1, n2 as nat);
                    },
                }
            }
            return None;
        },
        Some(x) => x,
    };
    if e >= p.len() {
        return None;
    }
    if p[e] != ';' {
        return None;
    }
    let start = e + 1;
    let mut out: Vec<Course> = Vec::new();
    let mut ppos: usize = start;
    let mut i: usize = 0;
    proof {
        assert(out.deep_view() =~= Seq::<CourseView>::empty());
        assert(out.deep_view() + Seq::<CourseView>::empty() =~= out.deep_view());
    }
    while i < count
        invariant
            i <= count,
            ppos <= p@.len(),
            ({
                let whole = dec_course_items(p@, start as int, count as nat);
                let rest = dec_course_items(p@, ppos as int, (count - i) as nat);
                match rest {
                    None => whole is None,
                    Some((l, e2)) => whole == Some((out.deep_view() + l, e2)),
                }
            }),
        decreases count - i,
    {
        match dec_course_exec(&p, ppos) {
            None => {
                return None;
            },
            Some((c, e2)) => {
                proof {
                    match dec_course_items(p@, e2 as int, (count - i - 1) as nat) {
                        None => {},
                        Some((l2, e3)) => {
                            assert(out.deep_view() + (seq![c@] + l2) =~= (out.deep_view().push(
                                c@,
                            )) + l2);
                        },
                    }
                }
                let ghost old_out = out.deep_view();
                out.push(c);
                proof {
                    assert(out.deep_view() =~= old_out.push(c@));
                }
                ppos = e2;
                i = i + 1;
            },
        }
    }
    proof {
        assert(dec_course_items(p@, ppos as int, 0) == Some(
            (Seq::<CourseView>::empty(), ppos as int),
        ));
        assert(out.deep_view() + Seq::<CourseView>::empty() =~= out.deep_view());
    }
    if ppos != p.len() {
        return None;
    }
    Some(out)
}

/// Deserializes a lesson-list cache payload; `None` on any malformation.
#[verifier::loop_isolation(false)]
pub fn decode_lessons(payload: &str) -> (r: Option<Vec<Lesson>>)
    ensures
        match r {
            Some(v) => dec_lessons(payload@) == Some(v.deep_view()),
            None => dec_lessons(payload@) is None,
        },
{
    let p = str_to_chars(payload);
    if p.len() == 0 {
        return None;
    }
    if p[0] != 'L' {
        return None;
    }
    let (count, e) = match dec_nat_exec(&p, 1) {
        None => {
            proof {
                lemma_digit_run_facts(p@, 1);
                match dec_nat(p@, 1) {
                    None => {},
                    Some((n2, e2)) => {
                        lemma_dec_lesson_items_bound(p@, e2 + 1, n2 as nat);
                    },
                }
            }
            return None;
        },
        Some(x) => x,
    };
    if e >= p.len() {
        return None;
    }
    if p[e] != ';' {
        return None;
    }
    let start = e + 1;
    let mut out: Vec<Lesson> = Vec::new();
    let mut ppos: usize = start;
    let mut i: usize = 0;
    proof {
        assert(out.deep_view() =~= Seq::<LessonView>::empty());
        assert(out.deep_view() + Seq::<LessonView>::empty() =~= out.deep_view());
    }
    while i < count
        invariant
            i <= count,
            ppos <= p@.len(),
            ({
                let whole = dec_lesson_items(p@, start as int, count as nat);
                let rest = dec_lesson_items(p@, ppos as int, (count - i) as nat);
                match rest {
                    None => whole is None,
                    Some((l, e2)) => whole == Some((out.deep_view() + l, e2)),
                }
            }),
        decreases count - i,
    {
        match dec_lesson_exec(&p, ppos) {
            None => {
                return None;
            },
            Some((c, e2)) => {
                proof {
                    match dec_lesson_items(p@, e2 as int, (count - i - 1) as nat) {
                        None => {},
                        Some((l2, e3)) => {
                            assert(out.deep_view() + (seq![c@] + l2) =~= (out.deep_view().push(
                                c@,
                            )) + l2);
                        },
                    }
                }
                let ghost old_out = out.deep_view();
                out.push(c);
                proof {
                    assert(out.deep_view() =~= old_out.push(c@));
                }
                ppos = e2;
                i = i + 1;
            },
        }
    }
    proof {
        assert(dec_lesson_items(p@, ppos as int, 0) == Some(
            (Seq::<LessonView>::empty(), ppos as int),
        ));
        assert(out.deep_view() + Seq::<LessonView>::empty() =~= out.deep_view());
    }
    if ppos != p.len() {
        return None;
    }
    Some(out)
}

/// Round trip: decoding a serialized course list yields an equal list.
pub proof fn lemma_round_trip_courses(l: Seq<CourseView>)
    ensures
        dec_courses(enc_courses(l)) == Some(l),
{
    let p = enc_courses(l);
    let rep = dec_rep(l.len() as int);
    let m = rep.len() as int;
    lemma_dec_rep_props(l.len() as int);
    assert(p == ((seq!['C'] + rep) + seq![';']) + enc_course_items(l));
    assert(occurs_at(p, p, 0)) by {
        assert(p.subrange(0, p.len() as int) =~= p);
    }
    lemma_occurs_split(p, (seq!['C'] + rep) + seq![';'], enc_course_items(l), 0);
    lemma_occurs_split(p, seq!['C'] + rep, seq![';'], 0);
    lemma_occurs_split(p, seq!['C'], rep, 0);
    lemma_occurs_char(p, 'C', 0);
    lemma_occurs_char(p, ';', 1 + m);
    lemma_dec_nat_at(p, 1, l.len() as int);
    lemma_dec_course_items_at(p, 1 + m + 1, l);
}

/// The encoding is lossless: two course lists with the same payload are
/// the same list.
pub proof fn lemma_enc_courses_injective(a: Seq<CourseView>, b: Seq<CourseView>)
    requires
        enc_courses(a) == enc_courses(b),
    ensures
        a == b,
{
    lemma_round_trip_courses(a);
    lemma_round_trip_courses(b);
}

/// The encoding is lossless: two lesson lists with the same payload are
/// the same list.
pub proof fn lemma_enc_lessons_injective(a: Seq<LessonView>, b: Seq<LessonView>)
    requires
        enc_lessons(a) == enc_lessons(b),
    ensures
        a == b,
{
    lemma_round_trip_lessons(a);
    lemma_round_trip_lessons(b);
}

/// Round trip: decoding a serialized lesson list yields an equal list.
pub proof fn lemma_round_trip_lessons(l: Seq<LessonView>)
    ensures
        dec_lessons(enc_lessons(l)) == Some(l),
{
    let p = enc_lessons(l);
    let rep = dec_rep(l.len() as int);
    let m = rep.len() as int;
    lemma_dec_rep_props(l.len() as int);
    assert(p == ((seq!['L'] + rep) + seq![';']) + enc_lesson_items(l));
    assert(occurs_at(p, p, 0)) by {
        assert(p.subrange(0, p.len() as int) =~= p);
    }
    lemma_occurs_split(p, (seq!['L'] + rep) + seq![';'], enc_lesson_items(l), 0);
    lemma_occurs_split(p, seq!['L'] + rep, seq![';'], 0);
    lemma_occurs_split(p, seq!['L'], rep, 0);
    lemma_occurs_char(p, 'L', 0);
    lemma_occurs_char(p, ';', 1 + m);
    lemma_dec_nat_at(p, 1, l.len() as int);
    lemma_dec_lesson_items_at(p, 1 + m + 1, l);
}

} // verus!
