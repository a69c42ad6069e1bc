//! Calendar-file formatting: escaping of text fields and the rendering of
//! a lesson list as an ICS document.

use vstd::prelude::*;

use chrono::TimeZone;

use crate::model::{Lesson, LessonView};
use crate::text::{ascii_upper, ascii_upper_chars, chars_to_string, parse_i64_chars,
    parse_int_spec, push_str_chars, str_to_chars};

verus! {

/// How one character is escaped in an ICS text field: backslash, comma and
/// semicolon get a backslash, a newline becomes `\n`, and a carriage
/// return is dropped.
pub open spec fn esc_char(c: char) -> Seq<char> {
    if c == '\\' {
        seq!['\\', '\\']
    } else if c == ',' {
        seq!['\\', ',']
    } else if c == ';' {
        seq!['\\', ';']
    } else if c == '\n' {
        seq!['\\', 'n']
    } else if c == '\r' {
        Seq::<char>::empty()
    } else {
        seq![c]
    }
}

/// The ICS escaping of a whole text.
pub open spec fn escape_ics(s: Seq<char>) -> Seq<char>
    decreases s.len(),
{
    if s.len() == 0 {
        Seq::<char>::empty()
    } else {
        esc_char(s[0]) + escape_ics(s.drop_first())
    }
}

/// Escaping one more character appends its escape.
proof fn lemma_escape_snoc(p: Seq<char>, c: char)
    ensures
        escape_ics(p.push(c)) == escape_ics(p) + esc_char(c),
    decreases p.len(),
{
    if p.len() == 0 {
        assert(p.push(c).drop_first() =~= Seq::<char>::empty());
        assert(escape_ics(p.push(c)) == esc_char(c) + escape_ics(Seq::<char>::empty()));
        assert(escape_ics(p.push(c)) =~= escape_ics(p) + esc_char(c));
    } else {
        assert(p.push(c).drop_first() =~= p.drop_first().push(c));
        lemma_escape_snoc(p.drop_first(), c);
        assert(escape_ics(p.push(c)) =~= escape_ics(p) + esc_char(c));
    }
}

/// Appends the ICS escaping of `s` to `out`.
#[verifier::loop_isolation(false)]
fn push_escaped(out: &mut Vec<char>, s: &str)
    ensures
        final(out)@ == old(out)@ + escape_ics(s@),
{
    let cs = str_to_chars(s);
    let n = cs.len();
    let mut i: usize = 0;
    proof {
        assert(cs@.take(0) =~= Seq::<char>::empty());
        assert(out@ =~= old(out)@ + escape_ics(cs@.take(0)));
    }
    while i < n
        invariant
            i <= n,
            out@ == old(out)@ + escape_ics(cs@.take(i as int)),
        decreases n - i,
    {
        let c = cs[i];
        if c == '\\' {
            out.push('\\');
            out.push('\\');
        } else if c == ',' {
            out.push('\\');
            out.push(',');
        } else if c == ';' {
            out.push('\\');
            out.push(';');
        } else if c == '\n' {
            out.push('\\');
            out.push('n');
        } else if c == '\r' {
        } else {
            out.push(c);
        }
        proof {
            assert(cs@.take(i + 1) =~= cs@.take(i as int).push(cs@[i as int]));
            lemma_escape_snoc(cs@.take(i as int), cs@[i as int]);
            assert(out@ =~= old(out)@ + escape_ics(cs@.take(i + 1)));
        }
        i = i + 1;
    }
    proof {
        assert(cs@.take(n as int) =~= cs@);
    }
}

/// Escapes the characters an ICS text field treats specially.
pub fn escape_ics_text(text: &str) -> (r: String)
    ensures
        r@ == escape_ics(text@),
{
    let mut out: Vec<char> = Vec::new();
    push_escaped(&mut out, text);
    chars_to_string(&out)
}

/// The ICS date-time rendering (`%Y%m%dT%H%M%SZ`, UTC) of a millisecond
/// timestamp: a function of the timestamp alone.
pub uninterp spec fn ics_datetime_of(millis: i64) -> Seq<char>;

/// Relies on chrono: `Utc.timestamp_millis_opt` is a single instant for
/// any timestamp in the required range, and formatting it with
/// `%Y%m%dT%H%M%SZ` renders it as a function of the instant alone.
#[verifier::external_body]
pub fn timestamp_to_utc_datetime(timestamp_millis: i64) -> (r: String)
    requires
        -62135596800000 <= timestamp_millis <= 253402300799999,
    ensures
        r@ == ics_datetime_of(timestamp_millis),
{
    let datetime = chrono::Utc.timestamp_millis_opt(timestamp_millis).single().expect(
        "Invalid timestamp",
    );
    datetime.format("%Y%m%dT%H%M%SZ").to_string()
}

/// The timestamp a lesson field carries: its decimal text parsed as a
/// signed 64-bit value, with 0 when it is absent from the renderable range
/// or unparseable.
pub open spec fn lesson_timestamp(s: Seq<char>) -> i64 {
    match parse_int_spec(s) {
        Some(v) => if -62135596800000 <= v <= 253402300799999 {
            v as i64
        } else {
            0
        },
        None => 0,
    }
}

/// Parses a lesson timestamp field.
fn lesson_timestamp_exec(s: &String) -> (r: i64)
    ensures
        r == lesson_timestamp(s@),
        -62135596800000 <= r <= 253402300799999,
{
    let cs = str_to_chars(s.as_str());
    match parse_i64_chars(&cs) {
        Some(v) => {
            if -62135596800000 <= v && v <= 253402300799999 {
                v
            } else {
                0
            }
        },
        None => 0,
    }
}

/// The value of an optional field, empty when absent.
pub open spec fn opt_text(o: Option<Seq<char>>) -> Seq<char> {
    match o {
        Some(s) => s,
        None => Seq::<char>::empty(),
    }
}

/// The calendar header for one university's timetable.
pub open spec fn ics_header(uni: Seq<char>) -> Seq<char> {
    "BEGIN:VCALENDAR\r\n"@ + "VERSION:2.0\r\n"@
        + "PRODID:-//Timetable//Timetable Calendar//IT\r\n"@ + "CALSCALE:GREGORIAN\r\n"@
        + "X-WR-CALNAME:"@ + escape_ics(ascii_upper(uni)) + " Timetable\r\n"@
        + "X-WR-CALDESC:Lessons timetable for "@ + escape_ics(uni) + "\r\n"@
}

/// One calendar event: a lesson, stamped with "now".
pub open spec fn ics_event(l: LessonView, uni: Seq<char>, now: i64) -> Seq<char> {
    "BEGIN:VEVENT\r\n"@ + "UID:timetable-"@ + escape_ics(uni) + "-"@ + escape_ics(l.subject)
        + "-"@ + escape_ics(l.starts_at) + "\r\n"@ + "DTSTAMP:"@ + ics_datetime_of(now) + "\r\n"@
        + "DTSTART:"@ + ics_datetime_of(lesson_timestamp(l.starts_at)) + "\r\n"@ + "DTEND:"@
        + ics_datetime_of(lesson_timestamp(l.ends_at)) + "\r\n"@ + "SUMMARY:"@ + escape_ics(
        l.subject,
    ) + "\r\n"@ + "DESCRIPTION:"@ + escape_ics(opt_text(l.description)) + "\r\n"@ + "LOCATION:"@
        + escape_ics(opt_text(l.location)) + "\r\n"@ + "END:VEVENT\r\n"@
}

/// The events of a lesson list, in order.
pub open spec fn ics_events(ls: Seq<LessonView>, uni: Seq<char>, now: i64) -> Seq<char>
    decreases ls.len(),
{
    if ls.len() == 0 {
        Seq::<char>::empty()
    } else {
        ics_event(ls[0], uni, now) + ics_events(ls.drop_first(), uni, now)
    }
}

/// The whole calendar document.
pub open spec fn ics_document(ls: Seq<LessonView>, uni: Seq<char>, now: i64) -> Seq<char> {
    ics_header(uni) + ics_events(ls, uni, now) + "END:VCALENDAR\r\n"@
}

/// One more lesson appends one more event.
proof fn lemma_ics_events_push(ls: Seq<LessonView>, l: LessonView, uni: Seq<char>, now: i64)
    ensures
        ics_events(ls.push(l), uni, now) == ics_events(ls, uni, now) + ics_event(l, uni, now),
    decreases ls.len(),
{
    if ls.len() == 0 {
        assert(ls.push(l).drop_first() =~= Seq::<LessonView>::empty());
        assert(ics_events(ls.push(l), uni, now) == ics_event(l, uni, now) + ics_events(
            Seq::<LessonView>::empty(),
            uni,
            now,
        ));
        assert(ics_events(ls.push(l), uni, now) =~= ics_events(ls, uni, now) + ics_event(
            l,
            uni,
            now,
        ));
    } else {
        assert(ls.push(l).drop_first() =~= ls.drop_first().push(l));
        lemma_ics_events_push(ls.drop_first(), l, uni, now);
        assert(ics_events(ls.push(l), uni, now) =~= ics_events(ls, uni, now) + ics_event(
            l,
            uni,
            now,
        ));
    }
}

/// Appends one event to `out`.
#[verifier::rlimit(80)]
fn push_event(out: &mut Vec<char>, l: &Lesson, uni: &String, stamp: &String, now: i64)
    requires
        stamp@ == ics_datetime_of(now),
    ensures
        final(out)@ == old(out)@ + ics_event(l@, uni@, now),
{
    push_str_chars(out, "BEGIN:VEVENT\r\n");
    push_str_chars(out, "UID:timetable-");
    push_escaped(out, uni.as_str());
    push_str_chars(out, "-");
    push_escaped(out, l.subject.as_str());
    push_str_chars(out, "-");
    push_escaped(out, l.starts_at.as_str());
    push_str_chars(out, "\r\n");
    push_str_chars(out, "DTSTAMP:");
    push_str_chars(out, stamp.as_str());
    push_str_chars(out, "\r\n");
    push_str_chars(out, "DTSTART:");
    let start_ts = lesson_timestamp_exec(&l.starts_at);
    let start_str = timestamp_to_utc_datetime(start_ts);
    push_str_chars(out, start_str.as_str());
    push_str_chars(out, "\r\n");
    push_str_chars(out, "DTEND:");
    let end_ts = lesson_timestamp_exec(&l.ends_at);
    let end_str = timestamp_to_utc_datetime(end_ts);
    push_str_chars(out, end_str.as_str());
    push_str_chars(out, "\r\n");
    push_str_chars(out, "SUMMARY:");
    push_escaped(out, l.subject.as_str());
    push_str_chars(out, "\r\n");
    push_str_chars(out, "DESCRIPTION:");
    match &l.description {
        Some(d) => push_escaped(out, d.as_str()),
        None => push_escaped(out, ""),
    }
    push_str_chars(out, "\r\n");
    push_str_chars(out, "LOCATION:");
    match &l.location {
        Some(d) => push_escaped(out, d.as_str()),
        None => push_escaped(out, ""),
    }
    push_str_chars(out, "\r\n");
    push_str_chars(out, "END:VEVENT\r\n");
    proof {
        reveal_strlit("");
        assert(escape_ics(""@) =~= Seq::<char>::empty());
        assert(final(out)@ =~= old(out)@ + ics_event(l@, uni@, now));
    }
}

/// Renders a lesson list as an ICS calendar for one university, stamped
/// with "now".
#[verifier::loop_isolation(false)]
pub fn format_lessons_to_ics(lessons: &Vec<Lesson>, university: &String, now_millis: i64) -> (r:
    String)
    requires
        0 <= now_millis <= 253402300799999,
    ensures
        r@ == ics_document(lessons.deep_view(), university@, now_millis),
{
    let mut out: Vec<char> = Vec::new();
    push_str_chars(&mut out, "BEGIN:VCALENDAR\r\n");
    push_str_chars(&mut out, "VERSION:2.0\r\n");
    push_str_chars(&mut out, "PRODID:-//Timetable//Timetable Calendar//IT\r\n");
    push_str_chars(&mut out, "CALSCALE:GREGORIAN\r\n");
    push_str_chars(&mut out, "X-WR-CALNAME:");
    let uc = ascii_upper_chars(&str_to_chars(university.as_str()));
    let upper = chars_to_string(&uc);
    push_escaped(&mut out, upper.as_str());
    push_str_chars(&mut out, " Timetable\r\n");
    push_str_chars(&mut out, "X-WR-CALDESC:Lessons timetable for ");
    push_escaped(&mut out, university.as_str());
    push_str_chars(&mut out, "\r\n");
    proof {
        assert(out@ =~= ics_header(university@));
    }
    let stamp = timestamp_to_utc_datetime(now_millis);
    let n = lessons.len();
    let mut i: usize = 0;
    let ghost lv = lessons.deep_view();
    proof {
        assert(out@ =~= ics_header(university@) + ics_events(lv.take(0), university@, now_millis));
    }
    while i < n
        invariant
            i <= n,
            stamp@ == ics_datetime_of(now_millis),
            out@ == ics_header(university@) + ics_events(lv.take(i as int), university@,
            now_millis),
        decreases n - i,
    {
        proof {
            assert(lv[i as int] == lessons@[i as int]@);
        }
        push_event(&mut out, &lessons[i], university, &stamp, now_millis);
        proof {
            assert(lv.take(i + 1) =~= lv.take(i as int).push(lv[i as int]));
            lemma_ics_events_push(lv.take(i as int), lv[i as int], university@, now_millis);
            assert(out@ =~= ics_header(university@) + ics_events(
                lv.take(i + 1),
                university@,
                now_millis,
            ));
        }
        i = i + 1;
    }
    push_str_chars(&mut out, "END:VCALENDAR\r\n");
    proof {
        assert(lv.take(n as int) =~= lv);
        assert(out@ =~= ics_document(lv, university@, now_millis));
    }
    chars_to_string(&out)
}

} // verus!
