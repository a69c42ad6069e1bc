//! The exemplar source: turns the upstream timetable interface into the
//! canonical domain model. Validation, request derivation, response
//! classification and parsing are verified; the upstream JSON walk is the
//! one trusted step, named and pinned as a function of the body alone.

use vstd::prelude::*;

use chrono::TimeZone;

use crate::model::{Course, Error, ErrorFault, Lesson, LessonView};
use crate::text::{
    chars_eq, chars_to_string, find_from, parse_i8_chars, parse_int_spec, push_range,
    push_str_chars, str_to_chars,
};
use crate::window::{derive_week_window, days_since_monday, WeekWindow};

verus! {

/// The exemplar source for the `unicam` identifier.
pub struct UnicamCrawler;

// ---------------------------------------------------------------------------
// Query lookup and validation.
// ---------------------------------------------------------------------------
/// The value under the first pair whose key is `k`, if any. Queries come
/// from an HTTP query map, so keys are unique in practice.
pub open spec fn query_lookup(q: Seq<(Seq<char>, Seq<char>)>, k: Seq<char>) -> Option<Seq<char>>
    decreases q.len(),
{
    if q.len() == 0 {
        None
    } else if q[0].0 == k {
        Some(q[0].1)
    } else {
        query_lookup(q.drop_first(), k)
    }
}

/// Looks a key up in the query, returning an owned copy of its value.
fn query_get(query: &Vec<(String, String)>, key: &str) -> (r: Option<String>)
    ensures
        match r {
            Some(v) => query_lookup(crate::cachekey::query_view(query@), key@) == Some(v@),
            None => query_lookup(crate::cachekey::query_view(query@), key@) is None,
        },
{
    let kc = str_to_chars(key);
    let n = query.len();
    let mut i: usize = 0;
    let ghost qv = crate::cachekey::query_view(query@);
    proof {
        assert(qv.skip(0) =~= qv);
    }
    while i < n
        invariant
            i <= n,
            n == query@.len(),
            qv == crate::cachekey::query_view(query@),
            qv.len() == n,
            kc@ == key@,
            query_lookup(qv, key@) == query_lookup(qv.skip(i as int), key@),
        decreases n - i,
    {
        let vc = str_to_chars(query[i].0.as_str());
        proof {
            assert(qv.skip(i as int)[0] == qv[i as int]);
            assert(qv[i as int] == (query@[i as int].0@, query@[i as int].1@));
        }
        if chars_eq(&vc, &kc) {
            return Some(query[i].1.clone());
        }
        proof {
            assert(qv.skip(i as int).drop_first() =~= qv.skip(i + 1));
        }
        i = i + 1;
    }
    proof {
        assert(qv.skip(n as int).len() == 0);
    }
    None
}

/// A course year is valid when it is a single digit from 0 to 5.
pub open spec fn year_valid(y: Seq<char>) -> bool {
    y.len() == 1 && '0' <= y[0] <= '5'
}

/// The number of weeks a query asks for: the `weeks` parameter parsed as a
/// signed byte, with 3 when it is absent or unparseable.
pub open spec fn effective_weeks(q: Seq<(Seq<char>, Seq<char>)>) -> int {
    match query_lookup(q, "weeks"@) {
        None => 3,
        Some(w) => match parse_int_spec(w) {
            Some(v) => if -128 <= v <= 127 {
                v
            } else {
                3
            },
            None => 3,
        },
    }
}

/// What validating a lesson query yields: the course id, the course year
/// and the effective weeks — or the user-facing message of the first
/// failed check.
pub open spec fn lessons_validation(q: Seq<(Seq<char>, Seq<char>)>) -> Result<
    (Seq<char>, Seq<char>, int),
    Seq<char>,
> {
    match query_lookup(q, "course_id"@) {
        None => Err("Missing course_id in query parameters"@),
        Some(cid) => match query_lookup(q, "course_year"@) {
            None => Err("Missing course_year in query parameters"@),
            Some(cy) => if !year_valid(cy) {
                Err("course_year must be a number from 0 to 5"@)
            } else if !(1 <= effective_weeks(q) <= 5) {
                Err("Weeks must be between 1 and 5"@)
            } else {
                Ok((cid, cy, effective_weeks(q)))
            },
        },
    }
}

/// Builds the caller's-fault error every failed validation returns.
fn user_error(msg: &str) -> (e: Error)
    ensures
        e@.fault == ErrorFault::User,
        e@.http_code == Some(400u16),
        e@.error == "Bad request"@,
        e@.message == Some(msg@),
{
    Error {
        error: String::from_str("Bad request"),
        message: Some(String::from_str(msg)),
        fault: ErrorFault::User,
        http_code: Some(400),
    }
}

/// Builds an error blamed on this system itself.
fn internal_error(text: &str, msg: String) -> (e: Error)
    ensures
        e@.fault == ErrorFault::Internal,
        e@.http_code is None,
        e@.error == text@,
        e@.message is Some,
{
    Error {
        error: String::from_str(text),
        message: Some(msg),
        fault: ErrorFault::Internal,
        http_code: None,
    }
}

/// Builds an error blamed on the upstream source.
fn external_error(text: &str, msg: String) -> (e: Error)
    ensures
        e@.fault == ErrorFault::External,
        e@.http_code is None,
        e@.error == text@,
        e@.message is Some,
{
    Error {
        error: String::from_str(text),
        message: Some(msg),
        fault: ErrorFault::External,
        http_code: None,
    }
}

/// A validated lesson query.
#[derive(Debug)]
pub struct LessonsQuery {
    pub course_id: String,
    pub course_year: String,
    pub weeks: i8,
}

/// Validates a lesson query: `course_id` required, `course_year` required
/// and a single digit 0–5, `weeks` optional with default 3 and must lie in
/// 1–5; the first violation is the caller's fault, HTTP 400.
pub fn validate_lessons_query(query: &Vec<(String, String)>) -> (r: Result<LessonsQuery, Error>)
    ensures
        ({
            let qv = crate::cachekey::query_view(query@);
            match r {
                Ok(v) => lessons_validation(qv) == Ok::<_, Seq<char>>(
                    (v.course_id@, v.course_year@, v.weeks as int),
                ) && 1 <= v.weeks <= 5,
                Err(e) => lessons_validation(qv) matches Err(msg) && e@.fault == ErrorFault::User
                    && e@.http_code == Some(400u16) && e@.error == "Bad request"@ && e@.message
                    == Some(msg),
            }
        }),
{
    let course_id = match query_get(query, "course_id") {
        Some(v) => v,
        None => {
            return Err(user_error("Missing course_id in query parameters"));
        },
    };
    let course_year = match query_get(query, "course_year") {
        Some(v) => v,
        None => {
            return Err(user_error("Missing course_year in query parameters"));
        },
    };
    let weeks: i8 = match query_get(query, "weeks") {
        None => 3,
        Some(w) => {
            let wc = str_to_chars(w.as_str());
            match parse_i8_chars(&wc) {
                Some(v) => v,
                None => 3,
            }
        },
    };
    let yc = str_to_chars(course_year.as_str());
    let year_ok: bool = if yc.len() != 1 {
        false
    } else {
        '0' <= yc[0] && yc[0] <= '5'
    };
    if !year_ok {
        return Err(user_error("course_year must be a number from 0 to 5"));
    }
    if weeks < 1 || weeks > 5 {
        return Err(user_error("Weeks must be between 1 and 5"));
    }
    Ok(LessonsQuery { course_id, course_year, weeks })
}

// ---------------------------------------------------------------------------
// Request derivation.
// ---------------------------------------------------------------------------
/// An RFC 3339 rendering of a UTC millisecond timestamp: a function of the
/// timestamp alone.
pub uninterp spec fn rfc3339_of(millis: i64) -> Seq<char>;

/// Relies on chrono: `Utc.timestamp_millis_opt(millis)` is a single instant
/// for any timestamp in the required range, and `DateTime::to_rfc3339`
/// renders it as a function of the instant alone.
#[verifier::external_body]
fn format_rfc3339_utc(millis: i64) -> (r: String)
    requires
        0 <= millis <= 253402300799999,
    ensures
        r@ == rfc3339_of(millis),
{
    chrono::Utc.timestamp_millis_opt(millis).single().expect("timestamp in range").to_rfc3339()
}

/// The parameter list of the upstream lessons call, in order.
pub open spec fn lessons_params(
    course_id: Seq<char>,
    course_year: Seq<char>,
    start_millis: i64,
    end_millis: i64,
) -> Seq<(Seq<char>, Seq<char>)> {
    seq![
        ("filename"@, "../didattica/controller/orari.php"@),
        ("class"@, "OrariController"@),
        ("method"@, "getDateLezioniByPercorsoCalendar"@),
        ("parametri[]"@, course_id),
        ("parametri[]"@, "false"@),
        ("parametri[]"@, course_year),
        ("start"@, rfc3339_of(start_millis)),
        ("end"@, rfc3339_of(end_millis)),
    ]
}

/// Everything the boundary needs to make the upstream lessons call.
#[derive(Debug)]
pub struct LessonsRequest {
    pub url: String,
    pub params: Vec<(String, String)>,
    pub window: WeekWindow,
}

impl UnicamCrawler {
    /// Validates the query and derives the upstream request: the window
    /// starts on the most recent Monday at or before "now" and spans the
    /// effective weeks, and the parameters carry the validated values. A
    /// rejected query never produces a request.
    pub fn lessons_request(query: &Vec<(String, String)>, now_millis: i64) -> (r: Result<
        LessonsRequest,
        Error,
    >)
        requires
            604800000 <= now_millis <= 100000000000000,
        ensures
            ({
                let qv = crate::cachekey::query_view(query@);
                match r {
                    Ok(req) => lessons_validation(qv) matches Ok((cid, cy, wk)) && req.url@
                        == "https://unifare.unicam.it//controller/ajaxController.php"@
                        && req.window.start_millis == now_millis - days_since_monday(
                        now_millis as int,
                    ) * 86400000 && req.window.end_millis - req.window.start_millis + 86400000
                        == wk * 7 * 86400000 && days_since_monday(req.window.start_millis as int)
                        == 0 && crate::cachekey::query_view(req.params@) == lessons_params(
                        cid,
                        cy,
                        req.window.start_millis,
                        req.window.end_millis,
                    ),
                    Err(e) => lessons_validation(qv) matches Err(msg) && e@.fault
                        == ErrorFault::User && e@.http_code == Some(400u16) && e@.error
                        == "Bad request"@ && e@.message == Some(msg),
                }
            }),
    {
        let v = match validate_lessons_query(query) {
            Ok(v) => v,
            Err(e) => {
                return Err(e);
            },
        };
        let window = derive_week_window(now_millis, v.weeks);
        let date_from = format_rfc3339_utc(window.start_millis);
        let date_to = format_rfc3339_utc(window.end_millis);
        let mut params: Vec<(String, String)> = Vec::new();
        params.push(
            (String::from_str("filename"), String::from_str("../didattica/controller/orari.php")),
        );
        params.push((String::from_str("class"), String::from_str("OrariController")));
        params.push(
            (String::from_str("method"), String::from_str("getDateLezioniByPercorsoCalendar")),
        );
        params.push((String::from_str("parametri[]"), v.course_id));
        params.push((String::from_str("parametri[]"), String::from_str("false")));
        params.push((String::from_str("parametri[]"), v.course_year));
        params.push((String::from_str("start"), date_from));
        params.push((String::from_str("end"), date_to));
        proof {
            let ghost pv = crate::cachekey::query_view(params@);
            assert(pv.len() == 8);
            assert(pv[0] == ("filename"@, "../didattica/controller/orari.php"@));
            assert(pv[1] == ("class"@, "OrariController"@));
            assert(pv[2] == ("method"@, "getDateLezioniByPercorsoCalendar"@));
            assert(pv[6] == ("start"@, rfc3339_of(window.start_millis)));
            assert(pv[7] == ("end"@, rfc3339_of(window.end_millis)));
            assert(pv =~= lessons_params(
                v.course_id@,
                v.course_year@,
                window.start_millis,
                window.end_millis,
            ));
        }
        Ok(
            LessonsRequest {
                url: String::from_str("https://unifare.unicam.it//controller/ajaxController.php"),
                params,
                window,
            },
        )
    }
}

// ---------------------------------------------------------------------------
// Response classification and lesson parsing.
// ---------------------------------------------------------------------------
/// What the upstream call produced, as handed in by the boundary: a
/// response with its status and body, or a transport failure.
pub enum FetchOutcome {
    Status { code: u16, body: String },
    Transport { detail: String },
}

/// One element of the upstream lessons array, as extracted by the trusted
/// JSON walk: the rendered `start`, `end` and `description` fields and the
/// `title` string.
pub struct LessonRow {
    pub starts_at: String,
    pub ends_at: String,
    pub subject: String,
    pub description: String,
}

/// The mathematical image of extracted rows.
pub open spec fn rows_view(rows: Seq<LessonRow>) -> Seq<(Seq<char>, Seq<char>, Seq<char>, Seq<char>)> {
    rows.map(|i: int, r: LessonRow| (r.starts_at@, r.ends_at@, r.subject@, r.description@))
}

/// What the upstream lessons body holds: `None` when it is not a JSON
/// array, otherwise each element's rendered `start`, `end`, `title` and
/// `description` — a function of the body alone.
pub uninterp spec fn json_lesson_rows(body: Seq<char>) -> Option<Seq<(Seq<char>, Seq<char>, Seq<char>, Seq<char>)>>;

/// Relies on `serde_json::from_str::<Value>`, `Value::as_array`, `Value`'s
/// `Index` and `ToString`, and `Value::as_str`: whether the body parses as
/// a JSON array, and each element's fields, a function of the body alone.
#[verifier::external_body]
fn parse_lesson_rows(body: &str) -> (r: Option<Vec<LessonRow>>)
    ensures
        match r {
            Some(rows) => json_lesson_rows(body@) == Some(rows_view(rows@)),
            None => json_lesson_rows(body@) is None,
        },
{
    let v: serde_json::Value = serde_json::from_str(body).ok()?;
    let arr = v.as_array()?;
    Some(arr.iter().map(|l| LessonRow {
        starts_at: l["start"].to_string(),
        ends_at: l["end"].to_string(),
        subject: l["title"].as_str().unwrap_or("").to_string(),
        description: l["description"].to_string(),
    }).collect())
}

/// The literal that separates the location from the teacher names inside
/// the rendered description; brittle against upstream markup changes, so
/// its absence is an internal fault, never a crash.
pub open spec fn lesson_marker() -> Seq<char> {
    " <div style=\\\"height:8px\\\"></div><b>Docenti:</b> "@
}

/// The lesson a row yields: the description split on the marker into
/// location and teacher (the teacher part runs to the next marker, if
/// any); `None` when the marker is absent.
pub open spec fn row_lesson(row: (Seq<char>, Seq<char>, Seq<char>, Seq<char>)) -> Option<
    LessonView,
> {
    let mk = lesson_marker();
    match find_from(row.3, mk, 0) {
        None => None,
        Some(d) => {
            let rs = d + mk.len();
            let teacher = match find_from(row.3, mk, rs) {
                None => row.3.subrange(rs, row.3.len() as int),
                Some(d2) => row.3.subrange(rs, d2),
            };
            Some(
                LessonView {
                    starts_at: row.0,
                    ends_at: row.1,
                    subject: row.2,
                    teacher: Some(teacher),
                    location: Some(row.3.take(d)),
                    description: None,
                },
            )
        },
    }
}

/// Whether every row's description carries the marker.
pub open spec fn rows_ok(rv: Seq<(Seq<char>, Seq<char>, Seq<char>, Seq<char>)>) -> bool {
    forall|i: int| 0 <= i < rv.len() ==> (#[trigger] row_lesson(rv[i])) is Some
}

/// The lessons of a list of well-formed rows.
pub open spec fn lessons_of_rows(rv: Seq<(Seq<char>, Seq<char>, Seq<char>, Seq<char>)>) -> Seq<
    LessonView,
> {
    Seq::new(rv.len(), |i: int| row_lesson(rv[i])->Some_0)
}

/// Turns extracted rows into lessons; a row whose description lacks the
/// marker makes the whole response an internal fault.
#[verifier::loop_isolation(false)]
pub fn lessons_from_rows(rows: &Vec<LessonRow>) -> (r: Result<Vec<Lesson>, Error>)
    ensures
        ({
            let rv = rows_view(rows@);
            match r {
                Ok(ls) => rows_ok(rv) && ls.deep_view() == lessons_of_rows(rv),
                Err(e) => !rows_ok(rv) && e@.fault == ErrorFault::Internal && e@.error
                    == "Error while parsing crawled data from unicam"@ && e@.http_code is None
                    && e@.message is Some,
            }
        }),
{
    let mk = str_to_chars(" <div style=\\\"height:8px\\\"></div><b>Docenti:</b> ");
    let n = rows.len();
    let mut out: Vec<Lesson> = Vec::new();
    let mut i: usize = 0;
    let ghost rv = rows_view(rows@);
    while i < n
        invariant
            i <= n,
            out.deep_view() =~= lessons_of_rows(rv).take(i as int),
            forall|k: int| 0 <= k < i ==> (#[trigger] row_lesson(rv[k])) is Some,
            mk@ == lesson_marker(),
        decreases n - i,
    {
        proof {
            assert(rv[i as int] == (
                rows@[i as int].starts_at@,
                rows@[i as int].ends_at@,
                rows@[i as int].subject@,
                rows@[i as int].description@,
            ));
        }
        let desc = str_to_chars(rows[i].description.as_str());
        let d = match crate::text::find_sub(&desc, &mk, 0) {
            Some(d) => d,
            None => {
                let mut msg: Vec<char> = Vec::new();
                push_str_chars(&mut msg, "Teacher separator not found in description: ");
                push_range(&mut msg, &desc, 0, desc.len());
                return Err(
                    internal_error(
                        "Error while parsing crawled data from unicam",
                        chars_to_string(&msg),
                    ),
                );
            },
        };
        let dlen = desc.len();
        proof {
            crate::text::lemma_find_from_spec(desc@, mk@, 0);
            assert(d + mk@.len() <= dlen);
        }
        let rs = d + mk.len();
        let d2 = crate::text::find_sub(&desc, &mk, rs);
        let mut loc: Vec<char> = Vec::new();
        push_range(&mut loc, &desc, 0, d);
        let mut teach: Vec<char> = Vec::new();
        match d2 {
            Some(d2v) => {
                proof {
                    crate::text::lemma_find_from_spec(desc@, mk@, rs as int);
                }
                push_range(&mut teach, &desc, rs, d2v);
            },
            None => {
                push_range(&mut teach, &desc, rs, desc.len());
            },
        }
        let lesson = Lesson {
            starts_at: rows[i].starts_at.clone(),
            ends_at: rows[i].ends_at.clone(),
            subject: rows[i].subject.clone(),
            teacher: Some(chars_to_string(&teach)),
            location: Some(chars_to_string(&loc)),
            description: None,
        };
        out.push(lesson);
        proof {
            assert(out.deep_view().len() == i + 1);
            assert(out.deep_view()[i as int] == row_lesson(rv[i as int])->Some_0);
            assert(out.deep_view() =~= lessons_of_rows(rv).take(i + 1));
        }
        i = i + 1;
    }
    proof {
        assert(lessons_of_rows(rv).take(n as int) =~= lessons_of_rows(rv));
    }
    Ok(out)
}

impl UnicamCrawler {
    /// Classifies and parses the upstream lessons response: a transport
    /// failure is this system's fault; a non-200 status is the upstream's
    /// fault; a 200 body must be a JSON array whose rows all carry the
    /// marker, else the parse is this system's fault.
    pub fn lessons_response(outcome: FetchOutcome) -> (r: Result<Vec<Lesson>, Error>)
        ensures
            match outcome {
                FetchOutcome::Transport { detail } => r matches Err(e) && e@.fault
                    == ErrorFault::Internal && e@.error
                    == "Error while crawling lessons from unicam"@ && e@.http_code is None
                    && e@.message is Some,
                FetchOutcome::Status { code, body } => if code != 200 {
                    r matches Err(e) && e@.fault == ErrorFault::External && e@.error
                        == "Error while crawling lessons from unicam"@ && e@.http_code is None
                        && e@.message is Some
                } else {
                    match json_lesson_rows(body@) {
                        None => r matches Err(e) && e@.fault == ErrorFault::Internal && e@.error
                            == "Error while parsing crawled data from unicam"@ && e@.http_code
                            is None && e@.message is Some,
                        Some(rv) => match r {
                            Ok(ls) => rows_ok(rv) && ls.deep_view() == lessons_of_rows(rv),
                            Err(e) => !rows_ok(rv) && e@.fault == ErrorFault::Internal && e@.error
                                == "Error while parsing crawled data from unicam"@ && e@.http_code
                                is None && e@.message is Some,
                        },
                    }
                },
            },
    {
        match outcome {
            FetchOutcome::Transport { detail } => {
                let mut msg: Vec<char> = Vec::new();
                push_str_chars(&mut msg, "Connection error while attempting to fetch: ");
                push_str_chars(&mut msg, detail.as_str());
                Err(
                    internal_error(
                        "Error while crawling lessons from unicam",
                        chars_to_string(&msg),
                    ),
                )
            },
            FetchOutcome::Status { code, body } => {
                if code != 200 {
                    let mut msg: Vec<char> = Vec::new();
                    push_str_chars(&mut msg, "The server responded with status code: ");
                    crate::text::push_u64_dec(&mut msg, code as u64);
                    return Err(
                        external_error(
                            "Error while crawling lessons from unicam",
                            chars_to_string(&msg),
                        ),
                    );
                }
                match parse_lesson_rows(body.as_str()) {
                    None => {
                        let mut msg: Vec<char> = Vec::new();
                        push_str_chars(
                            &mut msg,
                            "Parsing error or non-array JSON response. Body: ",
                        );
                        push_str_chars(&mut msg, body.as_str());
                        Err(
                            internal_error(
                                "Error while parsing crawled data from unicam",
                                chars_to_string(&msg),
                            ),
                        )
                    },
                    Some(rows) => lessons_from_rows(&rows),
                }
            },
        }
    }
}

// ---------------------------------------------------------------------------
// Course catalog parsing.
// ---------------------------------------------------------------------------
/// The grouping construct that opens a category block.
pub open spec fn og_open() -> Seq<char> {
    "<optgroup label=\""@
}

/// The construct that closes a category block.
pub open spec fn og_close() -> Seq<char> {
    "</optgroup>"@
}

/// The construct that opens one course entry.
pub open spec fn opt_open() -> Seq<char> {
    "<option"@
}

/// The attribute that carries a course entry's numeric identifier.
pub open spec fn val_attr() -> Seq<char> {
    "value=\""@
}

/// The construct that closes one course entry.
pub open spec fn opt_close() -> Seq<char> {
    "</option>"@
}

/// Splits an entry's label on the fixed ` - ` delimiter into a code and a
/// name: the code is everything before the first delimiter (the whole
/// label when none occurs, the name then empty), the name everything
/// between the first and the second (or the end).
pub open spec fn split_code_name(t: Seq<char>) -> (Seq<char>, Seq<char>) {
    match find_from(t, " - "@, 0) {
        None => (t, Seq::<char>::empty()),
        Some(d) => {
            let rest = d + 3;
            match find_from(t, " - "@, rest) {
                None => (t.take(d), t.subrange(rest, t.len() as int)),
                Some(d2) => (t.take(d), t.subrange(rest, d2)),
            }
        },
    }
}

/// The courses inside one category block, scanning from `pos`: each entry
/// needs a non-empty digit identifier closed by a quote, a tag end, a
/// non-empty label, and a proper closing construct; scanning stops at the
/// first entry that lacks any of these.
pub open spec fn block_courses(c: Seq<char>, pos: int, category: Seq<char>) -> Seq<
    crate::model::CourseView,
>
    decreases c.len() + 1 - pos,
    when 0 <= pos
    via block_courses_decreases
{
    match find_from(c, opt_open(), pos) {
        None => Seq::<crate::model::CourseView>::empty(),
        Some(i) => match find_from(c, val_attr(), i) {
            None => Seq::<crate::model::CourseView>::empty(),
            Some(v) => {
                let ds = v + 7;
                let de = crate::codec::digit_run_end(c, ds);
                if de == ds || de >= c.len() || c[de] != '"' {
                    Seq::<crate::model::CourseView>::empty()
                } else {
                    match find_from(c, ">"@, de + 1) {
                        None => Seq::<crate::model::CourseView>::empty(),
                        Some(g) => match find_from(c, "<"@, g + 1) {
                            None => Seq::<crate::model::CourseView>::empty(),
                            Some(t) => if t == g + 1 || !crate::text::occurs_at(
                                c,
                                opt_close(),
                                t,
                            ) {
                                Seq::<crate::model::CourseView>::empty()
                            } else {
                                let text = crate::text::trim_spec(c.subrange(g + 1, t));
                                let parts = split_code_name(text);
                                seq![
                                    crate::model::CourseView {
                                        id: c.subrange(ds, de),
                                        code: parts.0,
                                        name: parts.1,
                                        category: category,
                                    },
                                ] + block_courses(c, t + 9, category)
                            },
                        },
                    }
                }
            },
        },
    }
}

#[via_fn]
proof fn block_courses_decreases(c: Seq<char>, pos: int, category: Seq<char>) {
    reveal_strlit("<option");
    reveal_strlit("value=\"");
    reveal_strlit("</option>");
    reveal_strlit(">");
    reveal_strlit("<");
    crate::text::lemma_find_from_spec(c, opt_open(), pos);
    match find_from(c, opt_open(), pos) {
        None => {},
        Some(i) => {
            crate::text::lemma_find_from_spec(c, val_attr(), i);
            match find_from(c, val_attr(), i) {
                None => {},
                Some(v) => {
                    crate::codec::lemma_digit_run_facts(c, v + 7);
                    let de = crate::codec::digit_run_end(c, v + 7);
                    if !(de == v + 7 || de >= c.len() || c[de] != '"') {
                        crate::text::lemma_find_from_spec(c, ">"@, de + 1);
                        match find_from(c, ">"@, de + 1) {
                            None => {},
                            Some(g) => {
                                crate::text::lemma_find_from_spec(c, "<"@, g + 1);
                            },
                        }
                    }
                },
            }
        },
    }
}

/// The whole course catalog of an upstream page, scanning from `pos`: one
/// block per category, skipping categories whose label or trimmed block is
/// empty; scanning stops when no further complete block exists.
pub open spec fn catalog_courses(h: Seq<char>, pos: int) -> Seq<crate::model::CourseView>
    decreases h.len() + 1 - pos,
    when 0 <= pos
    via catalog_courses_decreases
{
    match find_from(h, og_open(), pos) {
        None => Seq::<crate::model::CourseView>::empty(),
        Some(i) => {
            let ls = i + 17;
            match find_from(h, "\""@, ls) {
                None => Seq::<crate::model::CourseView>::empty(),
                Some(q) => {
                    let label = h.subrange(ls, q);
                    match find_from(h, ">"@, q + 1) {
                        None => Seq::<crate::model::CourseView>::empty(),
                        Some(g) => match find_from(h, og_close(), g + 1) {
                            None => Seq::<crate::model::CourseView>::empty(),
                            Some(e) => {
                                let content = h.subrange(g + 1, e);
                                let here = if label.len() > 0 && crate::text::trim_spec(
                                    content,
                                ).len() > 0 {
                                    block_courses(content, 0, label)
                                } else {
                                    Seq::<crate::model::CourseView>::empty()
                                };
                                here + catalog_courses(h, e + 11)
                            },
                        },
                    }
                },
            }
        },
    }
}

#[via_fn]
proof fn catalog_courses_decreases(h: Seq<char>, pos: int) {
    reveal_strlit("<optgroup label=\"");
    reveal_strlit("</optgroup>");
    reveal_strlit("\"");
    reveal_strlit(">");
    crate::text::lemma_find_from_spec(h, og_open(), pos);
    match find_from(h, og_open(), pos) {
        None => {},
        Some(i) => {
            crate::text::lemma_find_from_spec(h, "\""@, i + 17);
            match find_from(h, "\""@, i + 17) {
                None => {},
                Some(q) => {
                    crate::text::lemma_find_from_spec(h, ">"@, q + 1);
                    match find_from(h, ">"@, q + 1) {
                        None => {},
                        Some(g) => {
                            crate::text::lemma_find_from_spec(h, og_close(), g + 1);
                        },
                    }
                },
            }
        },
    }
}

/// The courses an upstream catalog page yields.
pub open spec fn courses_of_html(h: Seq<char>) -> Seq<crate::model::CourseView> {
    catalog_courses(h, 0)
}

/// The end of the digit run at `pos`.
fn run_end_exec(c: &Vec<char>, pos: usize) -> (e: usize)
    requires
        pos <= c@.len(),
    ensures
        e == crate::codec::digit_run_end(c@, pos as int),
        pos <= e <= c@.len(),
{
    let n = c.len();
    let mut e: usize = pos;
    while e < n && crate::text::is_dec_digit_exec(c[e])
        invariant
            pos <= e <= n,
            n == c@.len(),
            crate::codec::digit_run_end(c@, pos as int) == crate::codec::digit_run_end(
                c@,
                e as int,
            ),
        decreases n - e,
    {
        proof {
            assert(crate::codec::digit_run_end(c@, e as int) == crate::codec::digit_run_end(
                c@,
                e + 1,
            ));
        }
        e = e + 1;
    }
    proof {
        assert(crate::codec::digit_run_end(c@, e as int) == e as int);
    }
    e
}

/// Splits a trimmed label into code and name.
fn split_code_name_exec(t: &Vec<char>) -> (r: (Vec<char>, Vec<char>))
    ensures
        (r.0@, r.1@) == split_code_name(t@),
{
    let dash = str_to_chars(" - ");
    match crate::text::find_sub(t, &dash, 0) {
        None => {
            let mut code: Vec<char> = Vec::new();
            push_range(&mut code, t, 0, t.len());
            proof {
                assert(code@ =~= t@);
                assert(t@.subrange(0, t@.len() as int) =~= t@);
            }
            (code, Vec::new())
        },
        Some(d) => {
            let tl = t.len();
            proof {
                reveal_strlit(" - ");
                crate::text::lemma_find_from_spec(t@, dash@, 0);
                assert(d + 3 <= tl);
            }
            let rest = d + 3;
            let mut code: Vec<char> = Vec::new();
            push_range(&mut code, t, 0, d);
            let mut name: Vec<char> = Vec::new();
            match crate::text::find_sub(t, &dash, rest) {
                None => {
                    push_range(&mut name, t, rest, tl);
                },
                Some(d2) => {
                    proof {
                        crate::text::lemma_find_from_spec(t@, dash@, rest as int);
                    }
                    push_range(&mut name, t, rest, d2);
                },
            }
            (code, name)
        },
    }
}

/// Extracts the courses of one category block, mirroring `block_courses`.
fn block_courses_exec(c: &Vec<char>, pos: usize, category: &Vec<char>) -> (r: Vec<Course>)
    ensures
        r.deep_view() == block_courses(c@, pos as int, category@),
    decreases c@.len() + 1 - pos,
{
    let oo = str_to_chars("<option");
    let va = str_to_chars("value=\"");
    let oc = str_to_chars("</option>");
    let gt = str_to_chars(">");
    let lt = str_to_chars("<");
    let i = match crate::text::find_sub(c, &oo, pos) {
        None => {
            return Vec::new();
        },
        Some(i) => i,
    };
    let v = match crate::text::find_sub(c, &va, i) {
        None => {
            return Vec::new();
        },
        Some(v) => v,
    };
    let clen = c.len();
    proof {
        reveal_strlit("value=\"");
        crate::text::lemma_find_from_spec(c@, va@, i as int);
        assert(v + 7 <= clen);
    }
    let ds = v + 7;
    let de = run_end_exec(c, ds);
    if de == ds {
        return Vec::new();
    }
    if de >= c.len() {
        return Vec::new();
    }
    if c[de] != '"' {
        return Vec::new();
    }
    let g = match crate::text::find_sub(c, &gt, de + 1) {
        None => {
            return Vec::new();
        },
        Some(g) => g,
    };
    proof {
        reveal_strlit(">");
        crate::text::lemma_find_from_spec(c@, gt@, de + 1);
        assert(g + 1 <= clen);
    }
    let t = match crate::text::find_sub(c, &lt, g + 1) {
        None => {
            return Vec::new();
        },
        Some(t) => t,
    };
    if t == g + 1 {
        return Vec::new();
    }
    proof {
        reveal_strlit("<");
        reveal_strlit("</option>");
        crate::text::lemma_find_from_spec(c@, lt@, g + 1);
        assert(t < clen);
    }
    if oc.len() > c.len() - t {
        proof {
            assert(!crate::text::occurs_at(c@, opt_close(), t as int));
        }
        return Vec::new();
    }
    if !crate::text::match_at(c, &oc, t) {
        return Vec::new();
    }
    let mut idv: Vec<char> = Vec::new();
    push_range(&mut idv, c, ds, de);
    let mut textv: Vec<char> = Vec::new();
    push_range(&mut textv, c, g + 1, t);
    let text = crate::text::trim_chars(&textv);
    let parts = split_code_name_exec(&text);
    let course = Course {
        id: chars_to_string(&idv),
        code: chars_to_string(&parts.0),
        name: chars_to_string(&parts.1),
        category: chars_to_string(category),
    };
    proof {
        crate::text::lemma_find_from_spec(c@, gt@, de + 1);
        assert(t + oc@.len() <= clen);
        assert(oc@.len() == 9);
    }
    let rest = block_courses_exec(c, t + oc.len(), category);
    let mut out: Vec<Course> = Vec::new();
    out.push(course);
    let mut restm = rest;
    out.append(&mut restm);
    proof {
        assert(out.deep_view() =~= block_courses(c@, pos as int, category@));
    }
    out
}

/// Extracts the whole catalog, mirroring `catalog_courses`.
fn catalog_courses_exec(h: &Vec<char>, pos: usize) -> (r: Vec<Course>)
    ensures
        r.deep_view() == catalog_courses(h@, pos as int),
    decreases h@.len() + 1 - pos,
{
    let op = str_to_chars("<optgroup label=\"");
    let cl = str_to_chars("</optgroup>");
    let qt = str_to_chars("\"");
    let gt = str_to_chars(">");
    let i = match crate::text::find_sub(h, &op, pos) {
        None => {
            return Vec::new();
        },
        Some(i) => i,
    };
    let hlen = h.len();
    proof {
        reveal_strlit("<optgroup label=\"");
        crate::text::lemma_find_from_spec(h@, op@, pos as int);
        assert(op@.len() == 17);
        assert(i + 17 <= hlen);
    }
    let ls = i + 17;
    let q = match crate::text::find_sub(h, &qt, ls) {
        None => {
            return Vec::new();
        },
        Some(q) => q,
    };
    proof {
        reveal_strlit("\"");
        crate::text::lemma_find_from_spec(h@, qt@, ls as int);
        assert(q + 1 <= hlen);
    }
    let g = match crate::text::find_sub(h, &gt, q + 1) {
        None => {
            return Vec::new();
        },
        Some(g) => g,
    };
    proof {
        reveal_strlit(">");
        crate::text::lemma_find_from_spec(h@, gt@, q + 1);
        assert(g + 1 <= hlen);
    }
    let e = match crate::text::find_sub(h, &cl, g + 1) {
        None => {
            return Vec::new();
        },
        Some(e) => e,
    };
    proof {
        reveal_strlit("</optgroup>");
        crate::text::lemma_find_from_spec(h@, qt@, ls as int);
        crate::text::lemma_find_from_spec(h@, gt@, q + 1);
        crate::text::lemma_find_from_spec(h@, cl@, g + 1);
        assert(cl@.len() == 11);
        assert(e + 11 <= hlen);
    }
    let mut label: Vec<char> = Vec::new();
    push_range(&mut label, h, ls, q);
    let mut content: Vec<char> = Vec::new();
    push_range(&mut content, h, g + 1, e);
    let trimmed = crate::text::trim_chars(&content);
    let mut out: Vec<Course> = Vec::new();
    if label.len() > 0 && trimmed.len() > 0 {
        out = block_courses_exec(&content, 0, &label);
    }
    let rest = catalog_courses_exec(h, e + 11);
    let mut restm = rest;
    out.append(&mut restm);
    proof {
        assert(out.deep_view() =~= catalog_courses(h@, pos as int));
    }
    out
}

/// Extracts the course catalog from an upstream page.
pub fn parse_courses_html(body: &str) -> (r: Vec<Course>)
    ensures
        r.deep_view() == courses_of_html(body@),
{
    let h = str_to_chars(body);
    catalog_courses_exec(&h, 0)
}

impl UnicamCrawler {
    /// The address of the upstream course catalog page.
    pub fn courses_request_url() -> (r: String)
        ensures
            r@ == "https://orarilezioni.unicam.it/"@,
    {
        String::from_str("https://orarilezioni.unicam.it/")
    }

    /// Classifies and parses the upstream course catalog response: a
    /// transport failure is this system's fault, a non-200 status is the
    /// upstream's fault, and a 200 body yields exactly the catalog the
    /// page encodes.
    pub fn courses_response(outcome: FetchOutcome) -> (r: Result<Vec<Course>, Error>)
        ensures
            match outcome {
                FetchOutcome::Transport { detail } => r matches Err(e) && e@.fault
                    == ErrorFault::Internal && e@.error == "Error while crawling data from unicam"@
                    && e@.http_code is None && e@.message is Some,
                FetchOutcome::Status { code, body } => if code != 200 {
                    r matches Err(e) && e@.fault == ErrorFault::External && e@.error
                        == "Error while crawling courses from unicam"@ && e@.http_code is None
                        && e@.message is Some
                } else {
                    r matches Ok(cs) && cs.deep_view() == courses_of_html(body@)
                },
            },
    {
        match outcome {
            FetchOutcome::Transport { detail } => {
                let mut msg: Vec<char> = Vec::new();
                push_str_chars(&mut msg, "Connection error while attempting to fetch: ");
                push_str_chars(&mut msg, detail.as_str());
                Err(
                    internal_error(
                        "Error while crawling data from unicam",
                        chars_to_string(&msg),
                    ),
                )
            },
            FetchOutcome::Status { code, body } => {
                if code != 200 {
                    let mut msg: Vec<char> = Vec::new();
                    push_str_chars(&mut msg, "The server responded with status code: ");
                    crate::text::push_u64_dec(&mut msg, code as u64);
                    return Err(
                        external_error(
                            "Error while crawling courses from unicam",
                            chars_to_string(&msg),
                        ),
                    );
                }
                Ok(parse_courses_html(body.as_str()))
            },
        }
    }
}

} // verus!
