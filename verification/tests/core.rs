use timetable::cache::{
    courses_cache_key, courses_fetch_resolution, courses_lookup_decision, lessons_cache_key,
    lessons_fetch_resolution, lessons_lookup_decision, CoursesLookupDecision,
    LessonsLookupDecision, StoreLookup, COURSES_TTL_SECONDS, LESSONS_TTL_SECONDS,
};
use timetable::cachekey::{cache_key, CacheNamespace};
use timetable::codec::{decode_courses, decode_lessons, encode_courses, encode_lessons};
use timetable::model::{boundary_status, Course, Error, ErrorFault, Lesson};

fn pair(k: &str, v: &str) -> (String, String) {
    (k.to_string(), v.to_string())
}

fn sample_courses() -> Vec<Course> {
    vec![
        Course {
            id: "12".to_string(),
            code: "ST0001".to_string(),
            name: "Computer Science".to_string(),
            category: "Sciences".to_string(),
        },
        Course {
            id: "7".to_string(),
            code: "".to_string(),
            name: "with:colons and 11:digits".to_string(),
            category: "Humanities".to_string(),
        },
    ]
}

fn sample_lessons() -> Vec<Lesson> {
    vec![
        Lesson {
            starts_at: "1718000000000".to_string(),
            ends_at: "1718007200000".to_string(),
            subject: "Math".to_string(),
            teacher: Some("Rossi".to_string()),
            location: Some("Aula A".to_string()),
            description: None,
        },
        Lesson {
            starts_at: "0".to_string(),
            ends_at: "1".to_string(),
            subject: "".to_string(),
            teacher: None,
            location: None,
            description: Some("free text".to_string()),
        },
    ]
}

#[test]
fn cache_key_ignores_insertion_order() {
    let q1 = vec![pair("course_id", "12"), pair("course_year", "2"), pair("weeks", "4")];
    let q2 = vec![pair("weeks", "4"), pair("course_id", "12"), pair("course_year", "2")];
    let k1 = cache_key(CacheNamespace::Lessons, "unicam", &q1);
    let k2 = cache_key(CacheNamespace::Lessons, "unicam", &q2);
    assert_eq!(k1, k2);
}

#[test]
fn cache_key_handles_repeated_pairs_in_any_order() {
    let q1 = vec![pair("k", "1"), pair("k", "1"), pair("k", "2")];
    let q2 = vec![pair("k", "2"), pair("k", "1"), pair("k", "1")];
    assert_eq!(
        cache_key(CacheNamespace::Courses, "unicam", &q1),
        cache_key(CacheNamespace::Courses, "unicam", &q2)
    );
}

#[test]
fn courses_miss_then_hit_returns_byte_identical_data() {
    let cs = sample_courses();
    let key = courses_cache_key("unicam", &vec![pair("x", "y")]);
    let (result, write) = courses_fetch_resolution(Ok(cs.clone()), true, key.clone());
    assert_eq!(result.unwrap(), cs);
    let w = write.expect("a successful fetch with a connection is written back");
    assert_eq!(w.ttl_seconds, COURSES_TTL_SECONDS);
    match courses_lookup_decision(StoreLookup::Found(w.payload.clone())) {
        CoursesLookupDecision::UseCached(cached) => {
            assert_eq!(cached, cs);
            assert_eq!(encode_courses(&cached), w.payload);
        },
        CoursesLookupDecision::NeedFetch { .. } => panic!("a written entry must hit"),
    }
}

#[test]
fn cache_key_distinguishes_values() {
    let q1 = vec![pair("course_id", "12")];
    let q2 = vec![pair("course_id", "13")];
    let k1 = cache_key(CacheNamespace::Lessons, "unicam", &q1);
    let k2 = cache_key(CacheNamespace::Lessons, "unicam", &q2);
    assert_ne!(k1, k2);
}

#[test]
fn cache_key_of_empty_query_uses_empty_digest() {
    let q: Vec<(String, String)> = Vec::new();
    let k = cache_key(CacheNamespace::Lessons, "unicam", &q);
    assert_eq!(k, "lessons:unicam:d41d8cd98f00b204e9800998ecf8427e");
}

#[test]
fn cache_key_known_digest() {
    let q = vec![pair("course_year", "2"), pair("course_id", "12")];
    let k = cache_key(CacheNamespace::Courses, "unicam", &q);
    assert_eq!(k, "courses:unicam:fb651e40d6c530e82ab6e12167dc4f27");
    let kl = lessons_cache_key("unicam", &q);
    assert_eq!(kl, "lessons:unicam:fb651e40d6c530e82ab6e12167dc4f27");
}

#[test]
fn course_codec_round_trip() {
    let cs = sample_courses();
    let payload = encode_courses(&cs);
    let back = decode_courses(&payload).expect("payload decodes");
    assert_eq!(back, cs);
}

#[test]
fn lesson_codec_round_trip() {
    let ls = sample_lessons();
    let payload = encode_lessons(&ls);
    let back = decode_lessons(&payload).expect("payload decodes");
    assert_eq!(back, ls);
}

#[test]
fn empty_lists_round_trip() {
    let cs: Vec<Course> = Vec::new();
    let ls: Vec<Lesson> = Vec::new();
    assert_eq!(decode_courses(&encode_courses(&cs)).unwrap(), cs);
    assert_eq!(decode_lessons(&encode_lessons(&ls)).unwrap(), ls);
}

#[test]
fn course_payload_format_is_length_prefixed() {
    let cs = vec![Course {
        id: "1".to_string(),
        code: "A".to_string(),
        name: "B".to_string(),
        category: "C".to_string(),
    }];
    assert_eq!(encode_courses(&cs), "C1;1:11:A1:B1:C");
}

#[test]
fn decode_rejects_malformed_payloads() {
    assert!(decode_courses("").is_none());
    assert!(decode_courses("L0;").is_none());
    assert!(decode_courses("C2;1:11:A1:B1:C").is_none());
    assert!(decode_courses("C1;1:11:A1:B1:Cx").is_none());
    assert!(decode_lessons("C0;").is_none());
    assert!(decode_lessons("L01;").is_none());
    assert!(decode_lessons("garbage").is_none());
}

#[test]
fn ttl_policy_is_differentiated() {
    assert_eq!(LESSONS_TTL_SECONDS, 259200);
    assert_eq!(COURSES_TTL_SECONDS, 7776000);
}

#[test]
fn miss_then_hit_returns_byte_identical_data() {
    let ls = sample_lessons();
    let key = lessons_cache_key("unicam", &vec![pair("course_id", "12")]);
    let (result, write) = lessons_fetch_resolution(Ok(ls.clone()), true, key.clone());
    assert_eq!(result.unwrap(), ls);
    let w = write.expect("a successful fetch with a connection is written back");
    assert_eq!(w.key, key);
    assert_eq!(w.ttl_seconds, LESSONS_TTL_SECONDS);
    match lessons_lookup_decision(StoreLookup::Found(w.payload.clone())) {
        LessonsLookupDecision::UseCached(cached) => {
            assert_eq!(cached, ls);
            assert_eq!(encode_lessons(&cached), w.payload);
        },
        LessonsLookupDecision::NeedFetch { .. } => panic!("a written entry must hit"),
    }
}

#[test]
fn fail_open_returns_exactly_the_fetch_result() {
    match lessons_lookup_decision(StoreLookup::Unreachable) {
        LessonsLookupDecision::NeedFetch { write_back, invalidate } => {
            assert!(!write_back);
            assert!(!invalidate);
        },
        LessonsLookupDecision::UseCached(_) => panic!("an unreachable store cannot hit"),
    }
    let ls = sample_lessons();
    let (ok_result, ok_write) =
        lessons_fetch_resolution(Ok(ls.clone()), false, "k".to_string());
    assert_eq!(ok_result.unwrap(), ls);
    assert!(ok_write.is_none());
    let err = Error {
        error: "Bad request".to_string(),
        message: Some("Missing course_id in query parameters".to_string()),
        fault: ErrorFault::User,
        http_code: Some(400),
    };
    let (err_result, err_write) =
        lessons_fetch_resolution(Err(err.clone()), false, "k".to_string());
    assert_eq!(err_result.unwrap_err(), err);
    assert!(err_write.is_none());
}

#[test]
fn fetch_errors_pass_through_even_with_a_connection() {
    let err = Error {
        error: "Error while crawling lessons from unicam".to_string(),
        message: Some("boom".to_string()),
        fault: ErrorFault::External,
        http_code: None,
    };
    let (result, write) = lessons_fetch_resolution(Err(err.clone()), true, "k".to_string());
    assert_eq!(result.unwrap_err(), err);
    assert!(write.is_none());
}

#[test]
fn corrupt_cache_entry_is_treated_as_a_miss_and_invalidated() {
    match lessons_lookup_decision(StoreLookup::Found("not a payload".to_string())) {
        LessonsLookupDecision::NeedFetch { write_back, invalidate } => {
            assert!(write_back);
            assert!(invalidate);
        },
        LessonsLookupDecision::UseCached(_) => panic!("garbage must not hit"),
    }
    match courses_lookup_decision(StoreLookup::Found("C9;".to_string())) {
        CoursesLookupDecision::NeedFetch { write_back, invalidate } => {
            assert!(write_back);
            assert!(invalidate);
        },
        CoursesLookupDecision::UseCached(_) => panic!("garbage must not hit"),
    }
}

#[test]
fn absent_entry_is_a_plain_miss() {
    match courses_lookup_decision(StoreLookup::Absent) {
        CoursesLookupDecision::NeedFetch { write_back, invalidate } => {
            assert!(write_back);
            assert!(!invalidate);
        },
        CoursesLookupDecision::UseCached(_) => panic!("an absent entry cannot hit"),
    }
}

#[test]
fn boundary_status_follows_the_fault() {
    let user = Error {
        error: "Bad request".to_string(),
        message: None,
        fault: ErrorFault::User,
        http_code: Some(404),
    };
    assert_eq!(boundary_status(&user), 404);
    let user_default = Error { http_code: None, ..user.clone() };
    assert_eq!(boundary_status(&user_default), 400);
    let internal = Error { fault: ErrorFault::Internal, ..user.clone() };
    assert_eq!(boundary_status(&internal), 500);
    let external = Error { fault: ErrorFault::External, http_code: None, ..user };
    assert_eq!(boundary_status(&external), 502);
}
