//! The read-through caching wrapper, as pure decision logic. The boundary
//! performs the store I/O (connect, get, set) and the raw fetch; every
//! decision in between — hit or miss, what to return, what to write back
//! and with which time-to-live — is made here and verified.
//!
//! Known tradeoff: no deduplication of concurrent misses is attempted; two
//! concurrent requests for the same key may both fetch and both write (the
//! last write wins), a deliberate thundering-herd risk.

use vstd::prelude::*;

use crate::cachekey::{cache_key, cache_key_of, query_view, CacheNamespace};
use crate::codec::{
    dec_courses, dec_lessons, decode_courses, decode_lessons, enc_courses, enc_lessons,
    encode_courses, encode_lessons, lemma_round_trip_courses, lemma_round_trip_lessons,
};
use crate::model::{Course, CourseView, Error, Lesson, LessonView};

verus! {

/// Lessons change weekly: their entries live three days.
pub const LESSONS_TTL_SECONDS: u64 = 60 * 60 * 24 * 3;

/// Course catalogs change by semester: their entries live ninety days.
pub const COURSES_TTL_SECONDS: u64 = 60 * 60 * 24 * 90;

/// The time-to-live of a namespace's entries.
pub open spec fn namespace_ttl(ns: CacheNamespace) -> u64 {
    match ns {
        CacheNamespace::Lessons => LESSONS_TTL_SECONDS,
        CacheNamespace::Courses => COURSES_TTL_SECONDS,
    }
}

/// The time-to-live of a namespace's entries.
pub fn namespace_ttl_exec(ns: CacheNamespace) -> (r: u64)
    ensures
        r == namespace_ttl(ns),
{
    match ns {
        CacheNamespace::Lessons => LESSONS_TTL_SECONDS,
        CacheNamespace::Courses => COURSES_TTL_SECONDS,
    }
}

/// What consulting the store produced, as handed in by the boundary:
/// no connection at all, no entry under the key, or an entry's payload.
pub enum StoreLookup {
    Unreachable,
    Absent,
    Found(String),
}

/// What to do after the lookup: serve the deserialized cached list, or
/// fall through to the raw fetch. `write_back` is false exactly when no
/// store connection exists; `invalidate` is true exactly when a found
/// entry failed to deserialize and must be dropped.
pub enum LessonsLookupDecision {
    UseCached(Vec<Lesson>),
    NeedFetch { write_back: bool, invalidate: bool },
}

/// What to do after the lookup, for course queries.
pub enum CoursesLookupDecision {
    UseCached(Vec<Course>),
    NeedFetch { write_back: bool, invalidate: bool },
}

/// A best-effort write the boundary should attempt; its failure is logged
/// and ignored, never surfaced.
pub struct CacheWrite {
    pub key: String,
    pub payload: String,
    pub ttl_seconds: u64,
}

/// Decides a lesson request after the store lookup. An unreachable store
/// falls through to the fetch with nothing written back (fail-open); a
/// missing entry falls through and writes back; a found entry is served if
/// it deserializes, and otherwise treated as a miss and invalidated.
pub fn lessons_lookup_decision(lookup: StoreLookup) -> (d: LessonsLookupDecision)
    ensures
        match lookup {
            StoreLookup::Unreachable => d == (LessonsLookupDecision::NeedFetch {
                write_back: false,
                invalidate: false,
            }),
            StoreLookup::Absent => d == (LessonsLookupDecision::NeedFetch {
                write_back: true,
                invalidate: false,
            }),
            StoreLookup::Found(payload) => match dec_lessons(payload@) {
                Some(l) => d matches LessonsLookupDecision::UseCached(v) && v.deep_view() == l,
                None => d == (LessonsLookupDecision::NeedFetch {
                    write_back: true,
                    invalidate: true,
                }),
            },
        },
{
    match lookup {
        StoreLookup::Unreachable => LessonsLookupDecision::NeedFetch {
            write_back: false,
            invalidate: false,
        },
        StoreLookup::Absent => LessonsLookupDecision::NeedFetch {
            write_back: true,
            invalidate: false,
        },
        StoreLookup::Found(payload) => match decode_lessons(payload.as_str()) {
            Some(v) => LessonsLookupDecision::UseCached(v),
            None => LessonsLookupDecision::NeedFetch { write_back: true, invalidate: true },
        },
    }
}

/// Decides a course request after the store lookup; same policy as for
/// lessons.
pub fn courses_lookup_decision(lookup: StoreLookup) -> (d: CoursesLookupDecision)
    ensures
        match lookup {
            StoreLookup::Unreachable => d == (CoursesLookupDecision::NeedFetch {
                write_back: false,
                invalidate: false,
            }),
            StoreLookup::Absent => d == (CoursesLookupDecision::NeedFetch {
                write_back: true,
                invalidate: false,
            }),
            StoreLookup::Found(payload) => match dec_courses(payload@) {
                Some(l) => d matches CoursesLookupDecision::UseCached(v) && v.deep_view() == l,
                None => d == (CoursesLookupDecision::NeedFetch {
                    write_back: true,
                    invalidate: true,
                }),
            },
        },
{
    match lookup {
        StoreLookup::Unreachable => CoursesLookupDecision::NeedFetch {
            write_back: false,
            invalidate: false,
        },
        StoreLookup::Absent => CoursesLookupDecision::NeedFetch {
            write_back: true,
            invalidate: false,
        },
        StoreLookup::Found(payload) => match decode_courses(payload.as_str()) {
            Some(v) => CoursesLookupDecision::UseCached(v),
            None => CoursesLookupDecision::NeedFetch { write_back: true, invalidate: true },
        },
    }
}

/// Resolves a lesson miss: the raw fetch's outcome is returned exactly as
/// it is — errors pass through unchanged, and no cache condition ever
/// rewrites the result (fail-open). A write command is produced if and
/// only if the fetch succeeded and a store connection exists; it carries
/// the serialized list and the lessons time-to-live.
pub fn lessons_fetch_resolution(fetch: Result<Vec<Lesson>, Error>, write_back: bool, key: String)
    -> (r: (Result<Vec<Lesson>, Error>, Option<CacheWrite>))
    ensures
        r.0 == fetch,
        match fetch {
            Ok(l) => if write_back {
                r.1 matches Some(w) && w.key@ == key@ && w.payload@ == enc_lessons(l.deep_view())
                    && w.ttl_seconds == LESSONS_TTL_SECONDS
            } else {
                r.1 is None
            },
            Err(_) => r.1 is None,
        },
{
    let write = if write_back {
        match &fetch {
            Ok(l) => Some(
                CacheWrite {
                    key,
                    payload: encode_lessons(l),
                    ttl_seconds: LESSONS_TTL_SECONDS,
                },
            ),
            Err(_) => None,
        }
    } else {
        None
    };
    (fetch, write)
}

/// Resolves a course miss; same policy as for lessons, with the courses
/// time-to-live.
pub fn courses_fetch_resolution(fetch: Result<Vec<Course>, Error>, write_back: bool, key: String)
    -> (r: (Result<Vec<Course>, Error>, Option<CacheWrite>))
    ensures
        r.0 == fetch,
        match fetch {
            Ok(l) => if write_back {
                r.1 matches Some(w) && w.key@ == key@ && w.payload@ == enc_courses(l.deep_view())
                    && w.ttl_seconds == COURSES_TTL_SECONDS
            } else {
                r.1 is None
            },
            Err(_) => r.1 is None,
        },
{
    let write = if write_back {
        match &fetch {
            Ok(l) => Some(
                CacheWrite {
                    key,
                    payload: encode_courses(l),
                    ttl_seconds: COURSES_TTL_SECONDS,
                },
            ),
            Err(_) => None,
        }
    } else {
        None
    };
    (fetch, write)
}

/// Law: an entry written back for a lesson fetch is served verbatim by the
/// next lookup that finds it — the written payload deserializes to exactly
/// the fetched list.
pub proof fn lemma_written_lessons_entry_hits(l: Seq<LessonView>)
    ensures
        dec_lessons(enc_lessons(l)) == Some(l),
{
    lemma_round_trip_lessons(l);
}

/// Law: an entry written back for a course fetch is served verbatim by the
/// next lookup that finds it.
pub proof fn lemma_written_courses_entry_hits(l: Seq<CourseView>)
    ensures
        dec_courses(enc_courses(l)) == Some(l),
{
    lemma_round_trip_courses(l);
}

/// Derives the store key a lesson query is cached under.
pub fn lessons_cache_key(source: &str, query: &Vec<(String, String)>) -> (r: String)
    ensures
        r@ == cache_key_of(CacheNamespace::Lessons, source@, query_view(query@)),
{
    cache_key(CacheNamespace::Lessons, source, query)
}

/// Derives the store key a course query is cached under.
pub fn courses_cache_key(source: &str, query: &Vec<(String, String)>) -> (r: String)
    ensures
        r@ == cache_key_of(CacheNamespace::Courses, source@, query_view(query@)),
{
    cache_key(CacheNamespace::Courses, source, query)
}

} // verus!
