//! Canonical domain model: courses, lessons, and the typed error with its
//! fault classification.

use vstd::prelude::*;

verus! {

/// Who is responsible for a failure: the caller sent a bad request (`User`),
/// this system's own logic, connectivity or parsing failed (`Internal`), or
/// the upstream source misbehaved (`External`).
#[derive(Debug, Clone, Copy, PartialEq, Eq, Structural)]
pub enum ErrorFault {
    User,
    Internal,
    External,
}

/// A course as exposed by an upstream source. `id` is the source's own
/// identifier and is not guaranteed globally unique across sources.
#[derive(Debug, Clone, PartialEq, Eq)]
pub struct Course {
    pub id: String,
    pub code: String,
    pub name: String,
    pub category: String,
}

/// A single lesson. `starts_at` / `ends_at` are opaque string-encoded
/// timestamps (millisecond epoch as decimal text); no timezone normalization
/// is performed by this layer.
#[derive(Debug, Clone, PartialEq, Eq)]
pub struct Lesson {
    pub starts_at: String,
    pub ends_at: String,
    pub subject: String,
    pub teacher: Option<String>,
    pub location: Option<String>,
    pub description: Option<String>,
}

/// The typed error every fetch operation can return.
#[derive(Debug, Clone, PartialEq, Eq)]
pub struct Error {
    pub error: String,
    pub message: Option<String>,
    pub fault: ErrorFault,
    pub http_code: Option<u16>,
}

/// Mathematical image of a `Course`: the four fields as character sequences.
pub struct CourseView {
    pub id: Seq<char>,
    pub code: Seq<char>,
    pub name: Seq<char>,
    pub category: Seq<char>,
}

/// Mathematical image of a `Lesson`.
pub struct LessonView {
    pub starts_at: Seq<char>,
    pub ends_at: Seq<char>,
    pub subject: Seq<char>,
    pub teacher: Option<Seq<char>>,
    pub location: Option<Seq<char>>,
    pub description: Option<Seq<char>>,
}

/// Mathematical image of an `Error`.
pub struct ErrorView {
    pub error: Seq<char>,
    pub message: Option<Seq<char>>,
    pub fault: ErrorFault,
    pub http_code: Option<u16>,
}

impl View for Course {
    type V = CourseView;

    open spec fn view(&self) -> CourseView {
        CourseView {
            id: self.id@,
            code: self.code@,
            name: self.name@,
            category: self.category@,
        }
    }
}

impl DeepView for Course {
    type V = CourseView;

    open spec fn deep_view(&self) -> CourseView {
        self.view()
    }
}

impl View for Lesson {
    type V = LessonView;

    open spec fn view(&self) -> LessonView {
        LessonView {
            starts_at: self.starts_at@,
            ends_at: self.ends_at@,
            subject: self.subject@,
            teacher: match self.teacher {
                Some(ref t) => Some(t@),
                None => None,
            },
            location: match self.location {
                Some(ref l) => Some(l@),
                None => None,
            },
            description: match self.description {
                Some(ref d) => Some(d@),
                None => None,
            },
        }
    }
}

impl DeepView for Lesson {
    type V = LessonView;

    open spec fn deep_view(&self) -> LessonView {
        self.view()
    }
}

impl View for Error {
    type V = ErrorView;

    open spec fn view(&self) -> ErrorView {
        ErrorView {
            error: self.error@,
            message: match self.message {
                Some(ref m) => Some(m@),
                None => None,
            },
            fault: self.fault,
            http_code: self.http_code,
        }
    }
}

impl DeepView for Error {
    type V = ErrorView;

    open spec fn deep_view(&self) -> ErrorView {
        self.view()
    }
}

/// The HTTP status the boundary layer must render for a fault: a `User`
/// fault carries its own status (or 400), `Internal` maps to 500 and
/// `External` to 502.
pub open spec fn boundary_status_of(e: ErrorView) -> u16 {
    match e.fault {
        ErrorFault::User => match e.http_code {
            Some(c) => c,
            None => 400,
        },
        ErrorFault::Internal => 500,
        ErrorFault::External => 502,
    }
}

/// Derives the user-facing HTTP status from an error's fault classification.
pub fn boundary_status(e: &Error) -> (status: u16)
    ensures
        status == boundary_status_of(e@),
{
    match e.fault {
        ErrorFault::User => match e.http_code {
            Some(c) => c,
            None => 400,
        },
        ErrorFault::Internal => 500,
        ErrorFault::External => 502,
    }
}

} // verus!
