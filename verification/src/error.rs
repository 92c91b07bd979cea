//! The failures an operation of the till can report.

use vstd::prelude::*;

verus! {

/// The kinds of failure, without their texts.
#[derive(Clone, Copy, Debug, PartialEq, Eq, Structural)]
pub enum ErrorKind {
    /// The store refused the change: a key or a reference constraint.
    Database,
    /// A record that the operation names does not exist.
    NotFound,
    /// The request is not allowed on the records as they are.
    Validation,
    /// The destination is already taken.
    Conflict,
}

/// A failure together with its text.
#[derive(Debug)]
pub enum AppError {
    Database(String),
    NotFound(String),
    Validation(String),
    Conflict(String),
}

/// Whether `out` is a failure of `kind` carrying exactly `text`.
pub open spec fn refused<T>(out: Result<T, AppError>, kind: ErrorKind, text: Seq<char>) -> bool {
    out matches Err(e) && e.says(kind, text)
}

impl AppError {
    /// The kind of this failure.
    pub open spec fn kind_of(&self) -> ErrorKind {
        match self {
            AppError::Database(_) => ErrorKind::Database,
            AppError::NotFound(_) => ErrorKind::NotFound,
            AppError::Validation(_) => ErrorKind::Validation,
            AppError::Conflict(_) => ErrorKind::Conflict,
        }
    }

    /// The text carried by this failure.
    pub open spec fn text(&self) -> Seq<char> {
        match self {
            AppError::Database(t) => t@,
            AppError::NotFound(t) => t@,
            AppError::Validation(t) => t@,
            AppError::Conflict(t) => t@,
        }
    }

    /// Whether this failure is of `kind` and carries exactly `text`.
    pub open spec fn says(&self, kind: ErrorKind, text: Seq<char>) -> bool {
        self.kind_of() == kind && self.text() == text
    }

    /// A store failure with the given text.
    pub fn database(text: &str) -> (e: AppError)
        ensures
            e.says(ErrorKind::Database, text@),
    {
        AppError::Database(String::from_str(text))
    }

    /// A missing-record failure with the given text.
    pub fn not_found(text: &str) -> (e: AppError)
        ensures
            e.says(ErrorKind::NotFound, text@),
    {
        AppError::NotFound(String::from_str(text))
    }

    /// A rejected-request failure with the given text.
    pub fn validation(text: &str) -> (e: AppError)
        ensures
            e.says(ErrorKind::Validation, text@),
    {
        AppError::Validation(String::from_str(text))
    }

    /// An occupied-destination failure with the given text.
    pub fn conflict(text: &str) -> (e: AppError)
        ensures
            e.says(ErrorKind::Conflict, text@),
    {
        AppError::Conflict(String::from_str(text))
    }

    /// The kind of this failure.
    pub fn kind(&self) -> (k: ErrorKind)
        ensures
            k == self.kind_of(),
    {
        match self {
            AppError::Database(_) => ErrorKind::Database,
            AppError::NotFound(_) => ErrorKind::NotFound,
            AppError::Validation(_) => ErrorKind::Validation,
            AppError::Conflict(_) => ErrorKind::Conflict,
        }
    }

    /// The text shown to the operator: the carried text, behind a fixed
    /// prefix for store failures.
    pub fn message(&self) -> (shown: String)
        ensures
            shown@ == self.shown_text(),
    {
        match self {
            AppError::Database(t) => String::from_str("Veritabanı hatası: ").concat(t.as_str()),
            AppError::NotFound(t) => t.clone(),
            AppError::Validation(t) => t.clone(),
            AppError::Conflict(t) => t.clone(),
        }
    }

    /// What `message` shows.
    pub open spec fn shown_text(&self) -> Seq<char> {
        match self {
            AppError::Database(t) => "Veritabanı hatası: "@ + t@,
            _ => self.text(),
        }
    }
}

} // verus!
