//! Error taxonomy for repository operations.
//!
//! Every fallible operation in this crate reports an `AppError`: a kind
//! drawn from a closed set of categories plus a contextual message. A
//! failure of an outside component (the filesystem, the database, a
//! parser) is carried as a lossy string snapshot of its rendered cause,
//! so that error values stay plain and duplicable.
use vstd::prelude::*;

verus! {

/// The result type used by every fallible operation of this crate.
pub type AppResult<T> = Result<T, AppError>;

/// Error kinds specific to repository handling, as opposed to wrapped
/// lower-level failures.
#[derive(Debug, PartialEq, Eq, Structural, Clone, Copy)]
pub enum AppCustomErrorKind {
    RepositoryStructure,
    RepositoryMetadata,
    RepositorySign,
    PhantomCloneError,
}

/// The human-readable rendering of a custom error kind.
pub open spec fn custom_kind_message(kind: AppCustomErrorKind) -> Seq<char> {
    match kind {
        AppCustomErrorKind::RepositoryStructure => "a repository structure operation issue"@,
        AppCustomErrorKind::RepositoryMetadata => "repository metadata operation issue"@,
        AppCustomErrorKind::RepositorySign => "repository sign issue"@,
        AppCustomErrorKind::PhantomCloneError => "no error"@,
    }
}

impl AppCustomErrorKind {
    /// Renders the kind as text.
    pub fn message(&self) -> (r: String)
        ensures
            r@ == custom_kind_message(*self),
    {
        match self {
            AppCustomErrorKind::RepositoryStructure => String::from_str(
                "a repository structure operation issue",
            ),
            AppCustomErrorKind::RepositoryMetadata => String::from_str(
                "repository metadata operation issue",
            ),
            AppCustomErrorKind::RepositorySign => String::from_str("repository sign issue"),
            AppCustomErrorKind::PhantomCloneError => String::from_str("no error"),
        }
    }
}

/// The closed set of failure categories, each non-custom variant holding
/// the rendered message of the underlying cause.
#[derive(Debug)]
pub enum InternalError {
    Io(String),
    Parse(String),
    Json(String),
    SystemTime(String),
    Utf8(String),
    Db(String),
    Custom(AppCustomErrorKind),
}

/// The category label under which an error renders.
pub open spec fn internal_error_category(e: InternalError) -> Seq<char> {
    match e {
        InternalError::Io(_) => "I/O error"@,
        InternalError::Parse(_) => "conversion error"@,
        InternalError::Json(_) => "JSON error"@,
        InternalError::SystemTime(_) => "system time error"@,
        InternalError::Utf8(_) => "Utf8 conversion error"@,
        InternalError::Db(_) => "database error"@,
        InternalError::Custom(_) => "custom error"@,
    }
}

/// The detail text of the underlying cause.
pub open spec fn internal_error_detail(e: InternalError) -> Seq<char> {
    match e {
        InternalError::Io(s) => s@,
        InternalError::Parse(s) => s@,
        InternalError::Json(s) => s@,
        InternalError::SystemTime(s) => s@,
        InternalError::Utf8(s) => s@,
        InternalError::Db(s) => s@,
        InternalError::Custom(k) => custom_kind_message(k),
    }
}

/// The application-wide error: a categorised cause plus a contextual
/// message added at the reporting site.
#[derive(Debug)]
pub struct AppError {
    pub error_kind: InternalError,
    pub msg: String,
}

/// The full rendering of an error: `<category>: <message> (<detail>)`.
pub open spec fn app_error_message(e: AppError) -> Seq<char> {
    internal_error_category(e.error_kind) + ": "@ + e.msg@ + " ("@ + internal_error_detail(
        e.error_kind,
    ) + ")"@
}

impl AppError {
    /// Builds a domain error of the given custom kind.
    pub fn new_custom(kind: AppCustomErrorKind, msg: &str) -> (r: Self)
        ensures
            r.error_kind == InternalError::Custom(kind),
            r.msg@ == msg@,
    {
        AppError { error_kind: InternalError::Custom(kind), msg: String::from_str(msg) }
    }

    /// Wraps a lower-level failure with a contextual message.
    pub fn from_error(err: InternalError, msg: &str) -> (r: Self)
        ensures
            r.error_kind == err,
            r.msg@ == msg@,
    {
        AppError { error_kind: err, msg: String::from_str(msg) }
    }

    /// Renders the error as `<category>: <message> (<detail>)`.
    pub fn message(&self) -> (r: String)
        ensures
            r@ == app_error_message(*self),
    {
        let detail: String = match &self.error_kind {
            InternalError::Io(s) => s.clone(),
            InternalError::Parse(s) => s.clone(),
            InternalError::Json(s) => s.clone(),
            InternalError::SystemTime(s) => s.clone(),
            InternalError::Utf8(s) => s.clone(),
            InternalError::Db(s) => s.clone(),
            InternalError::Custom(k) => k.message(),
        };
        let mut out: String = match &self.error_kind {
            InternalError::Io(_) => String::from_str("I/O error"),
            InternalError::Parse(_) => String::from_str("conversion error"),
            InternalError::Json(_) => String::from_str("JSON error"),
            InternalError::SystemTime(_) => String::from_str("system time error"),
            InternalError::Utf8(_) => String::from_str("Utf8 conversion error"),
            InternalError::Db(_) => String::from_str("database error"),
            InternalError::Custom(_) => String::from_str("custom error"),
        };
        out.append(": ");
        out.append(self.msg.as_str());
        out.append(" (");
        out.append(detail.as_str());
        out.append(")");
        proof {
            assert(out@ =~= app_error_message(*self));
        }
        out
    }
}

impl Clone for AppError {
    /// An `AppError` may hold the snapshot of a cause that cannot itself
    /// be duplicated, so cloning deliberately yields the phantom-clone
    /// sentinel rather than a copy of the original cause.
    fn clone(&self) -> (r: Self)
        ensures
            r.error_kind == InternalError::Custom(AppCustomErrorKind::PhantomCloneError),
            r.msg@ == "fake clone error"@,
    {
        AppError::new_custom(AppCustomErrorKind::PhantomCloneError, "fake clone error")
    }
}

} // verus!
