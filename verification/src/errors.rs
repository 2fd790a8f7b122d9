//! Error taxonomy, and the mapping from raw store failures onto it.

use vstd::prelude::*;
use vstd::string::*;

verus! {

/// Classified failure of the durable store, as the rest of the crate sees
/// it.  The adapter that talks to the real database reduces its error type
/// to one of these three cases before anything here looks at it.
#[derive(Debug, PartialEq)]
pub enum DbError {
    /// A uniqueness constraint was violated by an insert.
    UniqueViolation,
    /// A query that had to return a row found none.
    RowNotFound,
    /// Any other database failure.
    Other,
}

/// Application-level failure, reported to callers with a distinguishing
/// status.
#[derive(Debug, PartialEq)]
pub enum AppError {
    /// The durable store failed; surfaced only as an opaque internal error.
    Db(DbError),
    /// The cache store failed; surfaced only as an opaque internal error.
    Cache,
    /// A credential check failed, with an optional description.
    WrongCredentials(Option<String>),
    /// A uniqueness violation mapped to the entity it concerns.
    AlreadyExists { target_type: String, data: String },
    /// A missing row mapped to the entity it concerns.
    DoesNotExist { target_type: String, data: String },
    /// The caller is not allowed to perform the operation.
    ForbiddenAction,
    /// No credential was presented at all.
    MissingToken,
    /// A malformed, expired or badly signed credential was presented.
    InvalidToken,
    /// An unclassified internal failure.
    Internal,
}

impl AppError {
    /// The HTTP status code under which this failure is reported.
    pub fn status_code(&self) -> (code: u16)
        ensures
            code == self.spec_status_code(),
    {
        match self {
            AppError::WrongCredentials(_) => 401,
            AppError::DoesNotExist { .. } => 404,
            AppError::AlreadyExists { .. } => 409,
            AppError::ForbiddenAction => 403,
            AppError::MissingToken => 401,
            AppError::InvalidToken => 400,
            AppError::Db(_) => 500,
            AppError::Cache => 500,
            AppError::Internal => 500,
        }
    }

    pub open spec fn spec_status_code(self) -> u16 {
        match self {
            AppError::WrongCredentials(_) => 401,
            AppError::DoesNotExist { .. } => 404,
            AppError::AlreadyExists { .. } => 409,
            AppError::ForbiddenAction => 403,
            AppError::MissingToken => 401,
            AppError::InvalidToken => 400,
            AppError::Db(_) => 500,
            AppError::Cache => 500,
            AppError::Internal => 500,
        }
    }

    /// Whether this failure is reported to the caller in full.  Store-layer
    /// and internal failures are not: they are surfaced only as an opaque
    /// internal error.
    pub fn is_opaque(&self) -> (r: bool)
        ensures
            r == self.spec_is_opaque(),
    {
        match self {
            AppError::Db(_) => true,
            AppError::Cache => true,
            AppError::Internal => true,
            _ => false,
        }
    }

    pub open spec fn spec_is_opaque(self) -> bool {
        self is Db || self is Cache || self is Internal
    }
}

/// Maps raw constraint failures of the durable store onto the entity they
/// concern, leaving every other store failure as it is.
pub trait SqlxConstraints<T>: Sized {
    /// Turns a uniqueness violation into `AlreadyExists` for the named
    /// entity.
    fn map_unique_err(self, target_type: &str, data: &str) -> Result<T, AppError>;

    /// Turns a missing row into `DoesNotExist` for the named entity.
    fn map_non_existence_err(self, target_type: &str, data: &str) -> Result<T, AppError>;
}

impl<T> SqlxConstraints<T> for Result<T, DbError> {
    fn map_unique_err(self, target_type: &str, data: &str) -> (r: Result<T, AppError>)
        ensures
            self matches Ok(v) ==> r matches Ok(w) && w == v,
            self == Result::<T, DbError>::Err(DbError::UniqueViolation) ==> (r matches Err(e)
                && e matches AppError::AlreadyExists { target_type: t, data: d }
                && t@ == target_type@ && d@ == data@),
            self matches Err(e) ==> (e is UniqueViolation || r == Result::<T, AppError>::Err(
                AppError::Db(e),
            )),
    {
        match self {
            Ok(v) => Ok(v),
            Err(DbError::UniqueViolation) => Err(
                AppError::AlreadyExists {
                    target_type: String::from_str(target_type),
                    data: String::from_str(data),
                },
            ),
            Err(e) => Err(AppError::Db(e)),
        }
    }

    fn map_non_existence_err(self, target_type: &str, data: &str) -> (r: Result<T, AppError>)
        ensures
            self matches Ok(v) ==> r matches Ok(w) && w == v,
            self == Result::<T, DbError>::Err(DbError::RowNotFound) ==> (r matches Err(e)
                && e matches AppError::DoesNotExist { target_type: t, data: d }
                && t@ == target_type@ && d@ == data@),
            self matches Err(e) ==> (e is RowNotFound || r == Result::<T, AppError>::Err(
                AppError::Db(e),
            )),
    {
        match self {
            Ok(v) => Ok(v),
            Err(DbError::RowNotFound) => Err(
                AppError::DoesNotExist {
                    target_type: String::from_str(target_type),
                    data: String::from_str(data),
                },
            ),
            Err(e) => Err(AppError::Db(e)),
        }
    }
}

} // verus!
