//! Error taxonomy of the delivery service.
//!
//! The store reports [`DbError`]; every operation of the service maps those
//! onto the stable [`ServiceError`] kinds that callers see: `NotFound`,
//! `InvalidArgument`, `Unavailable`, `Internal`. Each error carries a
//! human-readable detail string beside its kind.

use vstd::prelude::*;

verus! {

/// Errors reported by the entity store.
#[derive(Debug)]
pub enum DbError {
    /// The referenced record does not exist.
    NotFound,
    /// The store could not be reached.
    ConnectionError(String),
    /// A query against the store failed.
    QueryError(String),
    /// A stored value could not be encoded or decoded.
    SerializationError(String),
}

/// Errors returned by the delivery-service operations: a stable kind plus a
/// human-readable detail string.
#[derive(Debug)]
pub enum ServiceError {
    /// A referenced entity is absent.
    NotFound(String),
    /// A malformed identifier, an empty or invalid payload, or a failed
    /// format validation.
    InvalidArgument(String),
    /// The store was unreachable or timed out.
    Unavailable(String),
    /// An unexpected store or serialization failure.
    Internal(String),
}

impl ServiceError {
    /// The detail string carried beside the error kind.
    pub fn detail(&self) -> (r: &String)
        ensures
            (match self {
                ServiceError::NotFound(m) => m,
                ServiceError::InvalidArgument(m) => m,
                ServiceError::Unavailable(m) => m,
                ServiceError::Internal(m) => m,
            }) == r,
    {
        match self {
            ServiceError::NotFound(m) => m,
            ServiceError::InvalidArgument(m) => m,
            ServiceError::Unavailable(m) => m,
            ServiceError::Internal(m) => m,
        }
    }
}

/// Maps a store error onto the service's error taxonomy: absence stays
/// `NotFound`, connectivity failures are `Unavailable` (transient), and
/// query or serialization failures are `Internal`.
pub fn map_db_error(err: DbError) -> (r: ServiceError)
    ensures
        err is NotFound <==> r is NotFound,
        err is ConnectionError <==> r is Unavailable,
        err is QueryError || err is SerializationError <==> r is Internal,
{
    match err {
        DbError::NotFound => ServiceError::NotFound("Resource not found".to_owned()),
        DbError::ConnectionError(msg) => ServiceError::Unavailable(msg),
        DbError::QueryError(msg) => ServiceError::Internal(
            "Database query error: ".to_owned().concat(msg.as_str()),
        ),
        DbError::SerializationError(msg) => ServiceError::Internal(
            "Serialization error: ".to_owned().concat(msg.as_str()),
        ),
    }
}

} // verus!
