use vstd::prelude::*;

verus! {

/// The kinds of failure that an operation on the catalogue reports.
#[derive(Clone, Debug)]
pub enum ApiError {
    /// The entity that the call is about does not exist.
    NotFound(String),
    /// An entity that the call refers to (an author, a tag) does not exist.
    InvalidArgument(String),
    /// A uniqueness rule or a capacity bound would be broken.
    AlreadyExists(String),
    /// The acting user does not own the entity.
    Forbidden(String),
    /// A refresh-token fingerprint is not recognised.
    Auth(String),
    /// A value does not satisfy the rules of its type.
    Validation(String),
}

pub type ApiResult<T> = Result<T, ApiError>;

impl ApiError {
    /// The human-readable message carried by the error.
    pub fn message(&self) -> (r: String)
        ensures
            r@ == match self {
                ApiError::NotFound(m) => m@,
                ApiError::InvalidArgument(m) => m@,
                ApiError::AlreadyExists(m) => m@,
                ApiError::Forbidden(m) => m@,
                ApiError::Auth(m) => m@,
                ApiError::Validation(m) => m@,
            },
    {
        match self {
            ApiError::NotFound(m) => m.clone(),
            ApiError::InvalidArgument(m) => m.clone(),
            ApiError::AlreadyExists(m) => m.clone(),
            ApiError::Forbidden(m) => m.clone(),
            ApiError::Auth(m) => m.clone(),
            ApiError::Validation(m) => m.clone(),
        }
    }
}

} // verus!
