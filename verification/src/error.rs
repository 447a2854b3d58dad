//! The errors of the gateway and the HTTP status each one answers with.

use vstd::prelude::*;

verus! {

/// What went wrong, without the message.
#[derive(Clone, Copy, Debug, PartialEq, Eq, Structural)]
pub enum ErrorKind {
    InvalidRequest,
    BackendNotFound,
    NoHealthyBackends,
    BackendError,
    HttpClient,
    Config,
    Internal,
}

/// An error of the gateway, with its message.
#[derive(Clone, Debug)]
pub enum AppError {
    /// The request cannot be served as it stands, a duplicate backend name included.
    InvalidRequest(String),
    /// No backend of that name is registered.
    BackendNotFound(String),
    /// Selection found no candidate.
    NoHealthyBackends(String),
    /// The upstream answered with an error or with a body that does not parse.
    BackendError(String),
    /// The upstream could not be reached.
    HttpClient(String),
    /// The configuration is not usable.
    Config(String),
    /// An invariant of the gateway did not hold.
    Internal(String),
}

pub type Result<T> = std::result::Result<T, AppError>;

/// The HTTP status that answers an error of this kind.
pub open spec fn status_of(kind: ErrorKind) -> u16 {
    match kind {
        ErrorKind::InvalidRequest => 400,
        ErrorKind::BackendNotFound => 404,
        ErrorKind::NoHealthyBackends => 503,
        ErrorKind::BackendError => 502,
        ErrorKind::HttpClient => 502,
        ErrorKind::Config => 500,
        ErrorKind::Internal => 500,
    }
}

/// The value of `error.type` in the JSON body of an error of this kind.
pub open spec fn type_name_of(kind: ErrorKind) -> Seq<char> {
    match kind {
        ErrorKind::InvalidRequest => "invalid_request"@,
        ErrorKind::BackendNotFound => "backend_not_found"@,
        ErrorKind::NoHealthyBackends => "no_healthy_backends"@,
        ErrorKind::BackendError => "backend_error"@,
        ErrorKind::HttpClient => "http_client_error"@,
        ErrorKind::Config => "config_error"@,
        ErrorKind::Internal => "internal_error"@,
    }
}

impl AppError {
    /// The kind of this error.
    pub open spec fn kind_spec(&self) -> ErrorKind {
        match self {
            AppError::InvalidRequest(_) => ErrorKind::InvalidRequest,
            AppError::BackendNotFound(_) => ErrorKind::BackendNotFound,
            AppError::NoHealthyBackends(_) => ErrorKind::NoHealthyBackends,
            AppError::BackendError(_) => ErrorKind::BackendError,
            AppError::HttpClient(_) => ErrorKind::HttpClient,
            AppError::Config(_) => ErrorKind::Config,
            AppError::Internal(_) => ErrorKind::Internal,
        }
    }

    /// The message this error carries.
    pub open spec fn text(&self) -> Seq<char> {
        match self {
            AppError::InvalidRequest(m) => m@,
            AppError::BackendNotFound(m) => m@,
            AppError::NoHealthyBackends(m) => m@,
            AppError::BackendError(m) => m@,
            AppError::HttpClient(m) => m@,
            AppError::Config(m) => m@,
            AppError::Internal(m) => m@,
        }
    }

    /// This error is of kind `kind` and carries `text`.
    pub open spec fn has(&self, kind: ErrorKind, text: Seq<char>) -> bool {
        self.kind_spec() == kind && self.text() == text
    }

    /// The kind of this error.
    #[verifier::when_used_as_spec(kind_spec)]
    pub fn kind(&self) -> (k: ErrorKind)
        ensures
            k == self.kind_spec(),
    {
        match self {
            AppError::InvalidRequest(_) => ErrorKind::InvalidRequest,
            AppError::BackendNotFound(_) => ErrorKind::BackendNotFound,
            AppError::NoHealthyBackends(_) => ErrorKind::NoHealthyBackends,
            AppError::BackendError(_) => ErrorKind::BackendError,
            AppError::HttpClient(_) => ErrorKind::HttpClient,
            AppError::Config(_) => ErrorKind::Config,
            AppError::Internal(_) => ErrorKind::Internal,
        }
    }

    /// The message this error carries.
    pub fn message(&self) -> (m: String)
        ensures
            m@ == self.text(),
    {
        match self {
            AppError::InvalidRequest(m) => m.clone(),
            AppError::BackendNotFound(m) => m.clone(),
            AppError::NoHealthyBackends(m) => m.clone(),
            AppError::BackendError(m) => m.clone(),
            AppError::HttpClient(m) => m.clone(),
            AppError::Config(m) => m.clone(),
            AppError::Internal(m) => m.clone(),
        }
    }

    /// The HTTP status that answers this error.
    pub fn status_code(&self) -> (code: u16)
        ensures
            code == status_of(self.kind_spec()),
    {
        match self {
            AppError::InvalidRequest(_) => 400,
            AppError::BackendNotFound(_) => 404,
            AppError::NoHealthyBackends(_) => 503,
            AppError::BackendError(_) => 502,
            AppError::HttpClient(_) => 502,
            AppError::Config(_) => 500,
            AppError::Internal(_) => 500,
        }
    }

    /// The value of `error.type` in the JSON body that answers this error.
    pub fn error_type(&self) -> (name: String)
        ensures
            name@ == type_name_of(self.kind_spec()),
    {
        match self {
            AppError::InvalidRequest(_) => "invalid_request".to_string(),
            AppError::BackendNotFound(_) => "backend_not_found".to_string(),
            AppError::NoHealthyBackends(_) => "no_healthy_backends".to_string(),
            AppError::BackendError(_) => "backend_error".to_string(),
            AppError::HttpClient(_) => "http_client_error".to_string(),
            AppError::Config(_) => "config_error".to_string(),
            AppError::Internal(_) => "internal_error".to_string(),
        }
    }
}

} // verus!
