//! Unified error handling: the application error taxonomy and its mapping to
//! response parts.

use vstd::prelude::*;
use vstd::string::StringExecFns;

verus! {

/// Application error type.
#[derive(Debug)]
pub enum AppError {
    /// Database errors (carrying the driver's message).
    Database(String),
    /// A named resource was not found.
    NotFound { resource: &'static str, id: String },
    /// Validation errors.
    Validation(String),
    /// Authentication errors.
    Auth(String),
    /// Model provider errors.
    Llm(String),
    /// External service errors.
    External(String),
    /// PDF processing errors.
    PdfProcessing(String),
    /// Internal server errors.
    Internal(String),
}

/// Result type alias using AppError.
pub type AppResult<T> = Result<T, AppError>;

/// The human-readable description of each error.
pub open spec fn spec_app_error_message(e: AppError) -> Seq<char> {
    match e {
        AppError::Database(m) => "Database error: "@ + m@,
        AppError::NotFound { resource, id } => resource@ + " not found: "@ + id@,
        AppError::Validation(m) => "Validation error: "@ + m@,
        AppError::Auth(m) => "Authentication error: "@ + m@,
        AppError::Llm(m) => "LLM error: "@ + m@,
        AppError::External(m) => "External service error: "@ + m@,
        AppError::PdfProcessing(m) => "PDF processing error: "@ + m@,
        AppError::Internal(m) => "Internal error: "@ + m@,
    }
}

/// The HTTP status each error maps to.
pub open spec fn spec_app_error_status(e: AppError) -> int {
    match e {
        AppError::Database(m) => 500,
        AppError::NotFound { resource, id } => 404,
        AppError::Validation(m) => 400,
        AppError::Auth(m) => 401,
        AppError::Llm(m) => 503,
        AppError::External(m) => 502,
        AppError::PdfProcessing(m) => 422,
        AppError::Internal(m) => 500,
    }
}

impl AppError {
    /// The error's description.
    pub fn message(&self) -> (r: String)
        ensures
            r@ == spec_app_error_message(*self),
    {
        proof {
            reveal_strlit("Database error: ");
            reveal_strlit(" not found: ");
            reveal_strlit("Validation error: ");
            reveal_strlit("Authentication error: ");
            reveal_strlit("LLM error: ");
            reveal_strlit("External service error: ");
            reveal_strlit("PDF processing error: ");
            reveal_strlit("Internal error: ");
        }
        match self {
            AppError::Database(m) => {
                let mut s: String = "Database error: ".to_owned();
                s.append(m.as_str());
                s
            },
            AppError::NotFound { resource, id } => {
                let mut s: String = (*resource).to_owned();
                s.append(" not found: ");
                s.append(id.as_str());
                s
            },
            AppError::Validation(m) => {
                let mut s: String = "Validation error: ".to_owned();
                s.append(m.as_str());
                s
            },
            AppError::Auth(m) => {
                let mut s: String = "Authentication error: ".to_owned();
                s.append(m.as_str());
                s
            },
            AppError::Llm(m) => {
                let mut s: String = "LLM error: ".to_owned();
                s.append(m.as_str());
                s
            },
            AppError::External(m) => {
                let mut s: String = "External service error: ".to_owned();
                s.append(m.as_str());
                s
            },
            AppError::PdfProcessing(m) => {
                let mut s: String = "PDF processing error: ".to_owned();
                s.append(m.as_str());
                s
            },
            AppError::Internal(m) => {
                let mut s: String = "Internal error: ".to_owned();
                s.append(m.as_str());
                s
            },
        }
    }

    /// The HTTP status code the error maps to.
    pub fn status_code(&self) -> (r: u16)
        ensures
            r == spec_app_error_status(*self),
    {
        match self {
            AppError::Database(_) => 500,
            AppError::NotFound { .. } => 404,
            AppError::Validation(_) => 400,
            AppError::Auth(_) => 401,
            AppError::Llm(_) => 503,
            AppError::External(_) => 502,
            AppError::PdfProcessing(_) => 422,
            AppError::Internal(_) => 500,
        }
    }

    /// The machine-readable error code for client handling.
    pub fn code(&self) -> (r: &'static str)
        ensures
            ({
                match *self {
                    AppError::Database(m) => r@ == "DATABASE_ERROR"@,
                    AppError::NotFound { resource, id } => r@ == "NOT_FOUND"@,
                    AppError::Validation(m) => r@ == "VALIDATION_ERROR"@,
                    AppError::Auth(m) => r@ == "AUTH_ERROR"@,
                    AppError::Llm(m) => r@ == "LLM_ERROR"@,
                    AppError::External(m) => r@ == "EXTERNAL_ERROR"@,
                    AppError::PdfProcessing(m) => r@ == "PDF_ERROR"@,
                    AppError::Internal(m) => r@ == "INTERNAL_ERROR"@,
                }
            }),
    {
        match self {
            AppError::Database(_) => "DATABASE_ERROR",
            AppError::NotFound { .. } => "NOT_FOUND",
            AppError::Validation(_) => "VALIDATION_ERROR",
            AppError::Auth(_) => "AUTH_ERROR",
            AppError::Llm(_) => "LLM_ERROR",
            AppError::External(_) => "EXTERNAL_ERROR",
            AppError::PdfProcessing(_) => "PDF_ERROR",
            AppError::Internal(_) => "INTERNAL_ERROR",
        }
    }

    /// The response body text: internal and database details are not exposed
    /// to clients.
    pub fn response_message(&self) -> (r: String)
        ensures
            ({
                match *self {
                    AppError::Database(m) => r@ == "A database error occurred"@,
                    AppError::Internal(m) => r@ == "An internal error occurred"@,
                    AppError::NotFound { resource, id } => r@ == resource@ + " with id '"@ + id@
                        + "' not found"@,
                    AppError::Validation(m) => r@ == m@,
                    AppError::Auth(m) => r@ == m@,
                    AppError::Llm(m) => r@ == m@,
                    AppError::External(m) => r@ == m@,
                    AppError::PdfProcessing(m) => r@ == m@,
                }
            }),
    {
        proof {
            reveal_strlit("A database error occurred");
            reveal_strlit("An internal error occurred");
            reveal_strlit(" with id '");
            reveal_strlit("' not found");
        }
        match self {
            AppError::Database(_) => "A database error occurred".to_owned(),
            AppError::Internal(_) => "An internal error occurred".to_owned(),
            AppError::NotFound { resource, id } => {
                let mut s: String = (*resource).to_owned();
                s.append(" with id '");
                s.append(id.as_str());
                s.append("' not found");
                s
            },
            AppError::Validation(m) => m.clone(),
            AppError::Auth(m) => m.clone(),
            AppError::Llm(m) => m.clone(),
            AppError::External(m) => m.clone(),
            AppError::PdfProcessing(m) => m.clone(),
        }
    }
}

/// Error response body.
pub struct ErrorResponse {
    /// Error message.
    pub error: String,
    /// Error code for client handling.
    pub code: Option<String>,
    /// Additional details, serialized.
    pub details: Option<String>,
}

/// Helper trait for turning a missing value into a NotFound error.
pub trait OptionExt<T> {
    fn ok_or_not_found(self, resource: &'static str, id: String) -> (r: Result<T, AppError>);
}

impl<T> OptionExt<T> for Option<T> {
    /// Some(v) becomes Ok(v); None becomes the NotFound error naming the
    /// resource and identifier.
    fn ok_or_not_found(self, resource: &'static str, id: String) -> (r: Result<T, AppError>) {
        match self {
            Some(v) => Ok(v),
            None => Err(AppError::NotFound { resource, id }),
        }
    }
}

} // verus!
