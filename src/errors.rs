//! Error types of the catalog collector and of the query interface.

use vstd::prelude::*;

verus! {

/// A failure while collecting or storing the catalog. Causes that come from
/// outside (file system, network, encoding) carry their message.
#[derive(Clone, Debug)]
pub enum ScraperError {
    GcpAuthError(String),
    GcpRateLimitError(String),
    GcpApiError(String),
    DataValidationError(String),
    FileIoError(String),
    SerializationError(String),
    HttpError(String),
    EnvError(String),
    Unknown(String),
}

/// `prefix` followed by `detail`.
fn joined(prefix: &str, detail: &String) -> (r: String)
    ensures
        r@ == prefix@ + detail@,
{
    let mut r = String::from_str(prefix);
    r.append(detail.as_str());
    r
}

impl ScraperError {
    /// Whether the upstream authority refused the credentials.
    pub fn is_auth_error(&self) -> (r: bool)
        ensures
            r == self is GcpAuthError,
    {
        matches!(self, ScraperError::GcpAuthError(_))
    }

    /// Whether the upstream authority limited the request rate.
    pub fn is_rate_limit_error(&self) -> (r: bool)
        ensures
            r == self is GcpRateLimitError,
    {
        matches!(self, ScraperError::GcpRateLimitError(_))
    }

    /// What an operator can do about the failure, where there is advice.
    pub fn remediation_advice(&self) -> (r: Option<&'static str>)
        ensures
            r is Some <==> (self is GcpAuthError || self is GcpRateLimitError),
            self is GcpAuthError ==> r == Some(
                "Ensure GOOGLE_APPLICATION_CREDENTIALS is set correctly.\nService account needs: roles/iam.roleViewer, roles/iam.securityReviewer",
            ),
            self is GcpRateLimitError ==> r == Some(
                "Rate limit exceeded. The scraper will retry automatically.\nConsider reducing concurrent requests or waiting before retrying.",
            ),
    {
        match self {
            ScraperError::GcpAuthError(_) => Some(
                "Ensure GOOGLE_APPLICATION_CREDENTIALS is set correctly.\nService account needs: roles/iam.roleViewer, roles/iam.securityReviewer",
            ),
            ScraperError::GcpRateLimitError(_) => Some(
                "Rate limit exceeded. The scraper will retry automatically.\nConsider reducing concurrent requests or waiting before retrying.",
            ),
            _ => None,
        }
    }

    /// The message of the failure.
    pub fn message(&self) -> (r: String)
        ensures
            match self {
                ScraperError::GcpAuthError(m) => r@ == "GCP authentication failed: "@ + m@,
                ScraperError::GcpRateLimitError(m) => r@ == "GCP rate limit exceeded: "@ + m@,
                ScraperError::GcpApiError(m) => r@ == "GCP API error: "@ + m@,
                ScraperError::DataValidationError(m) => r@ == "Data validation error: "@ + m@,
                ScraperError::FileIoError(m) => r@ == "File I/O error: "@ + m@,
                ScraperError::SerializationError(m) => r@ == "Serialization error: "@ + m@,
                ScraperError::HttpError(m) => r@ == "HTTP error: "@ + m@,
                ScraperError::EnvError(m) => r@ == "Environment error: "@ + m@,
                ScraperError::Unknown(m) => r@ == "Unknown error: "@ + m@,
            },
    {
        match self {
            ScraperError::GcpAuthError(m) => joined("GCP authentication failed: ", m),
            ScraperError::GcpRateLimitError(m) => joined("GCP rate limit exceeded: ", m),
            ScraperError::GcpApiError(m) => joined("GCP API error: ", m),
            ScraperError::DataValidationError(m) => joined("Data validation error: ", m),
            ScraperError::FileIoError(m) => joined("File I/O error: ", m),
            ScraperError::SerializationError(m) => joined("Serialization error: ", m),
            ScraperError::HttpError(m) => joined("HTTP error: ", m),
            ScraperError::EnvError(m) => joined("Environment error: ", m),
            ScraperError::Unknown(m) => joined("Unknown error: ", m),
        }
    }
}

/// A failure of the query interface.
#[derive(Clone, Debug)]
pub enum ApiError {
    NotFound(String),
    BadRequest(String),
    InternalError(String),
}

impl ApiError {
    /// The message of the failure.
    pub fn message(&self) -> (r: String)
        ensures
            match self {
                ApiError::NotFound(m) => r@ == "Not Found: "@ + m@,
                ApiError::BadRequest(m) => r@ == "Bad Request: "@ + m@,
                ApiError::InternalError(m) => r@ == "Internal Error: "@ + m@,
            },
    {
        match self {
            ApiError::NotFound(m) => joined("Not Found: ", m),
            ApiError::BadRequest(m) => joined("Bad Request: ", m),
            ApiError::InternalError(m) => joined("Internal Error: ", m),
        }
    }

    /// The HTTP status code that reports the failure.
    pub fn status_code(&self) -> (r: u16)
        ensures
            self is NotFound ==> r == 404,
            self is BadRequest ==> r == 400,
            self is InternalError ==> r == 500,
    {
        match self {
            ApiError::NotFound(_) => 404,
            ApiError::BadRequest(_) => 400,
            ApiError::InternalError(_) => 500,
        }
    }
}

} // verus!
