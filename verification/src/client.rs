//! What an API client of the marketplace works with: the request payloads it
//! sends, the errors it distinguishes, and how a response status code and
//! body map onto them.

use vstd::prelude::*;
use vstd::string::StringExecFns;

verus! {

/// The payload that creates a product.
#[derive(Clone)]
pub struct ProductPayload {
    pub id: Option<u32>,
    pub name: String,
    pub description: Option<String>,
    pub stock: u32,
    pub price: u32,
}

/// The payload that purchases a quantity of a product.
#[derive(Clone)]
pub struct PurchaseProductPayload {
    pub quantity: u32,
}

/// The payload that logs a user in.
pub struct LoginPayload {
    pub phone: String,
    pub password: String,
}

/// What can go wrong on the client side of an API call: a failed
/// connection, a refused request carrying the server's reason string, or an
/// unreadable response body.
#[derive(Clone, PartialEq, Eq, Debug)]
pub enum ApiError {
    ConnectionError,
    HttpBadRequest(String),
    HttpConflict(String),
    HttpUnauthorized(String),
    HttpForbidden(String),
    HttpNotFound(String),
    GenericError(String),
    JsonError,
}

/// Classifies a refused response by its status code, keeping the reason
/// string the server sent.
pub fn api_error_from_status(status: u16, message: String) -> (r: ApiError)
    ensures
        match r {
            ApiError::HttpBadRequest(m) => status == 400 && m@ == message@,
            ApiError::HttpUnauthorized(m) => status == 401 && m@ == message@,
            ApiError::HttpForbidden(m) => status == 403 && m@ == message@,
            ApiError::HttpNotFound(m) => status == 404 && m@ == message@,
            ApiError::HttpConflict(m) => status == 409 && m@ == message@,
            ApiError::GenericError(m) => m@ == message@ && status != 400 && status != 401 && status
                != 403 && status != 404 && status != 409,
            _ => false,
        },
{
    match status {
        400 => ApiError::HttpBadRequest(message),
        401 => ApiError::HttpUnauthorized(message),
        403 => ApiError::HttpForbidden(message),
        404 => ApiError::HttpNotFound(message),
        409 => ApiError::HttpConflict(message),
        _ => ApiError::GenericError(message),
    }
}

/// The message a client shows for each error.
pub open spec fn spec_description(e: ApiError) -> Seq<char> {
    match e {
        ApiError::ConnectionError => "Failed to connect to server"@,
        ApiError::HttpBadRequest(m) => "Invalid data: "@ + m@,
        ApiError::HttpConflict(m) => "Error: "@ + m@,
        ApiError::HttpUnauthorized(m) => "Unauthorized: "@ + m@,
        ApiError::HttpForbidden(m) => "No permission: "@ + m@,
        ApiError::HttpNotFound(m) => "Not found: "@ + m@,
        ApiError::GenericError(m) => "Error: "@ + m@,
        ApiError::JsonError => "Failed to parse data from server"@,
    }
}

impl ApiError {
    /// The message a client shows for this error.
    pub fn describe(&self) -> (r: String)
        ensures
            r@ == spec_description(*self),
    {
        match self {
            ApiError::ConnectionError => "Failed to connect to server".to_owned(),
            ApiError::HttpBadRequest(m) => {
                let mut s = "Invalid data: ".to_owned();
                s.append(m.as_str());
                s
            },
            ApiError::HttpConflict(m) => {
                let mut s = "Error: ".to_owned();
                s.append(m.as_str());
                s
            },
            ApiError::HttpUnauthorized(m) => {
                let mut s = "Unauthorized: ".to_owned();
                s.append(m.as_str());
                s
            },
            ApiError::HttpForbidden(m) => {
                let mut s = "No permission: ".to_owned();
                s.append(m.as_str());
                s
            },
            ApiError::HttpNotFound(m) => {
                let mut s = "Not found: ".to_owned();
                s.append(m.as_str());
                s
            },
            ApiError::GenericError(m) => {
                let mut s = "Error: ".to_owned();
                s.append(m.as_str());
                s
            },
            ApiError::JsonError => "Failed to parse data from server".to_owned(),
        }
    }
}

} // verus!
