//! The error taxonomy of the marketplace, and its mapping to HTTP-style
//! status codes and short machine-parseable reason strings.

use vstd::prelude::*;

verus! {

/// Everything that can go wrong inside the engine. Validation and
/// entity-lookup errors are produced at the boundary of the operation that
/// detects them; `Internal` stands for storage or crypto failures whose
/// details are not leaked to the client.
#[derive(Clone, Copy, PartialEq, Eq, Debug)]
pub enum AppError {
    /// A client-supplied field is invalid; carries the reason.
    BadInput(&'static str),
    NoSuchUser,
    NoSuchProduct,
    NoSuchPurchase,
    NotEnoughStock,
    PurchaseAlreadyPaid,
    BulkCountMismatch,
    DuplicateUser,
    Unauthorized,
    Forbidden,
    Internal,
}

/// The status code and reason string a response carries for each error.
pub open spec fn spec_status_and_message(e: AppError) -> (u16, Seq<char>) {
    match e {
        AppError::BadInput(m) => (400, m@),
        AppError::NoSuchUser => (400, "no such user"@),
        AppError::NoSuchProduct => (404, "no such product"@),
        AppError::NoSuchPurchase => (404, "no such purchase"@),
        AppError::NotEnoughStock => (409, "not enough stock"@),
        AppError::PurchaseAlreadyPaid => (409, "purchase has already been paid"@),
        AppError::BulkCountMismatch => (409, "bulk count mismatch"@),
        AppError::DuplicateUser => (409, "user already exists"@),
        AppError::Unauthorized => (401, "login required"@),
        AppError::Forbidden => (403, "not allowed to access this"@),
        AppError::Internal => (500, "internal server error"@),
    }
}

impl AppError {
    /// The HTTP status code and reason string for this error; 4xx responses
    /// carry a short reason, 5xx responses stay generic.
    pub fn status_and_message(&self) -> (r: (u16, &'static str))
        ensures
            r.0 == spec_status_and_message(*self).0,
            r.1@ == spec_status_and_message(*self).1,
    {
        match self {
            AppError::BadInput(m) => (400, *m),
            AppError::NoSuchUser => (400, "no such user"),
            AppError::NoSuchProduct => (404, "no such product"),
            AppError::NoSuchPurchase => (404, "no such purchase"),
            AppError::NotEnoughStock => (409, "not enough stock"),
            AppError::PurchaseAlreadyPaid => (409, "purchase has already been paid"),
            AppError::BulkCountMismatch => (409, "bulk count mismatch"),
            AppError::DuplicateUser => (409, "user already exists"),
            AppError::Unauthorized => (401, "login required"),
            AppError::Forbidden => (403, "not allowed to access this"),
            AppError::Internal => (500, "internal server error"),
        }
    }
}

} // verus!
