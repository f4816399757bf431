//! Display helpers, error-to-status mapping, and the client-side error
//! classification.

use marketplace::client::{api_error_from_status, ApiError, LoginPayload, ProductPayload, PurchaseProductPayload};
use marketplace::errors::AppError;
use marketplace::utils::{class_if, format_display_price};

#[test]
fn prices_render_as_euros_and_cents() {
    assert_eq!(format_display_price(200), "2.00\u{20ac}");
    assert_eq!(format_display_price(12345), "123.45\u{20ac}");
    assert_eq!(format_display_price(5), "0.05\u{20ac}");
    assert_eq!(format_display_price(0), "0.00\u{20ac}");
    assert_eq!(format_display_price(99), "0.99\u{20ac}");
    assert_eq!(format_display_price(u32::MAX), "42949672.95\u{20ac}");
}

#[test]
fn class_if_switches_a_class() {
    assert_eq!(class_if(true, "active"), Some("active"));
    assert_eq!(class_if(false, "active"), None);
}

#[test]
fn status_codes_classify_refused_responses() {
    let m = || "why".to_string();
    assert_eq!(api_error_from_status(400, m()), ApiError::HttpBadRequest("why".to_string()));
    assert_eq!(api_error_from_status(401, m()), ApiError::HttpUnauthorized("why".to_string()));
    assert_eq!(api_error_from_status(403, m()), ApiError::HttpForbidden("why".to_string()));
    assert_eq!(api_error_from_status(404, m()), ApiError::HttpNotFound("why".to_string()));
    assert_eq!(api_error_from_status(409, m()), ApiError::HttpConflict("why".to_string()));
    assert_eq!(api_error_from_status(500, m()), ApiError::GenericError("why".to_string()));
    assert_eq!(api_error_from_status(200, m()), ApiError::GenericError("why".to_string()));
}

#[test]
fn api_errors_describe_themselves() {
    assert_eq!(ApiError::ConnectionError.describe(), "Failed to connect to server");
    assert_eq!(
        ApiError::HttpBadRequest("bad".to_string()).describe(),
        "Invalid data: bad"
    );
    assert_eq!(ApiError::HttpConflict("c".to_string()).describe(), "Error: c");
    assert_eq!(
        ApiError::HttpUnauthorized("u".to_string()).describe(),
        "Unauthorized: u"
    );
    assert_eq!(
        ApiError::HttpForbidden("f".to_string()).describe(),
        "No permission: f"
    );
    assert_eq!(ApiError::HttpNotFound("n".to_string()).describe(), "Not found: n");
    assert_eq!(ApiError::GenericError("g".to_string()).describe(), "Error: g");
    assert_eq!(ApiError::JsonError.describe(), "Failed to parse data from server");
}

#[test]
fn app_errors_map_to_status_and_reason() {
    assert_eq!(
        AppError::BadInput("stock must be greater than 0").status_and_message(),
        (400, "stock must be greater than 0")
    );
    assert_eq!(AppError::NoSuchUser.status_and_message(), (400, "no such user"));
    assert_eq!(AppError::NoSuchProduct.status_and_message(), (404, "no such product"));
    assert_eq!(AppError::NoSuchPurchase.status_and_message(), (404, "no such purchase"));
    assert_eq!(AppError::NotEnoughStock.status_and_message(), (409, "not enough stock"));
    assert_eq!(
        AppError::PurchaseAlreadyPaid.status_and_message(),
        (409, "purchase has already been paid")
    );
    assert_eq!(
        AppError::BulkCountMismatch.status_and_message(),
        (409, "bulk count mismatch")
    );
    assert_eq!(AppError::DuplicateUser.status_and_message(), (409, "user already exists"));
    assert_eq!(AppError::Unauthorized.status_and_message(), (401, "login required"));
    assert_eq!(
        AppError::Forbidden.status_and_message(),
        (403, "not allowed to access this")
    );
    assert_eq!(AppError::Internal.status_and_message(), (500, "internal server error"));
}

#[test]
fn payloads_carry_their_fields() {
    let p = ProductPayload {
        id: None,
        name: "Apples".to_string(),
        description: Some("crisp".to_string()),
        stock: 5,
        price: 200,
    };
    assert_eq!(p.clone().name, "Apples");
    let q = PurchaseProductPayload { quantity: 3 };
    assert_eq!(q.clone().quantity, 3);
    let l = LoginPayload {
        phone: "123456789".to_string(),
        password: "correct horse".to_string(),
    };
    assert_eq!(l.phone.len(), 9);
    assert_eq!(l.password, "correct horse");
}
