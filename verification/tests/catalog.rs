//! Product creation validation and the available-products listing.

use marketplace::errors::AppError;
use marketplace::store::Store;

fn one_seller() -> Store {
    let mut st = Store::new();
    st.register_hashed("Seller", "111111111", "hash-a".to_string())
        .unwrap();
    st
}

#[test]
fn insert_product_validates_fields_in_order() {
    let mut st = one_seller();
    let r = st.insert_product(0, "Apples", None, 0, 200);
    assert!(matches!(r, Err(AppError::BadInput("stock must be greater than 0"))));
    let r = st.insert_product(0, "Apples", None, 5, 0);
    assert!(matches!(r, Err(AppError::BadInput("price must be greater than 0"))));
    let r = st.insert_product(0, "   ", None, 5, 200);
    assert!(matches!(r, Err(AppError::BadInput("name can't be empty"))));
    let r = st.insert_product(9, "Apples", None, 5, 200);
    assert!(matches!(r, Err(AppError::NoSuchUser)));
    assert_eq!(st.products.len(), 0);
}

#[test]
fn insert_product_trims_name_and_description() {
    let mut st = one_seller();
    st.insert_product(0, "  Apples  ", Some("  crisp  "), 5, 200)
        .unwrap();
    assert_eq!(st.products[0].name, "Apples");
    assert_eq!(st.products[0].description.as_deref(), Some("crisp"));
}

#[test]
fn blank_description_becomes_absent() {
    let mut st = one_seller();
    st.insert_product(0, "Apples", Some("   "), 5, 200).unwrap();
    assert_eq!(st.products[0].description, None);
    st.insert_product(0, "Pears", None, 5, 200).unwrap();
    assert_eq!(st.products[1].description, None);
}

#[test]
fn listing_filters_and_orders_by_descending_stock() {
    let mut st = one_seller();
    let a = st.insert_product(0, "A", None, 3, 100).unwrap();
    let b = st.insert_product(0, "B", None, 9, 100).unwrap();
    let c = st.insert_product(0, "C", None, 1, 100).unwrap();
    let d = st.insert_product(0, "D", None, 9, 100).unwrap();
    // Sell C out: it must disappear from the listing.
    st.register_hashed("Buyer", "222222222", "hash-b".to_string())
        .unwrap();
    st.purchase(1, c, 1, 1_000).unwrap();
    let listed = st.list_available_products();
    let ids: Vec<u32> = listed.iter().map(|p| p.id).collect();
    // Descending stock; B and D tie at 9 and keep insertion order.
    assert_eq!(ids, vec![b, d, a]);
    assert_eq!(listed[0].stock, 9);
    assert_eq!(listed[2].stock, 3);
}

#[test]
fn listing_of_empty_catalog_is_empty() {
    let st = one_seller();
    assert_eq!(st.list_available_products().len(), 0);
}
