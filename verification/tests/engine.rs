//! The purchase and settlement engine, exercised end to end on an in-memory
//! store.

use marketplace::errors::AppError;
use marketplace::store::Store;

/// A store with one seller (id 0) and two buyers (ids 1 and 2); password
/// hashes are irrelevant here.
fn three_users() -> Store {
    let mut st = Store::new();
    let seller = st
        .register_hashed("Seller", "111111111", "hash-a".to_string())
        .unwrap();
    let buyer1 = st
        .register_hashed("Buyer One", "222222222", "hash-b".to_string())
        .unwrap();
    let buyer2 = st
        .register_hashed("Buyer Two", "333333333", "hash-c".to_string())
        .unwrap();
    assert_eq!(seller, 0);
    assert_eq!(buyer1, 1);
    assert_eq!(buyer2, 2);
    st
}

#[test]
fn purchase_decrements_stock_and_freezes_price() {
    let mut st = three_users();
    let pid = st.insert_product(0, "Apples", None, 5, 200).unwrap();
    let purchase_id = st.purchase(1, pid, 3, 1_000).unwrap();
    assert_eq!(st.products[0].stock, 2);
    let rec = st.purchases[0];
    assert_eq!(rec.id, purchase_id);
    assert_eq!(rec.buyer_id, 1);
    assert_eq!(rec.product_id, pid);
    assert_eq!(rec.quantity, 3);
    assert_eq!(rec.unit_price, 200);
    assert_eq!(rec.date, 1_000);
    assert_eq!(rec.paid_date, None);
    // A later price change must not touch the recorded unit price.
    st.products[0].price = 999;
    assert_eq!(st.purchases[0].unit_price, 200);
}

#[test]
fn purchase_of_zero_quantity_fails_without_effect() {
    let mut st = three_users();
    let pid = st.insert_product(0, "Apples", None, 5, 200).unwrap();
    let r = st.purchase(1, pid, 0, 1_000);
    assert!(matches!(r, Err(AppError::BadInput(_))));
    assert_eq!(st.purchases.len(), 0);
    assert_eq!(st.products[0].stock, 5);
}

#[test]
fn purchase_over_stock_fails_without_effect() {
    let mut st = three_users();
    let pid = st.insert_product(0, "Apples", None, 5, 200).unwrap();
    let r = st.purchase(1, pid, 6, 1_000);
    assert!(matches!(r, Err(AppError::NotEnoughStock)));
    assert_eq!(st.purchases.len(), 0);
    assert_eq!(st.products[0].stock, 5);
}

#[test]
fn purchase_of_missing_product_fails() {
    let mut st = three_users();
    let r = st.purchase(1, 77, 1, 1_000);
    assert!(matches!(r, Err(AppError::NoSuchProduct)));
}

#[test]
fn purchase_by_unknown_buyer_fails() {
    let mut st = three_users();
    let pid = st.insert_product(0, "Apples", None, 5, 200).unwrap();
    let r = st.purchase(99, pid, 1, 1_000);
    assert!(matches!(r, Err(AppError::NoSuchUser)));
    assert_eq!(st.products[0].stock, 5);
}

#[test]
fn stock_is_initial_minus_granted_quantities() {
    let mut st = three_users();
    let pid = st.insert_product(0, "Apples", None, 10, 100).unwrap();
    let mut granted: u32 = 0;
    for (buyer, qty) in [(1u32, 4u32), (2, 3), (1, 6), (2, 2), (1, 1)] {
        match st.purchase(buyer, pid, qty, 1_000) {
            Ok(_) => granted += qty,
            Err(e) => assert!(matches!(e, AppError::NotEnoughStock)),
        }
    }
    // 4 and 3 are granted, 6 would overdraw, 2 and 1 are granted again.
    assert_eq!(granted, 10);
    assert_eq!(st.products[0].stock, 10 - granted);
    let total: u32 = st.purchases.iter().map(|p| p.quantity).sum();
    assert_eq!(total, granted);
}

#[test]
fn pay_sets_paid_date_exactly_once() {
    let mut st = three_users();
    let pid = st.insert_product(0, "Apples", None, 5, 200).unwrap();
    let purchase_id = st.purchase(1, pid, 3, 1_000).unwrap();
    st.pay(0, purchase_id, 2_000).unwrap();
    assert_eq!(st.purchases[0].paid_date, Some(2_000));
    let again = st.pay(0, purchase_id, 3_000);
    assert!(matches!(again, Err(AppError::PurchaseAlreadyPaid)));
    assert_eq!(st.purchases[0].paid_date, Some(2_000));
}

#[test]
fn pay_by_non_seller_is_forbidden() {
    let mut st = three_users();
    let pid = st.insert_product(0, "Apples", None, 5, 200).unwrap();
    let purchase_id = st.purchase(1, pid, 3, 1_000).unwrap();
    let r = st.pay(2, purchase_id, 2_000);
    assert!(matches!(r, Err(AppError::Forbidden)));
    assert_eq!(st.purchases[0].paid_date, None);
}

#[test]
fn pay_of_missing_purchase_fails() {
    let mut st = three_users();
    let r = st.pay(0, 42, 2_000);
    assert!(matches!(r, Err(AppError::NoSuchPurchase)));
}

#[test]
fn bulk_settlement_with_mismatched_count_rolls_back() {
    let mut st = three_users();
    let pid = st.insert_product(0, "Apples", None, 10, 200).unwrap();
    st.purchase(1, pid, 2, 1_000).unwrap();
    st.purchase(1, pid, 3, 1_100).unwrap();
    let r = st.pay_bulk(0, 1, 3, 2_000);
    assert!(matches!(r, Err(AppError::BulkCountMismatch)));
    assert!(st.purchases.iter().all(|p| p.paid_date.is_none()));
}

#[test]
fn bulk_settlement_pays_exactly_the_buyers_unpaid_rows() {
    let mut st = three_users();
    let pid = st.insert_product(0, "Apples", None, 10, 200).unwrap();
    let first = st.purchase(1, pid, 2, 1_000).unwrap();
    st.purchase(2, pid, 1, 1_050).unwrap();
    st.purchase(1, pid, 3, 1_100).unwrap();
    st.pay(0, first, 1_500).unwrap();
    // One unpaid row of buyer 1 is left.
    let r = st.pay_bulk(0, 1, 1, 2_000);
    assert!(r.is_ok());
    assert_eq!(st.purchases[0].paid_date, Some(1_500));
    assert_eq!(st.purchases[1].paid_date, None);
    assert_eq!(st.purchases[2].paid_date, Some(2_000));
}

#[test]
fn seller_summary_groups_by_buyer_with_amounts() {
    let mut st = three_users();
    let pid = st.insert_product(0, "Apples", None, 20, 100).unwrap();
    let other = st
        .register_hashed("Other Seller", "444444444", "hash-d".to_string())
        .unwrap();
    let foreign = st.insert_product(other, "Pears", None, 20, 500).unwrap();
    st.purchase(1, pid, 2, 1_000).unwrap(); // 200
    st.purchase(2, pid, 1, 2_000).unwrap(); // 100
    st.purchase(1, pid, 3, 3_000).unwrap(); // 300
    st.purchase(1, foreign, 1, 4_000).unwrap(); // another seller's sale
    let paid = st.purchase(2, pid, 5, 5_000).unwrap();
    st.pay(0, paid, 6_000).unwrap();
    let summary = st.seller_summary(0);
    // Unpaid rows of seller 0, newest first: buyer 1 (3000), buyer 2
    // (2000), buyer 1 (1000). First-seen order of buyers: 1 then 2.
    assert_eq!(summary.len(), 2);
    assert_eq!(summary[0].buyer_id, 1);
    assert_eq!(summary[0].amount_due, 500);
    assert_eq!(summary[0].purchases.len(), 2);
    assert_eq!(summary[0].purchases[0].date, 3_000);
    assert_eq!(summary[0].purchases[1].date, 1_000);
    assert_eq!(summary[1].buyer_id, 2);
    assert_eq!(summary[1].amount_due, 100);
    assert_eq!(summary[1].purchases.len(), 1);
    assert_eq!(summary[1].purchases[0].date, 2_000);
}

#[test]
fn summary_count_drives_bulk_settlement() {
    let mut st = three_users();
    let pid = st.insert_product(0, "Apples", None, 20, 100).unwrap();
    st.purchase(1, pid, 2, 1_000).unwrap();
    st.purchase(1, pid, 3, 2_000).unwrap();
    let summary = st.seller_summary(0);
    let group = &summary[0];
    let r = st.pay_bulk(0, group.buyer_id, group.purchases.len() as u64, 9_000);
    assert!(r.is_ok());
    assert!(st.purchases.iter().all(|p| p.paid_date == Some(9_000)));
}

#[test]
fn purchase_history_is_newest_first() {
    let mut st = three_users();
    let pid = st.insert_product(0, "Apples", None, 20, 100).unwrap();
    st.purchase(1, pid, 1, 3_000).unwrap();
    st.purchase(2, pid, 1, 4_000).unwrap();
    st.purchase(1, pid, 1, 1_000).unwrap();
    st.purchase(1, pid, 1, 5_000).unwrap();
    let history = st.purchase_history(1);
    assert_eq!(history.len(), 3);
    assert_eq!(history[0].date, 5_000);
    assert_eq!(history[1].date, 3_000);
    assert_eq!(history[2].date, 1_000);
}

#[test]
fn full_marketplace_scenario() {
    let mut st = three_users();
    let pid = st.insert_product(0, "Gadget", None, 5, 200).unwrap();
    // Buyer 1 takes three units.
    let purchase_id = st.purchase(1, pid, 3, 1_000).unwrap();
    assert_eq!(st.products[0].stock, 2);
    assert_eq!(st.purchases[0].unit_price, 200);
    // Buyer 2 asks for three more: only two are left.
    let refused = st.purchase(2, pid, 3, 1_500);
    assert!(matches!(refused, Err(AppError::NotEnoughStock)));
    assert_eq!(st.products[0].stock, 2);
    // The seller's summary shows one group for buyer 1, 600 due.
    let summary = st.seller_summary(0);
    assert_eq!(summary.len(), 1);
    assert_eq!(summary[0].buyer_id, 1);
    assert_eq!(summary[0].amount_due, 600);
    // Settling the purchase sets its paid date; settling again is refused.
    st.pay(0, purchase_id, 2_000).unwrap();
    assert_eq!(st.purchases[0].paid_date, Some(2_000));
    let again = st.pay(0, purchase_id, 3_000);
    assert!(matches!(again, Err(AppError::PurchaseAlreadyPaid)));
}
