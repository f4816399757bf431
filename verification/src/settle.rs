//! The settlement engine: marks individual or bulk-grouped purchases as
//! paid. Settlement only flips the `paid_date` field — it has no payment
//! gateway effect. Paying is owned by the product's seller, happens exactly
//! once per purchase, and bulk settlement is guarded by an expected count:
//! on any mismatch the whole batch is refused and nothing changes.

use vstd::prelude::*;

use crate::errors::AppError;
use crate::store::{audit_view, lemma_product_idx_unique, lemma_purchase_idx_unique, Purchase, Store, StoreModel};

verus! {

impl StoreModel {
    /// Whether the product with this id exists and belongs to the seller.
    pub open spec fn sold_by(self, product_id: u32, seller_id: u32) -> bool {
        self.has_product(product_id) && self.seller_of(product_id) == seller_id
    }

    /// Why a single-purchase settlement is refused, or `None` when it is
    /// granted: the purchase must exist, the requester must be the seller of
    /// its product, and the purchase must not have been paid before.
    pub open spec fn pay_error(self, requesting_user_id: u32, purchase_id: u32) -> Option<
        AppError,
    > {
        if !self.has_purchase(purchase_id) {
            Some(AppError::NoSuchPurchase)
        } else if !self.sold_by(self.purchase_at(purchase_id).product_id, requesting_user_id) {
            Some(AppError::Forbidden)
        } else if self.purchase_at(purchase_id).paid_date is Some {
            Some(AppError::PurchaseAlreadyPaid)
        } else {
            None
        }
    }

    /// The state after a granted settlement: only the purchase's `paid_date`
    /// changes, from `None` to the settlement time.
    pub open spec fn pay_next(self, purchase_id: u32, now: u64) -> StoreModel {
        let i = self.purchase_idx(purchase_id);
        let p = self.purchases[i];
        StoreModel {
            purchases: self.purchases.update(i, Purchase { paid_date: Some(now), ..p }),
            ..self
        }
    }

    /// Whether a purchase row falls under a bulk settlement: bought by the
    /// buyer, not yet paid, and on a product of the seller.
    pub open spec fn bulk_match(self, p: Purchase, seller_id: u32, buyer_id: u32) -> bool {
        p.buyer_id == buyer_id && p.paid_date is None && self.sold_by(p.product_id, seller_id)
    }

    /// How many rows of `s` fall under the bulk settlement.
    pub open spec fn bulk_count(self, s: Seq<Purchase>, seller_id: u32, buyer_id: u32) -> int
        decreases s.len(),
    {
        if s.len() == 0 {
            0int
        } else {
            self.bulk_count(s.drop_last(), seller_id, buyer_id) + if self.bulk_match(
                s.last(),
                seller_id,
                buyer_id,
            ) {
                1int
            } else {
                0int
            }
        }
    }

    /// The state after a granted bulk settlement: every matching row gets
    /// `paid_date` set to the settlement time, every other row is untouched.
    pub open spec fn bulk_next(self, seller_id: u32, buyer_id: u32, now: u64) -> StoreModel {
        StoreModel {
            purchases: self.purchases.map_values(
                |p: Purchase|
                    if self.bulk_match(p, seller_id, buyer_id) {
                        Purchase { paid_date: Some(now), ..p }
                    } else {
                        p
                    },
            ),
            ..self
        }
    }
}

/// Settling purchases changes no id, quantity, price or reference, so
/// well-formedness survives any rewrite of `paid_date` fields alone.
proof fn lemma_paid_rewrite_wf(m: StoreModel, m2: StoreModel)
    requires
        m.wf(),
        m2.users == m.users,
        m2.products == m.products,
        m2.next_user_id == m.next_user_id,
        m2.next_product_id == m.next_product_id,
        m2.next_purchase_id == m.next_purchase_id,
        m2.purchases.len() == m.purchases.len(),
        forall|k: int|
            0 <= k < m.purchases.len() ==> {
                let p = #[trigger] m2.purchases[k];
                let q = m.purchases[k];
                p.id == q.id && p.buyer_id == q.buyer_id && p.product_id == q.product_id
                    && p.quantity == q.quantity && p.unit_price == q.unit_price
            },
    ensures
        m2.wf(),
{
    assert(forall|uid: u32| m.has_user(uid) ==> m2.has_user(uid));
    assert(forall|pid: u32| m.has_product(pid) ==> m2.has_product(pid));
}

impl Store {
    /// Marks one purchase as paid at `now`, on behalf of the requesting
    /// user, who must be the seller of the purchased product. A second
    /// settlement of the same purchase is refused with `PurchaseAlreadyPaid`
    /// and leaves its `paid_date` — and everything else — unchanged.
    pub fn pay(&mut self, requesting_user_id: u32, purchase_id: u32, now: u64) -> (r: Result<
        (),
        AppError,
    >)
        requires
            old(self)@.wf(),
        ensures
            final(self)@.wf(),
            match r {
                Ok(_) => {
                    &&& old(self)@.pay_error(requesting_user_id, purchase_id) is None
                    &&& final(self)@ == old(self)@.pay_next(purchase_id, now)
                },
                Err(e) => {
                    &&& old(self)@.pay_error(requesting_user_id, purchase_id) == Some(e)
                    &&& final(self)@ == old(self)@
                },
            },
    {
        let pi = match self.find_purchase(purchase_id) {
            Some(i) => i,
            None => {
                return Err(AppError::NoSuchPurchase);
            },
        };
        proof {
            lemma_purchase_idx_unique(self@, pi as int);
        }
        let product_id = self.purchases[pi].product_id;
        let pri = match self.find_product(product_id) {
            Some(i) => i,
            None => {
                // Unreachable: a well-formed store resolves every purchase's
                // product.
                proof {
                    assert(false);
                }
                return Err(AppError::Internal);
            },
        };
        proof {
            lemma_product_idx_unique(self@, pri as int);
        }
        if self.products[pri].seller_id != requesting_user_id {
            return Err(AppError::Forbidden);
        }
        if self.purchases[pi].paid_date.is_some() {
            return Err(AppError::PurchaseAlreadyPaid);
        }
        let mut rec = self.purchases.remove(pi);
        rec.paid_date = Some(now);
        self.purchases.insert(pi, rec);
        proof {
            let m = old(self)@;
            assert(final(self)@.purchases =~= m.purchases.update(
                pi as int,
                Purchase { paid_date: Some(now), ..m.purchases[pi as int] },
            ));
            assert(final(self)@ =~= m.pay_next(purchase_id, now));
            lemma_paid_rewrite_wf(m, final(self)@);
        }
        Ok(())
    }

    /// Settles, at `now`, all of one buyer's unpaid purchases on the
    /// seller's products — but only when exactly `expected_count` rows
    /// match, the caller's view of what is outstanding. On any mismatch the
    /// whole batch is refused with `BulkCountMismatch` and zero purchases
    /// end up paid.
    pub fn pay_bulk(&mut self, seller_id: u32, buyer_id: u32, expected_count: u64, now: u64) -> (r:
        Result<(), AppError>)
        requires
            old(self)@.wf(),
        ensures
            final(self)@.wf(),
            match r {
                Ok(_) => {
                    &&& old(self)@.bulk_count(old(self)@.purchases, seller_id, buyer_id)
                        == expected_count
                    &&& final(self)@ == old(self)@.bulk_next(seller_id, buyer_id, now)
                },
                Err(e) => {
                    &&& e == AppError::BulkCountMismatch
                    &&& old(self)@.bulk_count(old(self)@.purchases, seller_id, buyer_id)
                        != expected_count
                    &&& final(self)@ == old(self)@
                },
            },
    {
        let ghost m = self@;
        let n = self.purchases.len();
        let mut count: u64 = 0;
        proof {
            assert(m.purchases.take(0) =~= Seq::empty());
        }
        for i in 0..n
            invariant
                n == self.purchases.len(),
                *self == *old(self),
                m == self@,
                m.wf(),
                count <= i,
                count == m.bulk_count(m.purchases.take(i as int), seller_id, buyer_id),
        {
            proof {
                assert(m.purchases.take(i + 1).drop_last() =~= m.purchases.take(i as int));
                assert(m.purchases.take(i + 1).last() == m.purchases[i as int]);
            }
            if self.matches_bulk(i, seller_id, buyer_id) {
                count = count + 1;
            }
        }
        proof {
            assert(m.purchases.take(n as int) =~= m.purchases);
        }
        if count != expected_count {
            return Err(AppError::BulkCountMismatch);
        }
        for i in 0..n
            invariant
                n == self.purchases.len(),
                n == m.purchases.len(),
                m.wf(),
                self@.wf(),
                self@.users == m.users,
                self@.products == m.products,
                self@.next_user_id == m.next_user_id,
                self@.next_product_id == m.next_product_id,
                self@.next_purchase_id == m.next_purchase_id,
                forall|k: int|
                    0 <= k < i ==> #[trigger] self@.purchases[k] == (if m.bulk_match(
                        m.purchases[k],
                        seller_id,
                        buyer_id,
                    ) {
                        Purchase { paid_date: Some(now), ..m.purchases[k] }
                    } else {
                        m.purchases[k]
                    }),
                forall|k: int| i <= k < n ==> #[trigger] self@.purchases[k] == m.purchases[k],
        {
            if self.matches_bulk(i, seller_id, buyer_id) {
                let mut rec = self.purchases.remove(i);
                rec.paid_date = Some(now);
                self.purchases.insert(i, rec);
            }
            proof {
                lemma_paid_rewrite_wf(m, self@);
            }
        }
        proof {
            assert(final(self)@.purchases =~= m.purchases.map_values(
                |p: Purchase|
                    if m.bulk_match(p, seller_id, buyer_id) {
                        Purchase { paid_date: Some(now), ..p }
                    } else {
                        p
                    },
            ));
            assert(final(self)@ =~= m.bulk_next(seller_id, buyer_id, now));
            lemma_paid_rewrite_wf(m, final(self)@);
        }
        Ok(())
    }

    /// Whether the purchase row at index `i` falls under the bulk
    /// settlement.
    fn matches_bulk(&self, i: usize, seller_id: u32, buyer_id: u32) -> (r: bool)
        requires
            self@.wf(),
            i < self@.purchases.len(),
        ensures
            r == self@.bulk_match(self@.purchases[i as int], seller_id, buyer_id),
    {
        let p = self.purchases[i];
        if p.buyer_id != buyer_id {
            return false;
        }
        if p.paid_date.is_some() {
            return false;
        }
        match self.find_product(p.product_id) {
            Some(pri) => {
                proof {
                    lemma_product_idx_unique(self@, pri as int);
                }
                self.products[pri].seller_id == seller_id
            },
            None => {
                // Unreachable: a well-formed store resolves every
                // purchase's product.
                proof {
                    assert(false);
                }
                false
            },
        }
    }
}

/// Settlement never rewrites history: both single and bulk settlement
/// change `paid_date` fields alone, so the audit view of the purchase table
/// — ids, parties, quantities, the unit prices frozen at purchase time, and
/// dates — is exactly what it was.
pub proof fn lemma_settlement_preserves_audit_view(
    m: StoreModel,
    requesting_user_id: u32,
    purchase_id: u32,
    seller_id: u32,
    buyer_id: u32,
    now: u64,
)
    requires
        m.wf(),
    ensures
        m.pay_error(requesting_user_id, purchase_id) is None ==> audit_view(
            m.pay_next(purchase_id, now).purchases,
        ) =~= audit_view(m.purchases),
        audit_view(m.bulk_next(seller_id, buyer_id, now).purchases) =~= audit_view(m.purchases),
{
}

} // verus!
