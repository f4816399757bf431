//! The purchase engine: creates purchase records and atomically decrements
//! product stock. A request is either granted in full — one new purchase row
//! with the price frozen at purchase time, and the product's stock lowered
//! by exactly the purchased quantity — or refused with a typed error and no
//! change at all.

use vstd::prelude::*;

use crate::errors::AppError;
use crate::order::{insert_by_date_desc, insert_purchase_sorted, lemma_sort_by_date_desc, sort_by_date_desc, sorted_by_date_desc};
use crate::store::{audit_view, lemma_product_idx_unique, ProductView, Purchase, Store, StoreModel};

verus! {

/// The rows of `s` bought by `buyer_id`, in row order.
pub open spec fn of_buyer(s: Seq<Purchase>, buyer_id: u32) -> Seq<Purchase>
    decreases s.len(),
{
    if s.len() == 0 {
        Seq::empty()
    } else {
        let rest = of_buyer(s.drop_last(), buyer_id);
        if s.last().buyer_id == buyer_id {
            rest.push(s.last())
        } else {
            rest
        }
    }
}

/// The total quantity of `product_id` units taken by the purchase rows of
/// `s`.
pub open spec fn qty_purchased(s: Seq<Purchase>, product_id: u32) -> int
    decreases s.len(),
{
    if s.len() == 0 {
        0int
    } else {
        qty_purchased(s.drop_last(), product_id) + if s.last().product_id == product_id {
            s.last().quantity as int
        } else {
            0int
        }
    }
}

impl StoreModel {
    /// The stock the product with the given id currently has.
    pub open spec fn stock_of(self, product_id: u32) -> int {
        self.product_at(product_id).stock as int
    }

    /// Why a purchase request is refused, or `None` when it is granted: the
    /// buyer and the product must exist, the quantity must be positive and
    /// no larger than the current stock, and a purchase id must be left.
    pub open spec fn purchase_error(self, buyer_id: u32, product_id: u32, quantity: u32) -> Option<
        AppError,
    > {
        if !self.has_user(buyer_id) {
            Some(AppError::NoSuchUser)
        } else if !self.has_product(product_id) {
            Some(AppError::NoSuchProduct)
        } else if quantity == 0 {
            Some(AppError::BadInput("quantity must be greater than 0"))
        } else if quantity > self.product_at(product_id).stock {
            Some(AppError::NotEnoughStock)
        } else if self.next_purchase_id == u32::MAX {
            Some(AppError::Internal)
        } else {
            None
        }
    }

    /// The state after a granted purchase: one new purchase row whose
    /// `unit_price` is the product's price frozen at purchase time, and the
    /// product's stock lowered by the purchased quantity. Nothing else
    /// changes.
    pub open spec fn purchase_next(
        self,
        buyer_id: u32,
        product_id: u32,
        quantity: u32,
        now: u64,
    ) -> StoreModel {
        let i = self.product_idx(product_id);
        let p = self.products[i];
        StoreModel {
            products: self.products.update(i, ProductView { stock: (p.stock - quantity) as u32, ..p }),
            purchases: self.purchases.push(
                Purchase {
                    id: self.next_purchase_id,
                    buyer_id,
                    product_id,
                    quantity,
                    unit_price: p.price,
                    date: now,
                    paid_date: None,
                },
            ),
            next_purchase_id: (self.next_purchase_id + 1) as u32,
            ..self
        }
    }
}

/// A granted purchase preserves well-formedness of the store.
pub proof fn lemma_purchase_next_wf(m: StoreModel, buyer_id: u32, product_id: u32, quantity: u32, now: u64)
    requires
        m.wf(),
        m.purchase_error(buyer_id, product_id, quantity) is None,
    ensures
        m.purchase_next(buyer_id, product_id, quantity, now).wf(),
{
    let m2 = m.purchase_next(buyer_id, product_id, quantity, now);
    let i = m.product_idx(product_id);
    assert(0 <= i < m.products.len() && m.products[i].id == product_id);
    assert(forall|k: int|
        0 <= k < m2.products.len() ==> (#[trigger] m2.products[k]).id == m.products[k].id
            && m2.products[k].price == m.products[k].price && m2.products[k].seller_id
            == m.products[k].seller_id);
    assert(m2.users == m.users);
    assert(forall|uid: u32| m.has_user(uid) ==> m2.has_user(uid));
    assert(forall|pid: u32| #[trigger] m.has_product(pid) ==> m2.has_product(pid)) by {
        assert(forall|pid: u32| #[trigger] m.has_product(pid) ==> {
            let k = m.product_idx(pid);
            0 <= k < m2.products.len() && m2.products[k].id == pid
        });
    }
    assert(m2.purchases_wf()) by {
        let rec = m2.purchases.last();
        assert(rec.id == m.next_purchase_id);
        assert(forall|k: int|
            0 <= k < m.purchases.len() ==> (#[trigger] m2.purchases[k]) == m.purchases[k]);
        assert(m.products_wf());
        assert(m.products[i].price > 0);
        assert(m2.has_product(product_id)) by {
            assert(m2.products[i].id == product_id);
        }
        assert(m2.has_user(buyer_id));
    }
}

impl Store {
    /// Purchases `quantity` units of the product for the buyer: inserts a
    /// new purchase row with the product's price frozen as `unit_price` and
    /// decrements the product's stock, both together or not at all. Returns
    /// the id of the new purchase row.
    pub fn purchase(&mut self, buyer_id: u32, product_id: u32, quantity: u32, now: u64) -> (r:
        Result<u32, AppError>)
        requires
            old(self)@.wf(),
        ensures
            final(self)@.wf(),
            match r {
                Ok(purchase_id) => {
                    &&& old(self)@.purchase_error(buyer_id, product_id, quantity) is None
                    &&& purchase_id == old(self)@.next_purchase_id
                    &&& final(self)@ == old(self)@.purchase_next(
                        buyer_id,
                        product_id,
                        quantity,
                        now,
                    )
                },
                Err(e) => {
                    &&& old(self)@.purchase_error(buyer_id, product_id, quantity) == Some(e)
                    &&& final(self)@ == old(self)@
                },
            },
    {
        if self.find_user(buyer_id).is_none() {
            return Err(AppError::NoSuchUser);
        }
        let pi = match self.find_product(product_id) {
            Some(i) => i,
            None => {
                return Err(AppError::NoSuchProduct);
            },
        };
        proof {
            lemma_product_idx_unique(self@, pi as int);
        }
        if quantity == 0 {
            return Err(AppError::BadInput("quantity must be greater than 0"));
        }
        if quantity > self.products[pi].stock {
            return Err(AppError::NotEnoughStock);
        }
        if self.next_purchase_id == u32::MAX {
            return Err(AppError::Internal);
        }
        let purchase_id = self.next_purchase_id;
        let rec = Purchase {
            id: purchase_id,
            buyer_id,
            product_id,
            quantity,
            unit_price: self.products[pi].price,
            date: now,
            paid_date: None,
        };
        self.purchases.push(rec);
        let mut prod = self.products.remove(pi);
        prod.stock = prod.stock - quantity;
        self.products.insert(pi, prod);
        self.next_purchase_id = self.next_purchase_id + 1;
        proof {
            let m = old(self)@;
            let i = m.product_idx(product_id);
            assert(i == pi as int);
            assert(final(self)@.products =~= m.products.update(
                i,
                ProductView { stock: (m.products[i].stock - quantity) as u32, ..m.products[i] },
            ));
            assert(final(self)@ =~= m.purchase_next(buyer_id, product_id, quantity, now));
            lemma_purchase_next_wf(m, buyer_id, product_id, quantity, now);
        }
        Ok(purchase_id)
    }

    /// The buyer's purchase history, newest first; rows of equal date keep
    /// their insertion order.
    pub fn purchase_history(&self, buyer_id: u32) -> (r: Vec<Purchase>)
        ensures
            r@ == sort_by_date_desc(of_buyer(self@.purchases, buyer_id)),
            sorted_by_date_desc(r@),
    {
        let mut out: Vec<Purchase> = Vec::new();
        let n = self.purchases.len();
        proof {
            assert(self@.purchases.take(0) =~= Seq::empty());
        }
        for i in 0..n
            invariant
                n == self.purchases.len(),
                out@ == sort_by_date_desc(of_buyer(self@.purchases.take(i as int), buyer_id)),
        {
            let p = self.purchases[i];
            proof {
                let pre = self@.purchases.take(i as int);
                let cur = self@.purchases.take(i + 1);
                assert(cur.drop_last() =~= pre);
                assert(cur.last() == p);
                if p.buyer_id == buyer_id {
                    assert(of_buyer(cur, buyer_id) == of_buyer(pre, buyer_id).push(p));
                    assert(of_buyer(pre, buyer_id).push(p).drop_last() =~= of_buyer(pre, buyer_id));
                    assert(sort_by_date_desc(of_buyer(cur, buyer_id)) == insert_by_date_desc(
                        sort_by_date_desc(of_buyer(pre, buyer_id)),
                        p,
                    ));
                } else {
                    assert(of_buyer(cur, buyer_id) == of_buyer(pre, buyer_id));
                }
            }
            if p.buyer_id == buyer_id {
                insert_purchase_sorted(&mut out, p);
            }
        }
        proof {
            assert(self@.purchases.take(n as int) =~= self@.purchases);
            lemma_sort_by_date_desc(of_buyer(self@.purchases, buyer_id));
        }
        out
    }
}

/// One purchase attempt: who buys how many units of which product, and
/// when.
pub struct PurchaseRequest {
    pub buyer_id: u32,
    pub product_id: u32,
    pub quantity: u32,
    pub now: u64,
}

/// The state after a sequence of purchase attempts, each granted exactly
/// when the store of that moment grants it and refused without effect
/// otherwise.
pub open spec fn apply_purchases(m: StoreModel, reqs: Seq<PurchaseRequest>) -> StoreModel
    decreases reqs.len(),
{
    if reqs.len() == 0 {
        m
    } else {
        let m1 = apply_purchases(m, reqs.drop_last());
        let q = reqs.last();
        if m1.purchase_error(q.buyer_id, q.product_id, q.quantity) is None {
            m1.purchase_next(q.buyer_id, q.product_id, q.quantity, q.now)
        } else {
            m1
        }
    }
}

/// A granted purchase moves exactly its quantity from the product's stock
/// into the purchase table; every other product is untouched.
proof fn lemma_purchase_next_accounting(
    m: StoreModel,
    buyer_id: u32,
    product_id: u32,
    quantity: u32,
    now: u64,
    target: u32,
)
    requires
        m.wf(),
        m.purchase_error(buyer_id, product_id, quantity) is None,
        m.has_product(target),
    ensures
        ({
            let m2 = m.purchase_next(buyer_id, product_id, quantity, now);
            &&& m2.has_product(target)
            &&& m2.stock_of(target) == m.stock_of(target) - if target == product_id {
                quantity as int
            } else {
                0int
            }
            &&& qty_purchased(m2.purchases, target) == qty_purchased(m.purchases, target) + if target
                == product_id {
                quantity as int
            } else {
                0int
            }
        }),
{
    let m2 = m.purchase_next(buyer_id, product_id, quantity, now);
    let i = m.product_idx(product_id);
    let t = m.product_idx(target);
    assert(0 <= i < m.products.len() && m.products[i].id == product_id);
    assert(0 <= t < m.products.len() && m.products[t].id == target);
    assert(m2.products[t].id == target);
    assert(m2.has_product(target));
    lemma_purchase_next_wf(m, buyer_id, product_id, quantity, now);
    // The looked-up index is the same before and after, since ids are
    // untouched and unique.
    let t2 = m2.product_idx(target);
    assert(0 <= t2 < m2.products.len() && m2.products[t2].id == target);
    assert(m.products[t2].id == target);
    assert(t2 == t);
    if target == product_id {
        assert(t == i);
    } else {
        assert(t != i);
        assert(m2.products[t] == m.products[t]);
    }
    assert(m2.purchases.drop_last() =~= m.purchases);
    assert(qty_purchased(m2.purchases, target) == qty_purchased(m.purchases, target) + if target
        == product_id {
        quantity as int
    } else {
        0int
    });
}

/// Applying any sequence of purchase attempts keeps the store well formed.
pub proof fn lemma_apply_purchases_wf(m: StoreModel, reqs: Seq<PurchaseRequest>)
    requires
        m.wf(),
    ensures
        apply_purchases(m, reqs).wf(),
    decreases reqs.len(),
{
    if reqs.len() > 0 {
        lemma_apply_purchases_wf(m, reqs.drop_last());
        let m1 = apply_purchases(m, reqs.drop_last());
        let q = reqs.last();
        if m1.purchase_error(q.buyer_id, q.product_id, q.quantity) is None {
            lemma_purchase_next_wf(m1, q.buyer_id, q.product_id, q.quantity, q.now);
        }
    }
}

/// Stock conservation: after any sequence of purchase attempts, a product's
/// stock equals its initial stock minus the total quantity of the granted
/// purchases recorded against it, and never goes below zero — an attempt
/// that would overdraw is refused (`NotEnoughStock`) and changes nothing.
pub proof fn lemma_purchase_stock_conservation(
    m: StoreModel,
    reqs: Seq<PurchaseRequest>,
    product_id: u32,
)
    requires
        m.wf(),
        m.has_product(product_id),
    ensures
        ({
            let m2 = apply_purchases(m, reqs);
            &&& m2.has_product(product_id)
            &&& m2.stock_of(product_id) >= 0
            &&& m2.stock_of(product_id) + qty_purchased(m2.purchases, product_id) == m.stock_of(
                product_id,
            ) + qty_purchased(m.purchases, product_id)
        }),
    decreases reqs.len(),
{
    if reqs.len() > 0 {
        lemma_purchase_stock_conservation(m, reqs.drop_last(), product_id);
        lemma_apply_purchases_wf(m, reqs.drop_last());
        let m1 = apply_purchases(m, reqs.drop_last());
        let q = reqs.last();
        if m1.purchase_error(q.buyer_id, q.product_id, q.quantity) is None {
            lemma_purchase_next_accounting(
                m1,
                q.buyer_id,
                q.product_id,
                q.quantity,
                q.now,
                product_id,
            );
        }
    }
}

/// A granted purchase only appends to the purchase table's audit view —
/// the recorded history of earlier purchases, their quantities and frozen
/// unit prices, never changes.
pub proof fn lemma_purchase_appends_audit_view(
    m: StoreModel,
    buyer_id: u32,
    product_id: u32,
    quantity: u32,
    now: u64,
)
    requires
        m.wf(),
        m.purchase_error(buyer_id, product_id, quantity) is None,
    ensures
        audit_view(m.purchase_next(buyer_id, product_id, quantity, now).purchases) =~= audit_view(
            m.purchases,
        ).push(
            (
                m.next_purchase_id,
                buyer_id,
                product_id,
                quantity,
                m.product_at(product_id).price,
                now,
            ),
        ),
{
}

} // verus!
