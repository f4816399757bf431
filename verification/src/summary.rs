//! The summary aggregator: groups a seller's unpaid purchases by buyer and
//! computes the amount each buyer still owes. The fetched rows are ordered
//! newest first; buyers appear in first-seen order of that sequence, each
//! group keeps the fetch order of its rows, and a group's amount due is the
//! sum of quantity times frozen unit price over its rows. The group sizes
//! are what drives bulk settlement's expected count.

use vstd::multiset::Multiset;
use vstd::prelude::*;

use crate::order::{insert_purchase_sorted, lemma_sort_by_date_desc, sort_by_date_desc, sorted_by_date_desc};
use crate::purchase::of_buyer;
use crate::store::{lemma_product_idx_unique, Purchase, Store, StoreModel};

verus! {

/// The rows of `s` that are unpaid sales of the seller, in row order.
pub open spec fn unpaid_of_seller(m: StoreModel, s: Seq<Purchase>, seller_id: u32) -> Seq<
    Purchase,
>
    decreases s.len(),
{
    if s.len() == 0 {
        Seq::empty()
    } else {
        let rest = unpaid_of_seller(m, s.drop_last(), seller_id);
        if s.last().paid_date is None && m.sold_by(s.last().product_id, seller_id) {
            rest.push(s.last())
        } else {
            rest
        }
    }
}

/// The buyers of `s` in first-seen order, each exactly once.
pub open spec fn buyers_in_order(s: Seq<Purchase>) -> Seq<u32>
    decreases s.len(),
{
    if s.len() == 0 {
        Seq::empty()
    } else {
        let rest = buyers_in_order(s.drop_last());
        if rest.contains(s.last().buyer_id) {
            rest
        } else {
            rest.push(s.last().buyer_id)
        }
    }
}

/// The amount the rows of `s` are worth: the sum of quantity times the unit
/// price frozen at purchase time.
pub open spec fn amount_due(s: Seq<Purchase>) -> int
    decreases s.len(),
{
    if s.len() == 0 {
        0int
    } else {
        amount_due(s.drop_last()) + s.last().quantity * s.last().unit_price
    }
}

/// Each buyer appears in `buyers_in_order` at most once.
pub proof fn lemma_buyers_in_order_distinct(s: Seq<Purchase>)
    ensures
        forall|i: int, j: int|
            0 <= i < j < buyers_in_order(s).len() ==> buyers_in_order(s)[i] != buyers_in_order(
                s,
            )[j],
    decreases s.len(),
{
    if s.len() > 0 {
        lemma_buyers_in_order_distinct(s.drop_last());
        let rest = buyers_in_order(s.drop_last());
        let b = s.last().buyer_id;
        if !rest.contains(b) {
            assert forall|i: int| 0 <= i < rest.len() implies rest[i] != b by {
                if rest[i] == b {
                    assert(rest.contains(b));
                }
            }
        }
    }
}

/// A buyer that never appears in `buyers_in_order(s)` has no rows in `s`.
pub proof fn lemma_of_buyer_absent(s: Seq<Purchase>, b: u32)
    requires
        !buyers_in_order(s).contains(b),
    ensures
        of_buyer(s, b) =~= Seq::<Purchase>::empty(),
    decreases s.len(),
{
    if s.len() > 0 {
        let rest = buyers_in_order(s.drop_last());
        assert(buyers_in_order(s).contains(s.last().buyer_id)) by {
            if rest.contains(s.last().buyer_id) {
            } else {
                assert(buyers_in_order(s).last() == s.last().buyer_id);
            }
        }
        assert(!rest.contains(b)) by {
            if rest.contains(b) {
                let k = choose|k: int| 0 <= k < rest.len() && rest[k] == b;
                assert(buyers_in_order(s)[k] == b);
            }
        }
        lemma_of_buyer_absent(s.drop_last(), b);
    }
}

/// The amount of any row sequence is non-negative and at most the row count
/// times the largest possible single-row amount.
pub proof fn lemma_amount_due_bounds(s: Seq<Purchase>)
    ensures
        0 <= amount_due(s) <= s.len() * 0xffff_fffe_0000_0001,
    decreases s.len(),
{
    if s.len() > 0 {
        lemma_amount_due_bounds(s.drop_last());
        let q = s.last().quantity as int;
        let u = s.last().unit_price as int;
        assert(0 <= q * u <= 0xffff_fffe_0000_0001) by (nonlinear_arith)
            requires
                0 <= q < 0x1_0000_0000,
                0 <= u < 0x1_0000_0000,
        ;
        assert(s.len() * 0xffff_fffe_0000_0001 == (s.len() - 1) * 0xffff_fffe_0000_0001
            + 0xffff_fffe_0000_0001) by (nonlinear_arith);
    }
}

/// A buyer's rows are no more numerous than all rows.
pub proof fn lemma_of_buyer_len(s: Seq<Purchase>, b: u32)
    ensures
        of_buyer(s, b).len() <= s.len(),
    decreases s.len(),
{
    if s.len() > 0 {
        lemma_of_buyer_len(s.drop_last(), b);
    }
}

/// Extending a partial amount by one row keeps it within the range that a
/// 128-bit total can hold.
proof fn lemma_amount_step(cur: int, cnt: int, n: int, q: int, u: int)
    requires
        0 <= q < 0x1_0000_0000,
        0 <= u < 0x1_0000_0000,
        0 <= cnt < n,
        n <= 0x1_0000_0000_0000_0000,
        0 <= cur <= cnt * 0xffff_fffe_0000_0001,
    ensures
        0 <= q * u <= 0xffff_fffe_0000_0001,
        cur + q * u <= (cnt + 1) * 0xffff_fffe_0000_0001,
        cur + q * u <= u128::MAX,
{
    assert(0 <= q * u <= 0xffff_fffe_0000_0001) by (nonlinear_arith)
        requires
            0 <= q < 0x1_0000_0000,
            0 <= u < 0x1_0000_0000,
    ;
    assert((cnt + 1) * 0xffff_fffe_0000_0001 == cnt * 0xffff_fffe_0000_0001
        + 0xffff_fffe_0000_0001) by (nonlinear_arith);
    assert((cnt + 1) * 0xffff_fffe_0000_0001 <= n * 0xffff_fffe_0000_0001) by (nonlinear_arith)
        requires
            cnt + 1 <= n,
    ;
    assert(n * 0xffff_fffe_0000_0001 <= 0x1_0000_0000_0000_0000 * 0xffff_fffe_0000_0001)
        by (nonlinear_arith)
        requires
            0 <= n <= 0x1_0000_0000_0000_0000,
    ;
}

/// One buyer's group in a seller's summary: the buyer, the rows still owed
/// for, newest first, and the amount they add up to.
pub struct BuyerGroup {
    pub buyer_id: u32,
    pub amount_due: u128,
    pub purchases: Vec<Purchase>,
}

impl Store {
    /// Whether the purchase row at index `i` is an unpaid sale of the
    /// seller.
    fn is_unpaid_sale(&self, i: usize, seller_id: u32) -> (r: bool)
        requires
            self@.wf(),
            i < self@.purchases.len(),
        ensures
            r == (self@.purchases[i as int].paid_date is None && self@.sold_by(
                self@.purchases[i as int].product_id,
                seller_id,
            )),
    {
        let p = self.purchases[i];
        if p.paid_date.is_some() {
            return false;
        }
        match self.find_product(p.product_id) {
            Some(pri) => {
                proof {
                    lemma_product_idx_unique(self@, pri as int);
                }
                self.products[pri].seller_id == seller_id
            },
            None => {
                // Unreachable: a well-formed store resolves every
                // purchase's product.
                proof {
                    assert(false);
                }
                false
            },
        }
    }

    /// The seller's unpaid sales, newest first.
    fn unpaid_sorted(&self, seller_id: u32) -> (r: Vec<Purchase>)
        requires
            self@.wf(),
        ensures
            r@ == sort_by_date_desc(unpaid_of_seller(self@, self@.purchases, seller_id)),
            sorted_by_date_desc(r@),
    {
        let mut out: Vec<Purchase> = Vec::new();
        let n = self.purchases.len();
        proof {
            assert(self@.purchases.take(0) =~= Seq::empty());
        }
        for i in 0..n
            invariant
                self@.wf(),
                n == self.purchases.len(),
                out@ == sort_by_date_desc(
                    unpaid_of_seller(self@, self@.purchases.take(i as int), seller_id),
                ),
        {
            proof {
                let pre = self@.purchases.take(i as int);
                let cur = self@.purchases.take(i + 1);
                assert(cur.drop_last() =~= pre);
                assert(cur.last() == self@.purchases[i as int]);
                if self@.purchases[i as int].paid_date is None && self@.sold_by(
                    self@.purchases[i as int].product_id,
                    seller_id,
                ) {
                    assert(unpaid_of_seller(self@, cur, seller_id) == unpaid_of_seller(
                        self@,
                        pre,
                        seller_id,
                    ).push(self@.purchases[i as int]));
                    assert(unpaid_of_seller(self@, pre, seller_id).push(
                        self@.purchases[i as int],
                    ).drop_last() =~= unpaid_of_seller(self@, pre, seller_id));
                } else {
                    assert(unpaid_of_seller(self@, cur, seller_id) == unpaid_of_seller(
                        self@,
                        pre,
                        seller_id,
                    ));
                }
            }
            if self.is_unpaid_sale(i, seller_id) {
                let p = self.purchases[i];
                insert_purchase_sorted(&mut out, p);
            }
        }
        proof {
            assert(self@.purchases.take(n as int) =~= self@.purchases);
            lemma_sort_by_date_desc(unpaid_of_seller(self@, self@.purchases, seller_id));
        }
        out
    }

    /// The seller's summary: their unpaid sales fetched newest first, then
    /// grouped by buyer in first-seen order — each group keeping the fetch
    /// order of its rows — with the amount due per group. A group's row
    /// count is the `expected_count` a bulk settlement of that buyer should
    /// pass.
    pub fn seller_summary(&self, seller_id: u32) -> (r: Vec<BuyerGroup>)
        requires
            self@.wf(),
        ensures
            ({
                let sorted = sort_by_date_desc(
                    unpaid_of_seller(self@, self@.purchases, seller_id),
                );
                let buyers = buyers_in_order(sorted);
                &&& r@.len() == buyers.len()
                &&& forall|k: int|
                    0 <= k < r@.len() ==> (#[trigger] r@[k]).buyer_id == buyers[k]
                &&& forall|k: int|
                    0 <= k < r@.len() ==> (#[trigger] r@[k]).purchases@ == of_buyer(
                        sorted,
                        buyers[k],
                    )
                &&& forall|k: int|
                    0 <= k < r@.len() ==> (#[trigger] r@[k]).amount_due as int == amount_due(
                        of_buyer(sorted, buyers[k]),
                    )
            }),
    {
        let rows = self.unpaid_sorted(seller_id);
        let mut groups: Vec<BuyerGroup> = Vec::new();
        let n = rows.len();
        proof {
            assert(rows@.take(0) =~= Seq::empty());
        }
        for i in 0..n
            invariant
                n == rows.len(),
                groups@.len() == buyers_in_order(rows@.take(i as int)).len(),
                forall|k: int|
                    0 <= k < groups@.len() ==> (#[trigger] groups@[k]).buyer_id == buyers_in_order(
                        rows@.take(i as int),
                    )[k],
                forall|k: int|
                    0 <= k < groups@.len() ==> (#[trigger] groups@[k]).purchases@ == of_buyer(
                        rows@.take(i as int),
                        groups@[k].buyer_id,
                    ),
                forall|k: int|
                    0 <= k < groups@.len() ==> (#[trigger] groups@[k]).amount_due as int
                        == amount_due(of_buyer(rows@.take(i as int), groups@[k].buyer_id)),
        {
            let p = rows[i];
            let ghost pre = rows@.take(i as int);
            let ghost cur = rows@.take(i + 1);
            let ghost bs = buyers_in_order(pre);
            proof {
                assert(cur.drop_last() =~= pre);
                assert(cur.last() == p);
                lemma_buyers_in_order_distinct(pre);
            }
            let mut j: usize = 0;
            while j < groups.len() && groups[j].buyer_id != p.buyer_id
                invariant
                    j <= groups.len(),
                    forall|k: int| 0 <= k < j ==> (#[trigger] groups@[k]).buyer_id != p.buyer_id,
                decreases groups.len() - j,
            {
                j = j + 1;
            }
            if j < groups.len() {
                proof {
                    assert(bs[j as int] == p.buyer_id);
                    assert(bs.contains(p.buyer_id));
                    assert(buyers_in_order(cur) == bs);
                    // Only the group at `j` gains the row: all other
                    // buyers are distinct from this row's buyer.
                    assert forall|k: int|
                        0 <= k < groups@.len() && k != j implies (#[trigger] groups@[k]).buyer_id
                        != p.buyer_id by {
                        if k < j {
                            assert(bs[k] != bs[j as int]);
                        } else {
                            assert(bs[j as int] != bs[k]);
                        }
                    }
                    let pb = of_buyer(pre, p.buyer_id);
                    lemma_amount_due_bounds(pb);
                    lemma_of_buyer_len(pre, p.buyer_id);
                    lemma_amount_step(
                        amount_due(pb),
                        pb.len() as int,
                        n as int,
                        p.quantity as int,
                        p.unit_price as int,
                    );
                }
                let ghost gpre = groups@;
                let mut g = groups.remove(j);
                g.amount_due = g.amount_due + (p.quantity as u128) * (p.unit_price as u128);
                g.purchases.push(p);
                groups.insert(j, g);
                proof {
                    let b = p.buyer_id;
                    let pb = of_buyer(pre, b);
                    assert(of_buyer(cur, b) == pb.push(p));
                    assert(pb.push(p).drop_last() =~= pb);
                    assert(groups@.len() == gpre.len());
                    assert(forall|k: int|
                        0 <= k < groups@.len() && k != j ==> #[trigger] groups@[k] == gpre[k]);
                    assert(groups@[j as int].buyer_id == b);
                    assert(groups@[j as int].purchases@ == gpre[j as int].purchases@.push(p));
                    assert(groups@[j as int].amount_due as int == gpre[j as int].amount_due as int
                        + p.quantity as int * p.unit_price as int);
                    assert forall|k: int|
                        0 <= k < groups@.len() && k != j implies #[trigger] of_buyer(
                        cur,
                        groups@[k].buyer_id,
                    ) == of_buyer(pre, groups@[k].buyer_id) by {
                        assert(groups@[k].buyer_id != b);
                    }
                }
            } else {
                proof {
                    assert(!bs.contains(p.buyer_id)) by {
                        if bs.contains(p.buyer_id) {
                            let k = choose|k: int| 0 <= k < bs.len() && bs[k] == p.buyer_id;
                            assert(groups@[k].buyer_id == p.buyer_id);
                        }
                    }
                    assert(buyers_in_order(cur) == bs.push(p.buyer_id));
                    assert forall|k: int| 0 <= k < bs.len() implies bs[k] != p.buyer_id by {
                        if bs[k] == p.buyer_id {
                            assert(bs.contains(p.buyer_id));
                        }
                    }
                    lemma_of_buyer_absent(pre, p.buyer_id);
                    assert(of_buyer(cur, p.buyer_id) == of_buyer(pre, p.buyer_id).push(p));
                    assert(of_buyer(pre, p.buyer_id).push(p).drop_last() =~= of_buyer(
                        pre,
                        p.buyer_id,
                    ));
                    lemma_amount_step(0, 0, n as int, p.quantity as int, p.unit_price as int);
                }
                let mut v: Vec<Purchase> = Vec::new();
                v.push(p);
                let amount = (p.quantity as u128) * (p.unit_price as u128);
                let ghost gpre = groups@;
                groups.push(BuyerGroup { buyer_id: p.buyer_id, amount_due: amount, purchases: v });
                proof {
                    let b = p.buyer_id;
                    assert(groups@.len() == gpre.len() + 1);
                    assert(forall|k: int| 0 <= k < gpre.len() ==> #[trigger] groups@[k] == gpre[k]);
                    assert(groups@[gpre.len() as int].buyer_id == b);
                    assert(groups@[gpre.len() as int].purchases@ =~= Seq::<Purchase>::empty().push(
                        p,
                    ));
                    assert(of_buyer(cur, b) =~= Seq::<Purchase>::empty().push(p));
                    assert(amount_due(of_buyer(cur, b)) == p.quantity as int * p.unit_price as int);
                    assert(groups@[gpre.len() as int].amount_due as int == p.quantity as int
                        * p.unit_price as int);
                    assert forall|k: int|
                        0 <= k < gpre.len() implies #[trigger] of_buyer(cur, groups@[k].buyer_id)
                        == of_buyer(pre, groups@[k].buyer_id) by {
                        assert(groups@[k].buyer_id == bs[k]);
                        assert(bs[k] != b);
                    }
                }
            }
        }
        proof {
            assert(rows@.take(n as int) =~= rows@);
        }
        groups
    }
}

/// A buyer's share of a row sequence, counted through the multiset of its
/// rows: permuting the rows does not change how many a buyer has.
proof fn lemma_of_buyer_len_by_multiset(s: Seq<Purchase>, b: u32)
    ensures
        of_buyer(s, b).len() == s.to_multiset().filter(
            |p: Purchase| p.buyer_id == b,
        ).len(),
    decreases s.len(),
{
    broadcast use vstd::seq_lib::group_to_multiset_ensures;
    broadcast use vstd::multiset::group_multiset_axioms;

    let f = |p: Purchase| p.buyer_id == b;
    if s.len() == 0 {
        assert(s.to_multiset() =~= Multiset::<Purchase>::empty());
        assert(s.to_multiset().filter(f) =~= Multiset::<Purchase>::empty());
    } else {
        lemma_of_buyer_len_by_multiset(s.drop_last(), b);
        let m1 = s.drop_last().to_multiset();
        let p = s.last();
        assert(s =~= s.drop_last().push(p));
        assert(s.to_multiset() =~= m1.insert(p));
        if p.buyer_id == b {
            assert(m1.insert(p).filter(f) =~= m1.filter(f).insert(p));
            assert(m1.filter(f).insert(p).len() == m1.filter(f).len() + 1) by {
                assert(m1.filter(f).insert(p) =~= m1.filter(f).add(
                    Multiset::<Purchase>::singleton(p),
                ));
            }
        } else {
            assert(m1.insert(p).filter(f) =~= m1.filter(f));
        }
    }
}

/// A buyer's share of a seller's unpaid rows is exactly what a bulk
/// settlement of that buyer would count.
proof fn lemma_unpaid_share_is_bulk_count(m: StoreModel, s: Seq<Purchase>, seller_id: u32, b: u32)
    ensures
        of_buyer(unpaid_of_seller(m, s, seller_id), b).len() == m.bulk_count(s, seller_id, b),
    decreases s.len(),
{
    if s.len() > 0 {
        lemma_unpaid_share_is_bulk_count(m, s.drop_last(), seller_id, b);
        let rest = unpaid_of_seller(m, s.drop_last(), seller_id);
        let p = s.last();
        if p.paid_date is None && m.sold_by(p.product_id, seller_id) {
            assert(unpaid_of_seller(m, s, seller_id) == rest.push(p));
            assert(rest.push(p).drop_last() =~= rest);
            assert(of_buyer(rest.push(p), b) == if p.buyer_id == b {
                of_buyer(rest, b).push(p)
            } else {
                of_buyer(rest, b)
            });
        } else {
            assert(unpaid_of_seller(m, s, seller_id) == rest);
        }
    }
}

/// The summary drives bulk settlement: a buyer's group in the seller's
/// summary has exactly as many rows as the bulk settlement of that buyer
/// would settle on the same state, so passing the group's row count as
/// `expected_count` makes `pay_bulk` succeed.
pub proof fn lemma_summary_count_drives_bulk(m: StoreModel, seller_id: u32, b: u32)
    ensures
        ({
            let sorted = sort_by_date_desc(unpaid_of_seller(m, m.purchases, seller_id));
            of_buyer(sorted, b).len() == m.bulk_count(m.purchases, seller_id, b)
        }),
{
    let unpaid = unpaid_of_seller(m, m.purchases, seller_id);
    let sorted = sort_by_date_desc(unpaid);
    lemma_sort_by_date_desc(unpaid);
    lemma_of_buyer_len_by_multiset(sorted, b);
    lemma_of_buyer_len_by_multiset(unpaid, b);
    lemma_unpaid_share_is_bulk_count(m, m.purchases, seller_id, b);
}

} // verus!
