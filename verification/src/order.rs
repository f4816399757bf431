//! Ordering of query results: purchases are listed newest first, available
//! products by descending stock. Both orders are produced by insertion into
//! an already ordered sequence, specified by recursive spec functions, with
//! lemmas showing that the result is sorted and is a permutation of the
//! input.

use vstd::multiset::Multiset;
use vstd::prelude::*;

use crate::store::{Product, ProductView, Purchase};

verus! {

/// Inserting an element anywhere in a sequence adds exactly that element to
/// its multiset of elements.
pub proof fn lemma_seq_insert_multiset<A>(s: Seq<A>, pos: int, x: A)
    requires
        0 <= pos <= s.len(),
    ensures
        s.insert(pos, x).to_multiset() =~= s.to_multiset().insert(x),
{
    broadcast use vstd::seq_lib::group_to_multiset_ensures;

    let t = s.insert(pos, x);
    assert(t.remove(pos) =~= s);
    assert(t[pos] == x);
    assert(t.remove(pos).to_multiset() =~= t.to_multiset().remove(x));
    assert(t.to_multiset().contains(x)) by {
        assert(t.contains(x));
    }
    assert(t.to_multiset() =~= s.to_multiset().insert(x)) by {
        assert(forall|a: A| #[trigger] t.to_multiset().count(a) == s.to_multiset().insert(
            x,
        ).count(a)) by {
            assert(forall|a: A| #[trigger] s.to_multiset().count(a) == t.to_multiset().remove(
                x,
            ).count(a));
        }
    }
}

// ---------------------------------------------------------------------------
// Purchases, newest first.
// ---------------------------------------------------------------------------
/// Newest first: every earlier row has a date at least as late.
pub open spec fn sorted_by_date_desc(s: Seq<Purchase>) -> bool {
    forall|i: int, j: int| 0 <= i < j < s.len() ==> (#[trigger] s[i]).date >= (#[trigger] s[j]).date
}

/// Inserts `p` behind every row dated at least as late, so that rows of
/// equal date keep their previous relative order.
pub open spec fn insert_by_date_desc(s: Seq<Purchase>, p: Purchase) -> Seq<Purchase>
    decreases s.len(),
{
    if s.len() == 0 {
        seq![p]
    } else if p.date <= s[0].date {
        seq![s[0]] + insert_by_date_desc(s.drop_first(), p)
    } else {
        seq![p] + s
    }
}

/// Sorts purchases newest first by successive insertion, keeping rows of
/// equal date in their original order.
pub open spec fn sort_by_date_desc(s: Seq<Purchase>) -> Seq<Purchase>
    decreases s.len(),
{
    if s.len() == 0 {
        Seq::empty()
    } else {
        insert_by_date_desc(sort_by_date_desc(s.drop_last()), s.last())
    }
}

/// Inserting into a date-ordered sequence keeps it ordered, adds exactly the
/// new row, and leaves at the head whichever of the old head and the new row
/// is dated later.
pub proof fn lemma_insert_by_date_desc(s: Seq<Purchase>, p: Purchase)
    requires
        sorted_by_date_desc(s),
    ensures
        sorted_by_date_desc(insert_by_date_desc(s, p)),
        insert_by_date_desc(s, p).to_multiset() =~= s.to_multiset().insert(p),
        insert_by_date_desc(s, p).len() == s.len() + 1,
        insert_by_date_desc(s, p)[0].date == if s.len() > 0 && p.date <= s[0].date {
            s[0].date
        } else {
            p.date
        },
    decreases s.len(),
{
    broadcast use vstd::seq_lib::group_to_multiset_ensures;

    let r = insert_by_date_desc(s, p);
    if s.len() == 0 {
        assert(r =~= Seq::empty().push(p));
        assert(r.to_multiset() =~= Seq::<Purchase>::empty().to_multiset().insert(p));
        assert(s.to_multiset() =~= Seq::<Purchase>::empty().to_multiset());
    } else if p.date <= s[0].date {
        let sub = insert_by_date_desc(s.drop_first(), p);
        lemma_insert_by_date_desc(s.drop_first(), p);
        assert(r =~= seq![s[0]] + sub);
        // Every row of `sub` is dated no later than the head `s[0]`.
        assert(sub[0].date <= s[0].date);
        assert(forall|k: int| 0 <= k < sub.len() ==> (#[trigger] sub[k]).date <= s[0].date);
        assert(sorted_by_date_desc(r)) by {
            assert(forall|i: int, j: int|
                0 <= i < j < r.len() ==> (#[trigger] r[i]).date >= (#[trigger] r[j]).date) by {
                assert(forall|j: int| 1 <= j < r.len() ==> r[j] == sub[j - 1]);
            }
        }
        // Multiset bookkeeping through the two inserts at the front.
        assert(r =~= sub.insert(0, s[0]));
        lemma_seq_insert_multiset(sub, 0, s[0]);
        assert(s =~= s.drop_first().insert(0, s[0]));
        lemma_seq_insert_multiset(s.drop_first(), 0, s[0]);
        assert(r.to_multiset() =~= s.to_multiset().insert(p)) by {
            assert(r.to_multiset() =~= s.drop_first().to_multiset().insert(p).insert(s[0]));
            assert(s.to_multiset() =~= s.drop_first().to_multiset().insert(s[0]));
        }
    } else {
        assert(r =~= s.insert(0, p));
        lemma_seq_insert_multiset(s, 0, p);
    }
}

/// Sorting newest first yields a date-ordered permutation of the input with
/// the same length.
pub proof fn lemma_sort_by_date_desc(s: Seq<Purchase>)
    ensures
        sorted_by_date_desc(sort_by_date_desc(s)),
        sort_by_date_desc(s).to_multiset() =~= s.to_multiset(),
        sort_by_date_desc(s).len() == s.len(),
    decreases s.len(),
{
    broadcast use vstd::seq_lib::group_to_multiset_ensures;

    if s.len() == 0 {
    } else {
        let prev = sort_by_date_desc(s.drop_last());
        lemma_sort_by_date_desc(s.drop_last());
        lemma_insert_by_date_desc(prev, s.last());
        assert(s =~= s.drop_last().push(s.last()));
        assert(s.to_multiset() =~= s.drop_last().to_multiset().insert(s.last()));
    }
}

/// Inserts `p` into a date-ordered vector, behind every row dated at least
/// as late.
pub(crate) fn insert_purchase_sorted(v: &mut Vec<Purchase>, p: Purchase)
    ensures
        final(v)@ == insert_by_date_desc(old(v)@, p),
{
    let mut pos: usize = 0;
    while pos < v.len() && p.date <= v[pos].date
        invariant
            0 <= pos <= v.len(),
            *v == *old(v),
            forall|k: int| 0 <= k < pos ==> p.date <= (#[trigger] v@[k]).date,
        decreases v.len() - pos,
    {
        pos = pos + 1;
    }
    v.insert(pos, p);
    proof {
        lemma_insert_by_date_desc_at(old(v)@, p, pos as int);
    }
}

/// When the first `pos` rows are dated at least `p.date` and the row at
/// `pos` (if any) is dated strictly earlier, the ordered insertion lands
/// exactly at `pos`.
proof fn lemma_insert_by_date_desc_at(s: Seq<Purchase>, p: Purchase, pos: int)
    requires
        0 <= pos <= s.len(),
        forall|k: int| 0 <= k < pos ==> p.date <= (#[trigger] s[k]).date,
        pos < s.len() ==> p.date > s[pos].date,
    ensures
        insert_by_date_desc(s, p) =~= s.insert(pos, p),
    decreases s.len(),
{
    if s.len() == 0 {
    } else if pos == 0 {
        assert(p.date > s[0].date);
    } else {
        assert(p.date <= s[0].date);
        lemma_insert_by_date_desc_at(s.drop_first(), p, pos - 1);
        assert(insert_by_date_desc(s, p) =~= seq![s[0]] + s.drop_first().insert(pos - 1, p));
    }
}

// ---------------------------------------------------------------------------
// Products, largest stock first.
// ---------------------------------------------------------------------------
/// Largest stock first: every earlier row has at least as much stock.
pub open spec fn sorted_by_stock_desc(s: Seq<ProductView>) -> bool {
    forall|i: int, j: int|
        0 <= i < j < s.len() ==> (#[trigger] s[i]).stock >= (#[trigger] s[j]).stock
}

/// Inserts `p` behind every row with at least as much stock, so that rows of
/// equal stock keep their previous relative order.
pub open spec fn insert_by_stock_desc(s: Seq<ProductView>, p: ProductView) -> Seq<ProductView>
    decreases s.len(),
{
    if s.len() == 0 {
        seq![p]
    } else if p.stock <= s[0].stock {
        seq![s[0]] + insert_by_stock_desc(s.drop_first(), p)
    } else {
        seq![p] + s
    }
}

/// Sorts products by descending stock by successive insertion, keeping rows
/// of equal stock in their original order.
pub open spec fn sort_by_stock_desc(s: Seq<ProductView>) -> Seq<ProductView>
    decreases s.len(),
{
    if s.len() == 0 {
        Seq::empty()
    } else {
        insert_by_stock_desc(sort_by_stock_desc(s.drop_last()), s.last())
    }
}

/// Inserting into a stock-ordered sequence keeps it ordered, adds exactly
/// the new row, and leaves at the head whichever of the old head and the new
/// row has more stock.
pub proof fn lemma_insert_by_stock_desc(s: Seq<ProductView>, p: ProductView)
    requires
        sorted_by_stock_desc(s),
    ensures
        sorted_by_stock_desc(insert_by_stock_desc(s, p)),
        insert_by_stock_desc(s, p).to_multiset() =~= s.to_multiset().insert(p),
        insert_by_stock_desc(s, p).len() == s.len() + 1,
        insert_by_stock_desc(s, p)[0].stock == if s.len() > 0 && p.stock <= s[0].stock {
            s[0].stock
        } else {
            p.stock
        },
    decreases s.len(),
{
    broadcast use vstd::seq_lib::group_to_multiset_ensures;

    let r = insert_by_stock_desc(s, p);
    if s.len() == 0 {
        assert(r =~= Seq::empty().push(p));
        assert(r.to_multiset() =~= Seq::<ProductView>::empty().to_multiset().insert(p));
        assert(s.to_multiset() =~= Seq::<ProductView>::empty().to_multiset());
    } else if p.stock <= s[0].stock {
        let sub = insert_by_stock_desc(s.drop_first(), p);
        lemma_insert_by_stock_desc(s.drop_first(), p);
        assert(r =~= seq![s[0]] + sub);
        assert(sub[0].stock <= s[0].stock);
        assert(forall|k: int| 0 <= k < sub.len() ==> (#[trigger] sub[k]).stock <= s[0].stock);
        assert(sorted_by_stock_desc(r)) by {
            assert(forall|i: int, j: int|
                0 <= i < j < r.len() ==> (#[trigger] r[i]).stock >= (#[trigger] r[j]).stock) by {
                assert(forall|j: int| 1 <= j < r.len() ==> r[j] == sub[j - 1]);
            }
        }
        assert(r =~= sub.insert(0, s[0]));
        lemma_seq_insert_multiset(sub, 0, s[0]);
        assert(s =~= s.drop_first().insert(0, s[0]));
        lemma_seq_insert_multiset(s.drop_first(), 0, s[0]);
        assert(r.to_multiset() =~= s.to_multiset().insert(p)) by {
            assert(r.to_multiset() =~= s.drop_first().to_multiset().insert(p).insert(s[0]));
            assert(s.to_multiset() =~= s.drop_first().to_multiset().insert(s[0]));
        }
    } else {
        assert(r =~= s.insert(0, p));
        lemma_seq_insert_multiset(s, 0, p);
    }
}

/// Sorting by descending stock yields a stock-ordered permutation of the
/// input with the same length.
pub proof fn lemma_sort_by_stock_desc(s: Seq<ProductView>)
    ensures
        sorted_by_stock_desc(sort_by_stock_desc(s)),
        sort_by_stock_desc(s).to_multiset() =~= s.to_multiset(),
        sort_by_stock_desc(s).len() == s.len(),
    decreases s.len(),
{
    broadcast use vstd::seq_lib::group_to_multiset_ensures;

    if s.len() == 0 {
    } else {
        let prev = sort_by_stock_desc(s.drop_last());
        lemma_sort_by_stock_desc(s.drop_last());
        lemma_insert_by_stock_desc(prev, s.last());
        assert(s =~= s.drop_last().push(s.last()));
        assert(s.to_multiset() =~= s.drop_last().to_multiset().insert(s.last()));
    }
}

/// Inserts `p` into a stock-ordered vector, behind every row with at least
/// as much stock.
pub(crate) fn insert_product_sorted(v: &mut Vec<Product>, p: Product)
    ensures
        final(v)@.map_values(|q: Product| q@) == insert_by_stock_desc(
            old(v)@.map_values(|q: Product| q@),
            p@,
        ),
{
    let mut pos: usize = 0;
    while pos < v.len() && p.stock <= v[pos].stock
        invariant
            0 <= pos <= v.len(),
            *v == *old(v),
            forall|k: int| 0 <= k < pos ==> p.stock <= (#[trigger] v@[k]).stock,
        decreases v.len() - pos,
    {
        pos = pos + 1;
    }
    let ghost pv = p@;
    let ghost before = v@.map_values(|q: Product| q@);
    v.insert(pos, p);
    proof {
        lemma_insert_by_stock_desc_at(before, pv, pos as int);
        assert(final(v)@.map_values(|q: Product| q@) =~= before.insert(pos as int, pv));
    }
}

/// When the first `pos` rows have stock at least `p.stock` and the row at
/// `pos` (if any) has strictly less, the ordered insertion lands exactly at
/// `pos`.
proof fn lemma_insert_by_stock_desc_at(s: Seq<ProductView>, p: ProductView, pos: int)
    requires
        0 <= pos <= s.len(),
        forall|k: int| 0 <= k < pos ==> p.stock <= (#[trigger] s[k]).stock,
        pos < s.len() ==> p.stock > s[pos].stock,
    ensures
        insert_by_stock_desc(s, p) =~= s.insert(pos, p),
    decreases s.len(),
{
    if s.len() == 0 {
    } else if pos == 0 {
        assert(p.stock > s[0].stock);
    } else {
        assert(p.stock <= s[0].stock);
        lemma_insert_by_stock_desc_at(s.drop_first(), p, pos - 1);
        assert(insert_by_stock_desc(s, p) =~= seq![s[0]] + s.drop_first().insert(pos - 1, p));
    }
}

} // verus!
