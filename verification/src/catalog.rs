//! The catalog: sellers create products, and anyone lists what is still
//! available. Creation validates the fields and stores the name and the
//! description trimmed of surrounding whitespace, a description left empty
//! by trimming becoming absent; the listing is filtered to positive stock
//! and ordered by descending stock.

use vstd::prelude::*;

use crate::errors::AppError;
use crate::order::{insert_by_stock_desc, insert_product_sorted, lemma_sort_by_stock_desc, sort_by_stock_desc, sorted_by_stock_desc};
use crate::store::{lemma_product_idx_unique, Product, ProductView, Store, StoreModel};

verus! {

/// What `str::trim` leaves of a string: the characters with leading and
/// trailing whitespace removed. A function of the characters alone.
pub uninterp spec fn trim_of(s: Seq<char>) -> Seq<char>;

/// Relies on `str::trim`: returns a subslice of `s` with leading and
/// trailing whitespace removed, a function of the characters alone.
#[verifier::external_body]
fn trim(s: &str) -> (r: &str)
    ensures
        r@ == trim_of(s@),
        r@.len() <= s@.len(),
{
    s.trim()
}

/// The rows of `s` with stock still available, in row order.
pub open spec fn available(s: Seq<ProductView>) -> Seq<ProductView>
    decreases s.len(),
{
    if s.len() == 0 {
        Seq::empty()
    } else {
        let rest = available(s.drop_last());
        if s.last().stock > 0 {
            rest.push(s.last())
        } else {
            rest
        }
    }
}

/// The stored form of an optional description: trimmed, and absent when
/// empty after trimming.
pub open spec fn stored_description(description: Option<Seq<char>>) -> Option<Seq<char>> {
    match description {
        Some(d) => if trim_of(d).len() == 0 {
            None
        } else {
            Some(trim_of(d))
        },
        None => None,
    }
}

impl StoreModel {
    /// Why a product insertion is refused, or `None` when it is granted:
    /// the seller must exist, stock and price must be positive, the name
    /// must be non-empty after trimming, and a product id must be left.
    pub open spec fn insert_product_error(
        self,
        seller_id: u32,
        name: Seq<char>,
        stock: u32,
        price: u32,
    ) -> Option<AppError> {
        if !self.has_user(seller_id) {
            Some(AppError::NoSuchUser)
        } else if stock == 0 {
            Some(AppError::BadInput("stock must be greater than 0"))
        } else if price == 0 {
            Some(AppError::BadInput("price must be greater than 0"))
        } else if trim_of(name).len() == 0 {
            Some(AppError::BadInput("name can't be empty"))
        } else if self.next_product_id == u32::MAX {
            Some(AppError::Internal)
        } else {
            None
        }
    }

    /// The state after a granted product insertion: one new product row
    /// under the next free id, with the name and description trimmed.
    /// Nothing else changes.
    pub open spec fn insert_product_next(
        self,
        seller_id: u32,
        name: Seq<char>,
        description: Option<Seq<char>>,
        stock: u32,
        price: u32,
    ) -> StoreModel {
        StoreModel {
            products: self.products.push(
                ProductView {
                    id: self.next_product_id,
                    seller_id,
                    name: trim_of(name),
                    description: stored_description(description),
                    stock,
                    price,
                },
            ),
            next_product_id: (self.next_product_id + 1) as u32,
            ..self
        }
    }
}

/// A granted product insertion preserves well-formedness of the store.
pub proof fn lemma_insert_product_next_wf(
    m: StoreModel,
    seller_id: u32,
    name: Seq<char>,
    description: Option<Seq<char>>,
    stock: u32,
    price: u32,
)
    requires
        m.wf(),
        m.insert_product_error(seller_id, name, stock, price) is None,
    ensures
        m.insert_product_next(seller_id, name, description, stock, price).wf(),
{
    let m2 = m.insert_product_next(seller_id, name, description, stock, price);
    assert(m2.users == m.users);
    assert(forall|uid: u32| m.has_user(uid) ==> m2.has_user(uid));
    assert(m2.products.last().id == m.next_product_id);
    assert(forall|k: int|
        0 <= k < m.products.len() ==> (#[trigger] m2.products[k]) == m.products[k]);
    assert(forall|pid: u32| #[trigger] m.has_product(pid) ==> m2.has_product(pid)) by {
        assert(forall|pid: u32| #[trigger] m.has_product(pid) ==> {
            let k = m.product_idx(pid);
            0 <= k < m2.products.len() && m2.products[k].id == pid
        });
    }
}

impl Store {
    /// Creates a product for the seller: validates that stock and price are
    /// positive and the name non-empty after trimming (`BadInput` names the
    /// first failing field), stores name and description trimmed — an empty
    /// description becoming absent — and returns the new product's id.
    pub fn insert_product(
        &mut self,
        seller_id: u32,
        name: &str,
        description: Option<&str>,
        stock: u32,
        price: u32,
    ) -> (r: Result<u32, AppError>)
        requires
            old(self)@.wf(),
        ensures
            final(self)@.wf(),
            ({
                let desc_view = match description {
                    Some(d) => Some(d@),
                    None => None,
                };
                match r {
                    Ok(product_id) => {
                        &&& old(self)@.insert_product_error(seller_id, name@, stock, price)
                            is None
                        &&& product_id == old(self)@.next_product_id
                        &&& final(self)@ == old(self)@.insert_product_next(
                            seller_id,
                            name@,
                            desc_view,
                            stock,
                            price,
                        )
                    },
                    Err(e) => {
                        &&& old(self)@.insert_product_error(seller_id, name@, stock, price)
                            == Some(e)
                        &&& final(self)@ == old(self)@
                    },
                }
            }),
    {
        if self.find_user(seller_id).is_none() {
            return Err(AppError::NoSuchUser);
        }
        if stock == 0 {
            return Err(AppError::BadInput("stock must be greater than 0"));
        }
        if price == 0 {
            return Err(AppError::BadInput("price must be greater than 0"));
        }
        let trimmed_name = trim(name);
        if trimmed_name.is_empty() {
            return Err(AppError::BadInput("name can't be empty"));
        }
        if self.next_product_id == u32::MAX {
            return Err(AppError::Internal);
        }
        let stored_desc: Option<String> = match description {
            Some(d) => {
                let t = trim(d);
                if t.is_empty() {
                    None
                } else {
                    Some(t.to_owned())
                }
            },
            None => None,
        };
        let product_id = self.next_product_id;
        let prod = Product {
            id: product_id,
            seller_id,
            name: trimmed_name.to_owned(),
            description: stored_desc,
            stock,
            price,
        };
        self.products.push(prod);
        self.next_product_id = self.next_product_id + 1;
        proof {
            let m = old(self)@;
            let desc_view = match description {
                Some(d) => Some(d@),
                None => None,
            };
            assert(final(self)@.products =~= m.products.push(
                ProductView {
                    id: product_id,
                    seller_id,
                    name: trim_of(name@),
                    description: stored_description(desc_view),
                    stock,
                    price,
                },
            ));
            assert(final(self)@ =~= m.insert_product_next(
                seller_id,
                name@,
                desc_view,
                stock,
                price,
            ));
            lemma_insert_product_next_wf(m, seller_id, name@, desc_view, stock, price);
        }
        Ok(product_id)
    }

    /// The product with the given id.
    pub fn product_by_id(&self, product_id: u32) -> (r: Result<Product, AppError>)
        requires
            self@.wf(),
        ensures
            match r {
                Ok(p) => self@.has_product(product_id) && p@ == self@.product_at(product_id),
                Err(e) => e == AppError::NoSuchProduct && !self@.has_product(product_id),
            },
    {
        match self.find_product(product_id) {
            Some(i) => {
                proof {
                    lemma_product_idx_unique(self@, i as int);
                }
                Ok(self.products[i].clone())
            },
            None => Err(AppError::NoSuchProduct),
        }
    }

    /// The products still in stock, ordered by descending stock; rows of
    /// equal stock keep their insertion order.
    pub fn list_available_products(&self) -> (r: Vec<Product>)
        ensures
            r@.map_values(|p: Product| p@) == sort_by_stock_desc(available(self@.products)),
            sorted_by_stock_desc(r@.map_values(|p: Product| p@)),
    {
        let mut out: Vec<Product> = Vec::new();
        let n = self.products.len();
        proof {
            assert(self@.products.take(0) =~= Seq::empty());
            assert(out@.map_values(|p: Product| p@) =~= Seq::<ProductView>::empty());
        }
        for i in 0..n
            invariant
                n == self.products.len(),
                out@.map_values(|p: Product| p@) == sort_by_stock_desc(
                    available(self@.products.take(i as int)),
                ),
        {
            proof {
                let pre = self@.products.take(i as int);
                let cur = self@.products.take(i + 1);
                assert(cur.drop_last() =~= pre);
                assert(cur.last() == self@.products[i as int]);
                if self@.products[i as int].stock > 0 {
                    assert(available(cur) == available(pre).push(self@.products[i as int]));
                    assert(available(pre).push(self@.products[i as int]).drop_last() =~= available(
                        pre,
                    ));
                    assert(sort_by_stock_desc(available(cur)) == insert_by_stock_desc(
                        sort_by_stock_desc(available(pre)),
                        self@.products[i as int],
                    ));
                } else {
                    assert(available(cur) == available(pre));
                }
            }
            if self.products[i].stock > 0 {
                let c = self.products[i].clone();
                insert_product_sorted(&mut out, c);
            }
        }
        proof {
            assert(self@.products.take(n as int) =~= self@.products);
            lemma_sort_by_stock_desc(available(self@.products));
        }
        out
    }
}

} // verus!
