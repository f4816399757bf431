//! The persistent state of the marketplace, modelled as an in-memory store
//! of users, products and purchases. Each record type has a mathematical
//! view, and the store as a whole has a well-formedness invariant that every
//! operation preserves: unique identifiers, positive prices and quantities,
//! and foreign keys that resolve.

use vstd::prelude::*;

verus! {

/// A registered user: unique id, display name, unique phone number, and the
/// hash of the password (never the password itself).
pub struct User {
    pub id: u32,
    pub name: String,
    pub phone_number: String,
    pub hashed_password: String,
}

/// The mathematical view of a `User`.
#[verifier::ext_equal]
pub struct UserView {
    pub id: u32,
    pub name: Seq<char>,
    pub phone_number: Seq<char>,
    pub hashed_password: Seq<char>,
}

impl View for User {
    type V = UserView;

    open spec fn view(&self) -> UserView {
        UserView {
            id: self.id,
            name: self.name@,
            phone_number: self.phone_number@,
            hashed_password: self.hashed_password@,
        }
    }
}

impl Clone for User {
    fn clone(&self) -> (r: Self)
        ensures
            r@ == self@,
    {
        User {
            id: self.id,
            name: self.name.clone(),
            phone_number: self.phone_number.clone(),
            hashed_password: self.hashed_password.clone(),
        }
    }
}

/// A listed product. `stock` is the number of units still available and is
/// decremented by purchases; `price` is in the smallest currency unit and is
/// always positive.
pub struct Product {
    pub id: u32,
    pub seller_id: u32,
    pub name: String,
    pub description: Option<String>,
    pub stock: u32,
    pub price: u32,
}

/// The mathematical view of a `Product`.
#[verifier::ext_equal]
pub struct ProductView {
    pub id: u32,
    pub seller_id: u32,
    pub name: Seq<char>,
    pub description: Option<Seq<char>>,
    pub stock: u32,
    pub price: u32,
}

impl View for Product {
    type V = ProductView;

    open spec fn view(&self) -> ProductView {
        ProductView {
            id: self.id,
            seller_id: self.seller_id,
            name: self.name@,
            description: match self.description {
                Some(d) => Some(d@),
                None => None,
            },
            stock: self.stock,
            price: self.price,
        }
    }
}

impl Clone for Product {
    fn clone(&self) -> (r: Self)
        ensures
            r@ == self@,
    {
        Product {
            id: self.id,
            seller_id: self.seller_id,
            name: self.name.clone(),
            description: match &self.description {
                Some(d) => Some(d.clone()),
                None => None,
            },
            stock: self.stock,
            price: self.price,
        }
    }
}

/// A purchase record. `unit_price` is a frozen copy of the product's price
/// at purchase time, never changed afterwards. `paid_date` transitions
/// exactly once from `None` to `Some`; timestamps are seconds.
#[derive(Clone, Copy, PartialEq, Eq, Debug)]
pub struct Purchase {
    pub id: u32,
    pub buyer_id: u32,
    pub product_id: u32,
    pub quantity: u32,
    pub unit_price: u32,
    pub date: u64,
    pub paid_date: Option<u64>,
}

/// The whole marketplace state: the three record tables and the next free
/// identifier of each.
pub struct Store {
    pub users: Vec<User>,
    pub products: Vec<Product>,
    pub purchases: Vec<Purchase>,
    pub next_user_id: u32,
    pub next_product_id: u32,
    pub next_purchase_id: u32,
}

/// The mathematical view of a `Store`.
#[verifier::ext_equal]
pub struct StoreModel {
    pub users: Seq<UserView>,
    pub products: Seq<ProductView>,
    pub purchases: Seq<Purchase>,
    pub next_user_id: u32,
    pub next_product_id: u32,
    pub next_purchase_id: u32,
}

impl View for Store {
    type V = StoreModel;

    open spec fn view(&self) -> StoreModel {
        StoreModel {
            users: self.users@.map_values(|u: User| u@),
            products: self.products@.map_values(|p: Product| p@),
            purchases: self.purchases@,
            next_user_id: self.next_user_id,
            next_product_id: self.next_product_id,
            next_purchase_id: self.next_purchase_id,
        }
    }
}

impl StoreModel {
    pub open spec fn has_user(self, user_id: u32) -> bool {
        exists|i: int| 0 <= i < self.users.len() && (#[trigger] self.users[i]).id == user_id
    }

    /// The index of the user with the given id; meaningful under `wf` when
    /// `has_user` holds, since ids are then unique.
    pub open spec fn user_idx(self, user_id: u32) -> int {
        choose|i: int| 0 <= i < self.users.len() && (#[trigger] self.users[i]).id == user_id
    }

    pub open spec fn user_at(self, user_id: u32) -> UserView {
        self.users[self.user_idx(user_id)]
    }

    pub open spec fn has_phone(self, phone: Seq<char>) -> bool {
        exists|i: int|
            0 <= i < self.users.len() && (#[trigger] self.users[i]).phone_number == phone
    }

    /// The index of the user with the given phone number; meaningful under
    /// `wf` when `has_phone` holds, since phone numbers are then unique.
    pub open spec fn user_by_phone_idx(self, phone: Seq<char>) -> int {
        choose|i: int|
            0 <= i < self.users.len() && (#[trigger] self.users[i]).phone_number == phone
    }

    pub open spec fn user_by_phone(self, phone: Seq<char>) -> UserView {
        self.users[self.user_by_phone_idx(phone)]
    }

    pub open spec fn has_product(self, product_id: u32) -> bool {
        exists|i: int|
            0 <= i < self.products.len() && (#[trigger] self.products[i]).id == product_id
    }

    /// The index of the product with the given id; meaningful under `wf`
    /// when `has_product` holds, since ids are then unique.
    pub open spec fn product_idx(self, product_id: u32) -> int {
        choose|i: int|
            0 <= i < self.products.len() && (#[trigger] self.products[i]).id == product_id
    }

    pub open spec fn product_at(self, product_id: u32) -> ProductView {
        self.products[self.product_idx(product_id)]
    }

    /// The seller who owns the product with the given id.
    pub open spec fn seller_of(self, product_id: u32) -> u32 {
        self.product_at(product_id).seller_id
    }

    pub open spec fn has_purchase(self, purchase_id: u32) -> bool {
        exists|i: int|
            0 <= i < self.purchases.len() && (#[trigger] self.purchases[i]).id == purchase_id
    }

    /// The index of the purchase with the given id; meaningful under `wf`
    /// when `has_purchase` holds, since ids are then unique.
    pub open spec fn purchase_idx(self, purchase_id: u32) -> int {
        choose|i: int|
            0 <= i < self.purchases.len() && (#[trigger] self.purchases[i]).id == purchase_id
    }

    pub open spec fn purchase_at(self, purchase_id: u32) -> Purchase {
        self.purchases[self.purchase_idx(purchase_id)]
    }

    pub open spec fn users_wf(self) -> bool {
        &&& forall|i: int, j: int|
            0 <= i < self.users.len() && 0 <= j < self.users.len() && i != j ==> (
            #[trigger] self.users[i]).id != (#[trigger] self.users[j]).id
        &&& forall|i: int, j: int|
            0 <= i < self.users.len() && 0 <= j < self.users.len() && i != j ==> (
            #[trigger] self.users[i]).phone_number != (#[trigger] self.users[j]).phone_number
        &&& forall|i: int| 0 <= i < self.users.len() ==> (#[trigger] self.users[i]).id
            < self.next_user_id
    }

    pub open spec fn products_wf(self) -> bool {
        &&& forall|i: int, j: int|
            0 <= i < self.products.len() && 0 <= j < self.products.len() && i != j ==> (
            #[trigger] self.products[i]).id != (#[trigger] self.products[j]).id
        &&& forall|i: int| 0 <= i < self.products.len() ==> (#[trigger] self.products[i]).id
            < self.next_product_id
        &&& forall|i: int| 0 <= i < self.products.len() ==> (#[trigger] self.products[i]).price
            > 0
        &&& forall|i: int|
            0 <= i < self.products.len() ==> self.has_user(
                (#[trigger] self.products[i]).seller_id,
            )
    }

    pub open spec fn purchases_wf(self) -> bool {
        &&& forall|i: int, j: int|
            0 <= i < self.purchases.len() && 0 <= j < self.purchases.len() && i != j ==> (
            #[trigger] self.purchases[i]).id != (#[trigger] self.purchases[j]).id
        &&& forall|i: int| 0 <= i < self.purchases.len() ==> (#[trigger] self.purchases[i]).id
            < self.next_purchase_id
        &&& forall|i: int| 0 <= i < self.purchases.len() ==> (
        #[trigger] self.purchases[i]).quantity > 0
        &&& forall|i: int| 0 <= i < self.purchases.len() ==> (
        #[trigger] self.purchases[i]).unit_price > 0
        &&& forall|i: int|
            0 <= i < self.purchases.len() ==> self.has_product(
                (#[trigger] self.purchases[i]).product_id,
            )
        &&& forall|i: int|
            0 <= i < self.purchases.len() ==> self.has_user(
                (#[trigger] self.purchases[i]).buyer_id,
            )
    }

    /// Well-formedness of the whole store: identifiers and phone numbers are
    /// unique and below the next-id counters, prices and quantities are
    /// positive, and every foreign key resolves.
    pub open spec fn wf(self) -> bool {
        self.users_wf() && self.products_wf() && self.purchases_wf()
    }
}

impl Store {
    /// An empty marketplace.
    pub fn new() -> (r: Store)
        ensures
            r@.wf(),
            r@.users == Seq::<UserView>::empty(),
            r@.products == Seq::<ProductView>::empty(),
            r@.purchases == Seq::<Purchase>::empty(),
            r@.next_user_id == 0,
            r@.next_product_id == 0,
            r@.next_purchase_id == 0,
    {
        let r = Store {
            users: Vec::new(),
            products: Vec::new(),
            purchases: Vec::new(),
            next_user_id: 0,
            next_product_id: 0,
            next_purchase_id: 0,
        };
        proof {
            assert(r@.users =~= Seq::<UserView>::empty());
            assert(r@.products =~= Seq::<ProductView>::empty());
        }
        r
    }

    /// Looks a user up by id: the index of the matching row, if any.
    pub(crate) fn find_user(&self, user_id: u32) -> (r: Option<usize>)
        ensures
            match r {
                Some(i) => i < self@.users.len() && self@.users[i as int].id == user_id,
                None => !self@.has_user(user_id),
            },
    {
        let n = self.users.len();
        for i in 0..n
            invariant
                n == self.users.len(),
                forall|k: int| 0 <= k < i ==> (#[trigger] self@.users[k]).id != user_id,
        {
            if self.users[i].id == user_id {
                return Some(i);
            }
        }
        None
    }

    /// Looks a user up by phone number: the index of the matching row, if
    /// any.
    pub(crate) fn find_user_by_phone(&self, phone: &String) -> (r: Option<usize>)
        ensures
            match r {
                Some(i) => i < self@.users.len() && self@.users[i as int].phone_number == phone@,
                None => !self@.has_phone(phone@),
            },
    {
        let n = self.users.len();
        for i in 0..n
            invariant
                n == self.users.len(),
                forall|k: int| 0 <= k < i ==> (#[trigger] self@.users[k]).phone_number != phone@,
        {
            if self.users[i].phone_number == *phone {
                return Some(i);
            }
        }
        None
    }

    /// Looks a product up by id: the index of the matching row, if any.
    pub(crate) fn find_product(&self, product_id: u32) -> (r: Option<usize>)
        ensures
            match r {
                Some(i) => i < self@.products.len() && self@.products[i as int].id == product_id,
                None => !self@.has_product(product_id),
            },
    {
        let n = self.products.len();
        for i in 0..n
            invariant
                n == self.products.len(),
                forall|k: int| 0 <= k < i ==> (#[trigger] self@.products[k]).id != product_id,
        {
            if self.products[i].id == product_id {
                return Some(i);
            }
        }
        None
    }

    /// Looks a purchase up by id: the index of the matching row, if any.
    pub(crate) fn find_purchase(&self, purchase_id: u32) -> (r: Option<usize>)
        ensures
            match r {
                Some(i) => i < self@.purchases.len() && self@.purchases[i as int].id
                    == purchase_id,
                None => !self@.has_purchase(purchase_id),
            },
    {
        let n = self.purchases.len();
        for i in 0..n
            invariant
                n == self.purchases.len(),
                forall|k: int| 0 <= k < i ==> (#[trigger] self@.purchases[k]).id != purchase_id,
        {
            if self.purchases[i].id == purchase_id {
                return Some(i);
            }
        }
        None
    }
}

/// The audit view of a purchase table: everything about each row except
/// its settlement state — id, parties, quantity, the unit price frozen at
/// purchase time, and the purchase date.
pub open spec fn audit_view(s: Seq<Purchase>) -> Seq<(u32, u32, u32, u32, u32, u64)> {
    s.map_values(
        |p: Purchase| (p.id, p.buyer_id, p.product_id, p.quantity, p.unit_price, p.date),
    )
}

/// Under id uniqueness, the `product_idx` of an id found at index `i` is
/// exactly `i`.
pub proof fn lemma_product_idx_unique(m: StoreModel, i: int)
    requires
        m.wf(),
        0 <= i < m.products.len(),
    ensures
        m.product_idx(m.products[i].id) == i,
        m.has_product(m.products[i].id),
{
    let pid = m.products[i].id;
    assert(m.has_product(pid));
    let j = m.product_idx(pid);
    assert(0 <= j < m.products.len() && m.products[j].id == pid);
    assert(j == i);
}

/// Under id uniqueness, the `user_idx` of an id found at index `i` is
/// exactly `i`.
pub proof fn lemma_user_idx_unique(m: StoreModel, i: int)
    requires
        m.wf(),
        0 <= i < m.users.len(),
    ensures
        m.user_idx(m.users[i].id) == i,
        m.has_user(m.users[i].id),
{
    let uid = m.users[i].id;
    assert(m.has_user(uid));
    let j = m.user_idx(uid);
    assert(0 <= j < m.users.len() && m.users[j].id == uid);
    assert(j == i);
}

/// Under id uniqueness, the `purchase_idx` of an id found at index `i` is
/// exactly `i`.
pub proof fn lemma_purchase_idx_unique(m: StoreModel, i: int)
    requires
        m.wf(),
        0 <= i < m.purchases.len(),
    ensures
        m.purchase_idx(m.purchases[i].id) == i,
        m.has_purchase(m.purchases[i].id),
{
    let pid = m.purchases[i].id;
    assert(m.has_purchase(pid));
    let j = m.purchase_idx(pid);
    assert(0 <= j < m.purchases.len() && m.purchases[j].id == pid);
    assert(j == i);
}

/// Under phone uniqueness, the `user_by_phone_idx` of a phone found at
/// index `i` is exactly `i`.
pub proof fn lemma_phone_idx_unique(m: StoreModel, i: int)
    requires
        m.wf(),
        0 <= i < m.users.len(),
    ensures
        m.user_by_phone_idx(m.users[i].phone_number) == i,
        m.has_phone(m.users[i].phone_number),
{
    let ph = m.users[i].phone_number;
    assert(m.has_phone(ph));
    let j = m.user_by_phone_idx(ph);
    assert(0 <= j < m.users.len() && m.users[j].phone_number == ph);
    assert(j == i);
}

} // verus!
