//! Registration and login. Passwords are never stored: registration hashes
//! them with argon2 under a fresh random salt, and login checks the
//! submitted password against the stored hash. Bad credentials — an unknown
//! phone number or a wrong password — are refused as `Unauthorized` without
//! saying which of the two it was.

use vstd::prelude::*;
use vstd::string::StrSliceExecFns;

use crate::errors::AppError;
use crate::store::{lemma_phone_idx_unique, lemma_user_idx_unique, Store, StoreModel, User, UserView};

verus! {

/// Whether argon2's verifier accepts the password against the stored
/// PHC-format hash string. A function of the two arguments alone.
pub uninterp spec fn argon2_matches(password: Seq<char>, hash: Seq<char>) -> bool;

/// Relies on `argon2::Argon2::verify_password` (through
/// `PasswordHash::new`): whether the PHC-format hash string matches the
/// password, recomputed with the salt and parameters the string carries — a
/// pure function of the two arguments. Any parse or verification failure
/// counts as no match.
#[verifier::external_body]
fn argon2_check(password: &str, hash: &str) -> (r: bool)
    ensures
        r == argon2_matches(password@, hash@),
{
    argon2::PasswordVerifier::verify_password(
        &argon2::Argon2::default(),
        password.as_bytes(),
        hash,
    ).is_ok()
}

/// Relies on `argon2::Argon2::hash_password`: hashes the password under a
/// fresh random salt into a PHC-format string that the same algorithm's
/// verifier accepts for this password. The salt is random, so nothing more
/// is promised of the string.
#[verifier::external_body]
fn argon2_hash(password: &str) -> (r: Option<String>)
    ensures
        r matches Some(h) ==> argon2_matches(password@, h@),
{
    match argon2::PasswordHasher::hash_password(&argon2::Argon2::default(), password.as_bytes()) {
        Ok(h) => Some(h.to_string()),
        Err(_) => None,
    }
}

/// A decimal digit character.
pub open spec fn is_digit_char(c: char) -> bool {
    48 <= c as u32 <= 57
}

/// A valid phone number: exactly nine decimal digits.
pub open spec fn valid_phone(phone: Seq<char>) -> bool {
    phone.len() == 9 && forall|i: int| 0 <= i < phone.len() ==> is_digit_char(#[trigger] phone[i])
}

/// Checks that the string is exactly nine decimal digits.
fn is_valid_phone(phone: &str) -> (r: bool)
    ensures
        r == valid_phone(phone@),
{
    let n = phone.unicode_len();
    if n != 9 {
        return false;
    }
    for i in 0..9usize
        invariant
            phone@.len() == 9,
            forall|k: int| 0 <= k < i ==> is_digit_char(#[trigger] phone@[k]),
    {
        let c = phone.get_char(i);
        let cu = c as u32;
        if cu < 48 || cu > 57 {
            return false;
        }
    }
    true
}

/// Why a registration's fields are refused, or `None` when they pass: the
/// name must be non-empty and at most thirty characters, the phone number
/// exactly nine digits, the password at least eight characters.
pub open spec fn register_field_error(
    name: Seq<char>,
    phone: Seq<char>,
    password: Seq<char>,
) -> Option<AppError> {
    if name.len() == 0 {
        Some(AppError::BadInput("name can't be empty"))
    } else if name.len() > 30 {
        Some(AppError::BadInput("name can't be longer than 30"))
    } else if !valid_phone(phone) {
        Some(AppError::BadInput("phone number must be 9 digits long"))
    } else if password.len() < 8 {
        Some(AppError::BadInput("password must be at least 8 characters"))
    } else {
        None
    }
}

impl StoreModel {
    /// Why the store refuses to create the user, or `None` when it will:
    /// the phone number must be new, and a user id must be left.
    pub open spec fn register_store_error(self, phone: Seq<char>) -> Option<AppError> {
        if self.has_phone(phone) {
            Some(AppError::DuplicateUser)
        } else if self.next_user_id == u32::MAX {
            Some(AppError::Internal)
        } else {
            None
        }
    }

    /// The state after a granted registration: one new user row under the
    /// next free id, carrying the given password hash. Nothing else
    /// changes.
    pub open spec fn register_next(
        self,
        name: Seq<char>,
        phone: Seq<char>,
        hashed_password: Seq<char>,
    ) -> StoreModel {
        StoreModel {
            users: self.users.push(
                UserView {
                    id: self.next_user_id,
                    name,
                    phone_number: phone,
                    hashed_password,
                },
            ),
            next_user_id: (self.next_user_id + 1) as u32,
            ..self
        }
    }

    /// Whether the phone number and password name a user: the phone is
    /// registered and argon2 accepts the password against that user's
    /// stored hash.
    pub open spec fn login_ok(self, phone: Seq<char>, password: Seq<char>) -> bool {
        self.has_phone(phone) && argon2_matches(
            password,
            self.user_by_phone(phone).hashed_password,
        )
    }
}

/// A granted registration preserves well-formedness of the store.
pub proof fn lemma_register_next_wf(
    m: StoreModel,
    name: Seq<char>,
    phone: Seq<char>,
    hashed_password: Seq<char>,
)
    requires
        m.wf(),
        m.register_store_error(phone) is None,
    ensures
        m.register_next(name, phone, hashed_password).wf(),
{
    let m2 = m.register_next(name, phone, hashed_password);
    assert(m2.users.last().id == m.next_user_id);
    assert(forall|k: int| 0 <= k < m.users.len() ==> (#[trigger] m2.users[k]) == m.users[k]);
    assert(m2.users_wf()) by {
        assert forall|k: int| 0 <= k < m.users.len() implies m.users[k].phone_number != phone by {
            if m.users[k].phone_number == phone {
                assert(m.has_phone(phone));
            }
        }
    }
    assert(forall|uid: u32| #[trigger] m.has_user(uid) ==> m2.has_user(uid)) by {
        assert(forall|uid: u32| #[trigger] m.has_user(uid) ==> {
            let k = m.user_idx(uid);
            0 <= k < m2.users.len() && m2.users[k].id == uid
        });
    }
    assert(forall|pid: u32| m.has_product(pid) ==> m2.has_product(pid));
}

/// The public view of a user: everything but the password hash.
pub struct UserInfo {
    pub id: u32,
    pub name: String,
    pub phone_number: String,
}

impl Store {
    /// Creates a user from already-validated fields and a finished password
    /// hash: refuses a phone number that is already registered
    /// (`DuplicateUser`), stores the row under the next free id otherwise,
    /// and returns that id.
    pub fn register_hashed(&mut self, name: &str, phone: &str, hashed_password: String) -> (r:
        Result<u32, AppError>)
        requires
            old(self)@.wf(),
        ensures
            final(self)@.wf(),
            match r {
                Ok(uid) => {
                    &&& old(self)@.register_store_error(phone@) is None
                    &&& uid == old(self)@.next_user_id
                    &&& final(self)@ == old(self)@.register_next(
                        name@,
                        phone@,
                        hashed_password@,
                    )
                },
                Err(e) => {
                    &&& old(self)@.register_store_error(phone@) == Some(e)
                    &&& final(self)@ == old(self)@
                },
            },
    {
        let phone_owned = phone.to_owned();
        if self.find_user_by_phone(&phone_owned).is_some() {
            return Err(AppError::DuplicateUser);
        }
        if self.next_user_id == u32::MAX {
            return Err(AppError::Internal);
        }
        let uid = self.next_user_id;
        let user = User {
            id: uid,
            name: name.to_owned(),
            phone_number: phone_owned,
            hashed_password,
        };
        self.users.push(user);
        self.next_user_id = self.next_user_id + 1;
        proof {
            let m = old(self)@;
            assert(final(self)@.users =~= m.users.push(
                UserView {
                    id: uid,
                    name: name@,
                    phone_number: phone@,
                    hashed_password: hashed_password@,
                },
            ));
            assert(final(self)@ =~= m.register_next(name@, phone@, hashed_password@));
            lemma_register_next_wf(m, name@, phone@, hashed_password@);
        }
        Ok(uid)
    }

    /// Registers a user: validates the fields (`BadInput` names the first
    /// failing one), refuses a phone number that is already registered
    /// (`DuplicateUser`), hashes the password under a fresh random salt, and
    /// stores the new row. On success the stored hash matches the submitted
    /// password; a hashing failure is `Internal` and changes nothing.
    pub fn register(&mut self, name: &str, phone: &str, password: &str) -> (r: Result<
        u32,
        AppError,
    >)
        requires
            old(self)@.wf(),
        ensures
            final(self)@.wf(),
            match r {
                Ok(uid) => {
                    &&& register_field_error(name@, phone@, password@) is None
                    &&& old(self)@.register_store_error(phone@) is None
                    &&& uid == old(self)@.next_user_id
                    &&& final(self)@.users.len() == old(self)@.users.len() + 1
                    &&& final(self)@.users.drop_last() == old(self)@.users
                    &&& ({
                        let u = final(self)@.users.last();
                        &&& u.id == uid
                        &&& u.name == name@
                        &&& u.phone_number == phone@
                        &&& argon2_matches(password@, u.hashed_password)
                    })
                    &&& final(self)@.products == old(self)@.products
                    &&& final(self)@.purchases == old(self)@.purchases
                    &&& final(self)@.next_user_id == old(self)@.next_user_id + 1
                    &&& final(self)@.next_product_id == old(self)@.next_product_id
                    &&& final(self)@.next_purchase_id == old(self)@.next_purchase_id
                },
                Err(e) => {
                    &&& final(self)@ == old(self)@
                    &&& if register_field_error(name@, phone@, password@) is Some {
                        register_field_error(name@, phone@, password@) == Some(e)
                    } else if old(self)@.register_store_error(phone@) is Some {
                        old(self)@.register_store_error(phone@) == Some(e)
                    } else {
                        e == AppError::Internal
                    }
                },
            },
    {
        if name.is_empty() {
            return Err(AppError::BadInput("name can't be empty"));
        }
        if name.unicode_len() > 30 {
            return Err(AppError::BadInput("name can't be longer than 30"));
        }
        if !is_valid_phone(phone) {
            return Err(AppError::BadInput("phone number must be 9 digits long"));
        }
        if password.unicode_len() < 8 {
            return Err(AppError::BadInput("password must be at least 8 characters"));
        }
        let phone_owned = phone.to_owned();
        if self.find_user_by_phone(&phone_owned).is_some() {
            return Err(AppError::DuplicateUser);
        }
        if self.next_user_id == u32::MAX {
            return Err(AppError::Internal);
        }
        let hash = match argon2_hash(password) {
            Some(h) => h,
            None => {
                return Err(AppError::Internal);
            },
        };
        let r = self.register_hashed(name, phone, hash);
        proof {
            assert(r is Ok);
        }
        r
    }

    /// Resolves the phone number and checks the password against the stored
    /// argon2 hash; bad credentials — an unknown phone number or a wrong
    /// password — are `Unauthorized` without saying which. Returns the
    /// user's id.
    pub fn login(&self, phone: &String, password: &str) -> (r: Result<u32, AppError>)
        requires
            self@.wf(),
        ensures
            match r {
                Ok(uid) => self@.login_ok(phone@, password@) && uid == self@.user_by_phone(
                    phone@,
                ).id,
                Err(e) => e == AppError::Unauthorized && !self@.login_ok(phone@, password@),
            },
    {
        let ui = match self.find_user_by_phone(phone) {
            Some(i) => i,
            None => {
                return Err(AppError::Unauthorized);
            },
        };
        proof {
            lemma_phone_idx_unique(self@, ui as int);
        }
        if argon2_check(password, self.users[ui].hashed_password.as_str()) {
            Ok(self.users[ui].id)
        } else {
            Err(AppError::Unauthorized)
        }
    }

    /// The current user's public record: id, display name and phone number.
    pub fn user_info(&self, user_id: u32) -> (r: Result<UserInfo, AppError>)
        requires
            self@.wf(),
        ensures
            match r {
                Ok(u) => {
                    &&& self@.has_user(user_id)
                    &&& u.id == self@.user_at(user_id).id
                    &&& u.name@ == self@.user_at(user_id).name
                    &&& u.phone_number@ == self@.user_at(user_id).phone_number
                },
                Err(e) => e == AppError::NoSuchUser && !self@.has_user(user_id),
            },
    {
        match self.find_user(user_id) {
            Some(i) => {
                proof {
                    lemma_user_idx_unique(self@, i as int);
                }
                Ok(
                    UserInfo {
                        id: self.users[i].id,
                        name: self.users[i].name.clone(),
                        phone_number: self.users[i].phone_number.clone(),
                    },
                )
            },
            None => Err(AppError::NoSuchUser),
        }
    }
}

} // verus!
