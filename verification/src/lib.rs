//! A small marketplace engine: sellers list products with stock and price,
//! buyers purchase quantities, and sellers settle (mark paid) individual or
//! bulk-grouped purchases. The engine state is an in-memory store of users,
//! products and purchases; every operation is specified as an exact state
//! transition. A stateless token service issues and verifies signed,
//! time-bound session credentials.

pub mod auth;
pub mod catalog;
pub mod client;
pub mod errors;
pub mod order;
pub mod purchase;
pub mod settle;
pub mod store;
pub mod summary;
pub mod token;
pub mod utils;
