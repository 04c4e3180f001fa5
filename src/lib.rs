//! A product catalogue: a category forest with subtree resolution, paged
//! product listings, and the decisions of an administrator session guard.

pub mod auth;
pub mod crypto;
pub mod catalogue;
pub mod cookies;
pub mod errors;
pub mod hierarchy;
pub mod models;
pub mod request;
