//! Bodies of the administrative mutation requests.

pub mod create;
pub mod delete;
