//! Retrieving packages and indices, and keeping them.
pub mod cache;
pub mod checkout;
pub mod indices;
pub mod load;
