//! What the other modules share: digests and directory locks.
pub mod hash;
pub mod lock;
