//! Chain-state engine of a proof-of-work blockchain node: block admission,
//! fork detection by cumulative work, bounded reorganizations, and the
//! unspent-output set kept consistent across them.
pub mod hashing;
pub mod types;
pub mod codec;
pub mod work;
pub mod store;
pub mod chain;
pub mod laws;
