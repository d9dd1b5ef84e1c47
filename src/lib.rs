//! A two-party rock-paper-scissors game book: matches keyed by the ordered
//! pair (host, opponent), listed by either participant through two ordered
//! secondary indices, with a participation blacklist and a single admin.

pub mod moves;
pub mod order;
pub mod error;
pub mod store;
pub mod access;
pub mod msg;
pub mod contract;
