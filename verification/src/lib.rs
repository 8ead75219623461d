//! A bounded-memory cache for decoded, possibly animated images.
//!
//! The cache maps a path key to an entry (an ordered sequence of frames),
//! tracks the recency of every entry, and keeps the running byte total of all
//! cached pixel buffers under a caller-supplied budget by evicting the least
//! recently used entries first.

pub mod cache;
pub mod model;
pub mod store;
pub mod util;
