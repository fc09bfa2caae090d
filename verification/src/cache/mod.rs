//! Caches and collections used as caches.

mod entry_order;
pub mod priority_set;
pub mod linear_collections;
pub mod object_pool;
mod pool_state;
pub mod tls;
