//! A feed-synchronization core: a store of feeds and items with idempotent
//! merge semantics, format-polymorphic feed parsing, conditional-fetch
//! interpretation, and the sizing rule of the bounded fetch pool.

pub mod coord;
pub mod database;
pub mod digest;
pub mod feed;
pub mod fetch;
