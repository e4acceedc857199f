//! Search: metadata filters and the knobs that shape a query.
pub mod engine;
pub mod params;
pub mod query;
pub mod ranking;
