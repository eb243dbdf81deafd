//! Nearest-unit dispatch on a road network: a weighted graph with
//! single-source shortest distances, a per-source distance cache, a
//! multi-target nearest query, and the policy that picks a unit for an order.

pub mod api;
pub mod auth;
pub mod dispatch;
pub mod errors;
pub mod graph;
pub mod laws;
pub mod paths;
pub mod relax;
pub mod utils;

