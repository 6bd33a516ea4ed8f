//! A layer-4 TCP load balancer: the dispatch decisions, peer data model,
//! selection strategies and IP filter, with their contracts.
//!
//! Health is probed in the background, on a timer, never on the dispatch
//! path. A peer's health flag is advisory: the strategies choose among all
//! peers, since a peer counts as unhealthy until its first probe completes.
pub mod address;
pub mod backend;
pub mod config;
pub mod errors;
pub mod ipv6;
pub mod least_connections;
pub mod load_balancer;
pub mod peer;
pub mod security;
pub mod selector;
pub mod selectors;
pub mod strategy;
pub mod target;
pub mod weighted;
