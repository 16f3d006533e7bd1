//! Proxy dispatch core: addresses and sessions, routing rules, tagged handler
//! registries, and the decisions of address resolution and dispatch.

pub mod text;
pub mod address;
pub mod ipv6;
pub mod session;
pub mod route;
pub mod handler;
pub mod manager;
pub mod resolve;
pub mod dispatch;
