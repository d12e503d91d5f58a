//! The decision logic of a small TCP load-balancing proxy: target and app-name
//! validation, configuration checks, load-balancing strategies, health-check
//! state machines and the per-connection choice of targets.

pub mod time;
pub mod domain;
pub mod config;
pub mod balancer;
pub mod health;
pub mod worker;
