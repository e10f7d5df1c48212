//! Distributed network-health monitor: verified core.
//!
//! A controller keeps the live health state of network *regions* and the
//! monitoring *groups* inside them, fed by heartbeats from relays that run
//! probes (ping, http, dns) against declared targets.  This crate holds the
//! verified heart of that system: the probe result interpretation, the wire
//! aggregation, the in-memory state store with its refresh and incident
//! transitions, the watchdog sweep that turns silence into incidents, and the
//! alert request builders.  Process bootstrap, sockets and terminal output
//! live outside the library.

pub mod alert;
pub mod clock;
pub mod config;
pub mod dict;
pub mod error;
pub mod model;
pub mod relay;
pub mod runner;
pub mod scheduler;
pub mod server;
pub mod storage;
pub mod text;
