//! DriftDNS: the decisions of a dynamic DNS updater, with their contracts.
//!
//! The updater detects the public address of the host, compares it with the
//! history of addresses it recorded, updates the DNS records that hold it,
//! and advances the history once every record of a type is current.

mod clock;
pub mod cloudflare;
pub mod config;
pub mod detector;
pub mod dns;
pub mod history;
pub mod ip;
pub mod logger;
pub mod runner;
pub mod text;
pub mod web;
