//! Endpoint registry, health-state tracking and request dispatch decisions
//! for an OCR API gateway that fronts a pool of backend OCR workers.
pub mod radix_fmt;
pub mod text;
mod clock;
pub mod endpoint;
pub mod watcher;
pub mod public;
pub mod dispatch;
pub mod auth;
pub mod id;
pub mod logger;
pub mod admin;
pub mod config;
