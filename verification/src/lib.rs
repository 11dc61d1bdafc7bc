//! A live "people clock" dashboard pipeline.
//!
//! The library builds a correlated snapshot of tracked people and the zones
//! they occupy from raw home-automation entity records, resolves photos for
//! each entity with a local-then-remote fallback, applies a privacy gate,
//! assembles the transmissible response, redistributes the latest snapshot
//! through a single-slot "latest wins" hand-off, and lays the result out as
//! a grid of photo tiles.
//!
//! All I/O — the backend HTTP calls, photo file reads, the network between
//! publisher and display, and the rendering itself — stays with the
//! embedding program, which hands the outcomes in as plain values.

pub mod clock_pb;
pub mod clock_service;
pub mod config;
pub mod env_params;
pub mod homeassistant;
pub mod homeassistant_types;
pub mod password;
pub mod photo_manager;
pub mod snapshot_manager;
pub mod text;
pub mod tile;
