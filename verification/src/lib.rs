//! A verified core for a slippy-map tile service.
//!
//! Tiles are addressed by (parent map id, zoom, x, y, format).  The crate
//! holds the tile-coordinate math, the tiered cache model with TTL, ETag and
//! pattern invalidation, the image compositing and codec layer, and the
//! generation orchestrators for single tiles and bulk pyramids.  Network,
//! database and object-store plumbing live outside this crate and exchange
//! plain values with it.

pub mod cache;
pub mod config;
pub mod errors;
pub mod game;
pub mod generator;
pub mod image_model;
pub mod imaging;
pub mod models;
pub mod processor;
pub mod service;
pub mod spatial;
pub mod store;
pub mod strutil;
pub mod tile;
pub mod wkt;
