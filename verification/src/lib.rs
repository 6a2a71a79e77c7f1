//! Chunk streaming and surface extraction for a block world.
//!
//! The world is an unbounded grid of unit blocks. It is partitioned into
//! square columnar regions of a configured horizontal size; each region owns
//! a finite block grid, generated deterministically from per-column terrain
//! heights and a configuration of depth bands and an optional water level.
//! The terrain sampler that produces those heights is the embedder's — a
//! seeded noise field, say — and must be defined over the whole signed
//! coordinate domain; the library consumes its plain integer samples.
//! Renderable geometry is derived from a region's grid by face culling: a
//! quad is emitted for a block face exactly when the neighboring cell in
//! that direction holds no block. A store tracks each region's lifecycle
//! (active, cached, evicted) as an observer moves, and a controller turns an
//! observer position into the transitions of one streaming tick.

pub mod block;
pub mod config;
pub mod controller;
pub mod coords;
pub mod region;
pub mod store;
pub mod surface;
