//! Core of a 2D robot-building simulation: robots are assembled at runtime
//! from discrete items (bodies, propulsion, cameras, lenses, batteries,
//! gauges) that plug into typed attachment points, forming a tree of jointed
//! bodies.
//!
//! This crate holds the verified heart of that game: the attachment-point
//! data model and its compatibility rules, the request/commit protocol that
//! turns an attachment intent into a recorded joint, the collision-filter
//! tags that keep a still-assembling sub-tree from colliding with itself,
//! and the power-gated command bus that routes motor and joint commands
//! through the robot's batteries.
//!
//! Entities live in an arena ([`world::World`]) and are referenced by index,
//! mirroring how an entity-component-system engine references entities by
//! opaque id. All scalar quantities (charge, force, speeds, damping) are
//! integers; where the surrounding engine works in fractional units, callers
//! scale to thousandths before handing values in.

pub mod types;
pub mod attachment;
pub mod tags;
pub mod components;
pub mod catalog;
pub mod world;
pub mod util;
pub mod commands;
pub mod builder;
pub mod laws;
pub mod assembly;
pub mod finish;
pub mod tick_intents;
pub mod tick_records;
pub mod finish2;
