//! Turn-based simulation core of a small roguelike: an entity store with typed
//! components, an initiative scheduler, entity decisions, and the systems that
//! resolve intents into movement, attacks, damage and death.

pub mod ai;
pub mod components;
pub mod engine;
pub mod geometry;
pub mod map;
pub mod tiles;
pub mod world;
pub mod event_log;
pub mod systems;
