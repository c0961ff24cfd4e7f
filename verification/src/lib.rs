//! Simulation core of a turn-based colony-management game.
//!
//! The crate models an underground colony as an entity store whose entities
//! are rooms, colonists, resource containers, and stationary equipment, and
//! advances it one discrete turn at a time: labor aggregation, construction
//! progress, hunger, and food consumption.

pub mod area;
pub mod base;
pub mod bootstrap;
pub mod people;
pub mod production;
pub mod queries;
pub mod resources;
pub mod storage;
pub mod turn;
pub mod world;
