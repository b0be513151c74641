//! A discrete-time resource-flow simulation on an integer grid.
//!
//! Entities hold a quantity of one resource and pull it each tick from their
//! neighbours above and to the left.

pub mod resource;
pub mod entities;
pub mod laws;
pub mod world;
