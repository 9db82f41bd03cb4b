//! Procedural dungeon generation (a random-walk spanning tree over a logical
//! grid, expanded into a tile grid), turn scheduling, and the combat rules
//! and enemy policies of a tile-based dungeon crawler.
pub mod battle;
pub mod combat;
pub mod dialogue;
pub mod expand;
pub mod grid;
pub mod lookahead;
pub mod maze;
pub mod policy;
pub mod rng;
pub mod stats;
pub mod turn_order;
