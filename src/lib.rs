//! Turn-based simulation core of a grid-dungeon roguelike: dungeon generation,
//! the spatial map, visibility memory, monster decisions, melee and damage
//! resolution, and the turn scheduler.

mod rng;

pub mod rect;
pub mod map;
pub mod generation;
pub mod components;
pub mod world;
pub mod map_indexing;
pub mod visibility;
pub mod state;
pub mod ai;
pub mod combat;
pub mod player;
pub mod inventory;
pub mod spawner;
pub mod game;
