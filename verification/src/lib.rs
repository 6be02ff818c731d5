//! A colony of orcs and wildlife on a tile map, advanced one tick at a time.

pub mod animal;
pub mod app;
pub mod chance;
pub mod color;
pub mod display;
pub mod event;
pub mod frontier;
pub mod input;
pub mod orc;
pub mod pathfinding;
pub mod text;
pub mod world;
