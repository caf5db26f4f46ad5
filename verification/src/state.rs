pub mod battle;
pub mod collections;
pub mod common;
pub mod event;
pub mod floor;
pub mod game;
pub mod map;
pub mod probability;
pub mod shop;
