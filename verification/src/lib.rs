//! A Slay the Spire game model: the cards, buffs, relics, monsters and map of a
//! run, the state of a floor, and the protocol through which a game client is
//! read and answered.

pub mod comm;
pub mod models;
pub mod serialization;
pub mod spireai;
pub mod state;
