pub mod acts;
pub mod buffs;
pub mod cards;
pub mod choices;
pub mod common;
pub mod effects;
pub mod events;
pub mod monsters;
pub mod potions;
pub mod relics;
pub mod state;
