//! The plain records of a reported game: keys, map nodes, battle kinds, orbs and
//! counters.

use vstd::prelude::*;

use super::common::OrbType;

verus! {

#[derive(PartialEq, Eq, Structural, Clone, Copy, Debug)]
pub struct KeyState {
    pub ruby: bool,
    pub emerald: bool,
    pub sapphire: bool,
}

/// A node of a reported map: its floor, column, the columns it leads to, and its room.
#[derive(PartialEq, Eq, Clone, Debug)]
pub struct MapNode {
    pub floor: i8,
    pub x: i8,
    pub next: Vec<i8>,
    pub icon: MapNodeIcon,
}

#[derive(PartialEq, Eq, Structural, Clone, Copy, Debug)]
pub enum MapNodeIcon {
    Question,
    Elite,
    BurningElite,
    Campfire,
    Boss,
    Monster,
    Shop,
    Chest,
}

#[derive(PartialEq, Eq, Structural, Clone, Copy, Debug)]
pub enum BattleType {
    Common,
    Elite,
    Boss,
    Event,
}

#[derive(PartialEq, Eq, Structural, Clone, Copy, Debug)]
pub struct Orb {
    pub base: OrbType,
    pub n: u16,
}

#[derive(PartialEq, Eq, Structural, Clone, Copy, Debug)]
pub struct Vars {
    pub n: i16,
    pub n_reset: i16,
    pub x: i16,
}

} // verus!
