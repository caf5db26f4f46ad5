use vstd::prelude::*;

verus! {

/// An act of the game: its fights, elites, bosses and events.
#[derive(PartialEq, Eq, Hash, Clone, Debug)]
pub struct Act {
    pub num: u8,
    pub easy_count: u8,
    pub easy_fights: Vec<ProbabilisticFight>,
    pub normal_fights: Vec<ProbabilisticFight>,
    pub elites: Vec<MonsterSet>,
    pub bosses: Vec<Boss>,
    pub events: Vec<String>,
}

/// A boss and the monsters that it fights with.
#[derive(PartialEq, Eq, Hash, Clone, Debug)]
pub struct Boss {
    pub name: String,
    pub monsters: MonsterSet,
}

/// A fight that is picked with a weight among others.
#[derive(PartialEq, Eq, Hash, Clone, Debug)]
pub struct ProbabilisticFight {
    pub probability: u8,
    pub set: MonsterSet,
}

/// The monsters of a fight: fixed, `n` drawn from a list, or one list drawn from several.
#[derive(PartialEq, Eq, Hash, Clone, Debug)]
pub enum MonsterSet {
    Fixed(Vec<String>),
    ChooseN { n: u8, choices: Vec<String> },
    RandomSet(Vec<Vec<String>>),
}

} // verus!
