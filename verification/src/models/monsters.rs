use vstd::prelude::*;

use super::common::{str_eq, Amount, Condition, Effect, FightType, When, WhenEffect};

verus! {

/// The definition of a monster.
#[derive(PartialEq, Eq, Hash, Debug)]
pub struct BaseMonster {
    pub name: String,
    pub hp_range: SimpleRange,
    pub hp_range_asc: SimpleRange,
    pub fight_type: FightType,
    pub moveset: Vec<MonsterMove>,
    pub phases: Vec<Phase>,
    pub n_range: Option<Range>,
    pub x_range: Option<Range>,
    pub effects: Vec<WhenEffect>,
}

/// A phase of a monster's moves.
#[derive(PartialEq, Eq, Hash, Debug)]
pub struct Phase {
    pub name: String,
    pub next: String,
    pub moves: Vec<Move>,
    pub when: When,
    pub when_condition: Condition,
}

/// A move that a monster makes.
#[derive(PartialEq, Eq, Hash, Debug)]
pub struct MonsterMove {
    pub name: String,
    pub effects: Vec<Effect>,
    pub intent: Intent,
}

impl MonsterMove {
    /// The move with an empty name, no effects and no intent.
    pub fn default() -> (res: Self)
        ensures
            res.name@ == Seq::<char>::empty(),
            res.effects@.len() == 0,
            res.intent == Intent::NoIntent,
    {
        MonsterMove { name: String::new(), effects: Vec::new(), intent: Intent::NoIntent }
    }
}

/// What a monster shows that it will do.
#[derive(PartialEq, Eq, Structural, Clone, Copy, Debug, Hash)]
pub enum Intent {
    Attack,
    AttackBuff,
    AttackDebuff,
    AttackDefend,
    Buff,
    Debuff,
    StrongDebuff,
    Defend,
    DefendDebuff,
    DefendBuff,
    Escape,
    NoIntent,
    Sleep,
    Stun,
    Unknown,
}

/// A step of a phase: a branch, a fixed move, or a move drawn by weight.
#[derive(PartialEq, Eq, Hash, Debug)]
pub enum Move {
    If { condition: Condition, then_phase: String, else_phase: String },
    Fixed(String),
    Probability(Vec<ProbabilisticMove>),
}

/// A move drawn with a weight, and how often it may repeat.
#[derive(PartialEq, Eq, Hash, Debug)]
pub struct ProbabilisticMove {
    pub name: String,
    pub weight: Amount,
    pub max_repeats: Amount,
}

/// A range of amounts.
#[derive(PartialEq, Eq, Hash, Debug)]
pub struct Range {
    pub min: Amount,
    pub max: Amount,
}

/// A range of numbers.
#[derive(PartialEq, Eq, Structural, Clone, Copy, Debug, Hash)]
pub struct SimpleRange {
    pub min: u16,
    pub max: u16,
}

/// Whether a catalog holds a monster of the given name.
pub open spec fn has_monster_named(monsters: Seq<&'static BaseMonster>, name: Seq<char>) -> bool {
    exists|i: int| 0 <= i < monsters.len() && (#[trigger] monsters[i]).name@ == name
}

/// The monster of the given name in a catalog of monsters: the first one of that name.
pub fn by_name(monsters: &[&'static BaseMonster], name: &str) -> (res: &'static BaseMonster)
    requires
        has_monster_named(monsters@, name@),
    ensures
        res.name@ == name@,
        exists|i: int|
            0 <= i < monsters@.len() && monsters@[i] == res && forall|j: int|
                0 <= j < i ==> (#[trigger] monsters@[j]).name@ != name@,
{
    let mut i: usize = 0;
    while i < monsters.len()
        invariant
            0 <= i <= monsters@.len(),
            has_monster_named(monsters@, name@),
            forall|j: int| 0 <= j < i ==> (#[trigger] monsters@[j]).name@ != name@,
        decreases monsters@.len() - i,
    {
        if str_eq(monsters[i].name.as_str(), name) {
            return monsters[i];
        }
        i = i + 1;
    }
    proof {
        let k = choose|k: int| 0 <= k < monsters@.len() && (#[trigger] monsters@[k]).name@ == name@;
        assert(monsters@[k].name@ != name@);
    }
    monsters[0]
}

} // verus!
