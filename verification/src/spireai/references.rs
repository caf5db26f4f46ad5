use vstd::prelude::*;
use vstd::std_specs::cmp::PartialEqSpecImpl;

use crate::models::buffs::BaseBuff;
use crate::models::cards::BaseCard;
use crate::models::common::{CardLocation, Target};
use crate::models::monsters::BaseMonster;
use crate::models::potions::BasePotion;
use crate::models::relics::BaseRelic;

verus! {

/// A card in a pile of a battle: two references are the same card when their
/// identifier and pile agree.
#[derive(Eq, Debug, Clone, Copy)]
pub struct CardReference {
    pub location: CardLocation,
    pub uuid: u128,
    pub base: &'static BaseCard,
}

impl PartialEq for CardReference {
    fn eq(&self, other: &CardReference) -> (res: bool) {
        self.uuid == other.uuid && self.location == other.location
    }
}

impl PartialEqSpecImpl for CardReference {
    open spec fn obeys_eq_spec() -> bool {
        true
    }

    open spec fn eq_spec(&self, other: &CardReference) -> bool {
        self.uuid == other.uuid && self.location == other.location
    }
}

impl std::hash::Hash for CardReference {
    /// Feeds the identifier and the pile to the hasher, as equality compares them.
    #[verifier::external_body]
    fn hash<H: std::hash::Hasher>(&self, state: &mut H) {
        self.uuid.hash(state);
        self.location.hash(state)
    }
}

/// A monster of a battle, identified by its identifier alone.
#[derive(Eq, Debug, Clone, Copy)]
pub struct MonsterReference {
    pub base: &'static BaseMonster,
    pub uuid: u128,
}

impl PartialEq for MonsterReference {
    fn eq(&self, other: &MonsterReference) -> (res: bool) {
        self.uuid == other.uuid
    }
}

impl PartialEqSpecImpl for MonsterReference {
    open spec fn obeys_eq_spec() -> bool {
        true
    }

    open spec fn eq_spec(&self, other: &MonsterReference) -> bool {
        self.uuid == other.uuid
    }
}

impl std::hash::Hash for MonsterReference {
    /// Feeds the identifier to the hasher, as equality compares it alone.
    #[verifier::external_body]
    fn hash<H: std::hash::Hasher>(&self, state: &mut H) {
        self.uuid.hash(state)
    }
}

impl MonsterReference {
    /// The creature that this monster is.
    pub fn creature_ref(self) -> (res: CreatureReference)
        ensures
            res == CreatureReference::Creature(self),
    {
        CreatureReference::Creature(self)
    }
}

/// Whether two creature references name the same creature: both the player, or
/// monsters of the same identifier.
pub open spec fn same_creature(a: CreatureReference, b: CreatureReference) -> bool {
    match (a, b) {
        (CreatureReference::Player, CreatureReference::Player) => true,
        (CreatureReference::Creature(x), CreatureReference::Creature(y)) => x.uuid == y.uuid,
        _ => false,
    }
}

/// The player, or a monster.
#[derive(Eq, Debug, Clone, Copy, Hash)]
pub enum CreatureReference {
    Player,
    Creature(MonsterReference),
}

impl PartialEq for CreatureReference {
    fn eq(&self, other: &CreatureReference) -> (res: bool) {
        match (self, other) {
            (CreatureReference::Player, CreatureReference::Player) => true,
            (CreatureReference::Creature(a), CreatureReference::Creature(b)) => a.uuid == b.uuid,
            _ => false,
        }
    }
}

impl PartialEqSpecImpl for CreatureReference {
    open spec fn obeys_eq_spec() -> bool {
        true
    }

    open spec fn eq_spec(&self, other: &CreatureReference) -> bool {
        same_creature(*self, *other)
    }
}

impl CreatureReference {
    /// The monster that this creature is, if it is one.
    pub fn monster_ref(self) -> (res: Option<MonsterReference>)
        ensures
            res == (match self {
                CreatureReference::Player => None,
                CreatureReference::Creature(monster) => Some(monster),
            }),
    {
        match self {
            CreatureReference::Player => None,
            CreatureReference::Creature(monster) => Some(monster),
        }
    }
}

/// A buff of a creature: two references are the same buff when their creature and
/// identifier agree.
#[derive(Debug, Clone, Copy)]
pub struct BuffReference {
    pub base: &'static BaseBuff,
    pub creature: CreatureReference,
    pub buff: u128,
}

impl PartialEq for BuffReference {
    fn eq(&self, other: &BuffReference) -> (res: bool) {
        self.creature == other.creature && self.buff == other.buff
    }
}

impl PartialEqSpecImpl for BuffReference {
    open spec fn obeys_eq_spec() -> bool {
        true
    }

    open spec fn eq_spec(&self, other: &BuffReference) -> bool {
        same_creature(self.creature, other.creature) && self.buff == other.buff
    }
}

impl std::hash::Hash for BuffReference {
    /// Feeds the identifier and the creature to the hasher, as equality compares them.
    #[verifier::external_body]
    fn hash<H: std::hash::Hasher>(&self, state: &mut H) {
        self.buff.hash(state);
        self.creature.hash(state)
    }
}

/// A potion in a slot: two references are the same potion when their slot agrees.
#[derive(Debug, Clone, Copy)]
pub struct PotionReference {
    pub base: &'static BasePotion,
    pub index: usize,
}

impl PartialEq for PotionReference {
    fn eq(&self, other: &PotionReference) -> (res: bool) {
        self.index == other.index
    }
}

impl PartialEqSpecImpl for PotionReference {
    open spec fn obeys_eq_spec() -> bool {
        true
    }

    open spec fn eq_spec(&self, other: &PotionReference) -> bool {
        self.index == other.index
    }
}

impl std::hash::Hash for PotionReference {
    /// Feeds the slot to the hasher, as equality compares it alone.
    #[verifier::external_body]
    fn hash<H: std::hash::Hasher>(&self, state: &mut H) {
        self.index.hash(state);
    }
}

/// A relic of the player, identified by its identifier alone.
#[derive(Debug, Eq, Clone, Copy)]
pub struct RelicReference {
    pub base: &'static BaseRelic,
    pub relic: u128,
}

impl PartialEq for RelicReference {
    fn eq(&self, other: &RelicReference) -> (res: bool) {
        self.relic == other.relic
    }
}

impl PartialEqSpecImpl for RelicReference {
    open spec fn obeys_eq_spec() -> bool {
        true
    }

    open spec fn eq_spec(&self, other: &RelicReference) -> bool {
        self.relic == other.relic
    }
}

impl std::hash::Hash for RelicReference {
    /// Feeds the identifier to the hasher, as equality compares it alone.
    #[verifier::external_body]
    fn hash<H: std::hash::Hasher>(&self, state: &mut H) {
        self.relic.hash(state);
    }
}

/// What an effect is bound to.
#[derive(Debug, Clone, Copy)]
pub enum Binding {
    Buff(BuffReference),
    Card(CardReference),
    Creature(CreatureReference),
    Potion(PotionReference),
    Relic(RelicReference),
}

/// The creature that a binding acts for: the buff's creature, the creature itself,
/// and the player for cards, potions and relics.
pub open spec fn binding_creature(binding: Binding) -> CreatureReference {
    match binding {
        Binding::Buff(buff) => buff.creature,
        Binding::Card(_) => CreatureReference::Player,
        Binding::Potion(_) => CreatureReference::Player,
        Binding::Relic(_) => CreatureReference::Player,
        Binding::Creature(creature) => creature,
    }
}

impl Binding {
    /// The creature that this binding acts for.
    pub fn creature_ref(self) -> (res: CreatureReference)
        ensures
            res == binding_creature(self),
    {
        match self {
            Binding::Buff(buff) => buff.creature,
            Binding::Card(_) => CreatureReference::Player,
            Binding::Potion(_) => CreatureReference::Player,
            Binding::Relic(_) => CreatureReference::Player,
            Binding::Creature(creature) => creature,
        }
    }

    /// The monster that this binding acts for, if it acts for one.
    pub fn monster_ref(self) -> (res: Option<MonsterReference>)
        ensures
            res == (match binding_creature(self) {
                CreatureReference::Player => None,
                CreatureReference::Creature(monster) => Some(monster),
            }),
    {
        self.creature_ref().monster_ref()
    }
}

/// An action in progress: whether it is an attack, who acts, and at whom.
#[derive(Eq, Clone, Copy, Debug)]
pub struct GameAction {
    pub is_attack: bool,
    pub creature: CreatureReference,
    pub target: Option<CreatureReference>,
}

impl PartialEq for GameAction {
    fn eq(&self, other: &GameAction) -> (res: bool) {
        self.is_attack == other.is_attack && self.creature == other.creature && match (
            self.target,
            other.target,
        ) {
            (None, None) => true,
            (Some(a), Some(b)) => a == b,
            _ => false,
        }
    }
}

impl PartialEqSpecImpl for GameAction {
    open spec fn obeys_eq_spec() -> bool {
        true
    }

    open spec fn eq_spec(&self, other: &GameAction) -> bool {
        self.is_attack == other.is_attack && same_creature(self.creature, other.creature) && match (
            self.target,
            other.target,
        ) {
            (None, None) => true,
            (Some(a), Some(b)) => same_creature(a, b),
            _ => false,
        }
    }
}

/// Whether a target names a single creature that can be found from a binding and an
/// action: itself, the attacker of an attack, the targeted creature, or the player.
pub open spec fn target_resolves(target: Target, binding: Binding, action: Option<GameAction>) -> bool {
    match target {
        Target::_Self | Target::Player => true,
        Target::Attacker => action is Some && action->0.is_attack,
        Target::TargetMonster => action is Some && action->0.target is Some,
        _ => false,
    }
}

/// The creature that a target names.
pub open spec fn target_creature(target: Target, binding: Binding, action: Option<GameAction>) -> CreatureReference {
    match target {
        Target::_Self => binding_creature(binding),
        Target::Attacker => action->0.creature,
        Target::TargetMonster => action->0.target->0,
        _ => CreatureReference::Player,
    }
}

impl Target {
    /// The creature that this target names, given the binding of the effect and the
    /// action in progress.
    pub fn creature_ref(self, binding: Binding, action: Option<GameAction>) -> (res:
        CreatureReference)
        requires
            target_resolves(self, binding, action),
        ensures
            res == target_creature(self, binding, action),
    {
        match self {
            Target::_Self => binding.creature_ref(),
            Target::Attacker => {
                let action = action.unwrap();
                action.creature
            },
            Target::TargetMonster => action.unwrap().target.unwrap(),
            _ => CreatureReference::Player,
        }
    }
}

} // verus!
