use vstd::prelude::*;
use vstd::std_specs::cmp::PartialEqSpec;

use super::buffs::BaseBuff;
use super::relics::BaseRelic;

verus! {

/// The rarity of a card, relic or potion.
#[derive(PartialEq, Eq, Structural, Clone, Copy, Debug, Hash)]
pub enum Rarity {
    Starter,
    Common,
    Uncommon,
    Rare,
    Special,
    Event,
    Status,
    Shop,
    Boss,
}

/// The rank by which rarities are ordered: rare above uncommon above all the others,
/// which are all equal to each other.
pub open spec fn rarity_rank(r: Rarity) -> int {
    match r {
        Rarity::Rare => 2,
        Rarity::Uncommon => 1,
        _ => 0,
    }
}

impl Rarity {
    /// Compares two rarities by their rank.
    pub fn cmp(&self, other: &Self) -> (res: std::cmp::Ordering)
        ensures
            res == (if rarity_rank(*self) < rarity_rank(*other) {
                std::cmp::Ordering::Less
            } else if rarity_rank(*self) == rarity_rank(*other) {
                std::cmp::Ordering::Equal
            } else {
                std::cmp::Ordering::Greater
            }),
    {
        match self {
            Rarity::Rare => match other {
                Rarity::Rare => std::cmp::Ordering::Equal,
                _ => std::cmp::Ordering::Greater,
            },
            Rarity::Uncommon => match other {
                Rarity::Rare => std::cmp::Ordering::Less,
                Rarity::Uncommon => std::cmp::Ordering::Equal,
                _ => std::cmp::Ordering::Greater,
            },
            _ => match other {
                Rarity::Rare | Rarity::Uncommon => std::cmp::Ordering::Less,
                _ => std::cmp::Ordering::Equal,
            },
        }
    }

    /// The partial comparison, which is always defined and agrees with `cmp`.
    pub fn partial_cmp(&self, other: &Self) -> (res: Option<std::cmp::Ordering>)
        ensures
            res == Some(if rarity_rank(*self) < rarity_rank(*other) {
                std::cmp::Ordering::Less
            } else if rarity_rank(*self) == rarity_rank(*other) {
                std::cmp::Ordering::Equal
            } else {
                std::cmp::Ordering::Greater
            }),
    {
        Some(self.cmp(other))
    }
}

impl Default for Rarity {
    /// The default rarity is common.
    fn default() -> (res: Self)
        ensures
            res == Rarity::Common,
    {
        Rarity::Common
    }
}

/// Comparing two rarities one way gives the reverse of comparing them the other way.
pub proof fn lemma_rarity_cmp_antisymmetric(a: Rarity, b: Rarity)
    ensures
        (rarity_rank(a) < rarity_rank(b)) == (rarity_rank(b) > rarity_rank(a)),
        (rarity_rank(a) == rarity_rank(b)) == (rarity_rank(b) == rarity_rank(a)),
{
}

/// The order of rarities is a total preorder: every two rarities compare, and the
/// comparison is transitive.
pub proof fn lemma_rarity_order_total_preorder(a: Rarity, b: Rarity, c: Rarity)
    ensures
        rarity_rank(a) <= rarity_rank(b) || rarity_rank(b) <= rarity_rank(a),
        rarity_rank(a) <= rarity_rank(b) && rarity_rank(b) <= rarity_rank(c) ==> rarity_rank(a)
            <= rarity_rank(c),
        rarity_rank(a) <= rarity_rank(a),
{
}

/// A character class, or a pseudo-class of cards.
#[derive(PartialEq, Eq, Structural, Clone, Copy, Debug, Hash)]
pub enum Class {
    All,
    Colorless,
    Ironclad,
    Silent,
    Defect,
    Watcher,
    Curse,
}

impl Default for Class {
    /// The default class is `All`.
    fn default() -> (res: Self)
        ensures
            res == Class::All,
    {
        Class::All
    }
}

#[derive(PartialEq, Eq, Structural, Clone, Copy, Debug, Hash)]
pub enum OrbType {
    Lightning,
    Dark,
    Frost,
    Plasma,
    Any,
}

#[derive(PartialEq, Eq, Structural, Clone, Copy, Debug, Hash)]
pub enum Stance {
    Calm,
    Wrath,
    Divinity,
    Neutral,
    All,
}

impl Default for Stance {
    /// The default stance is `All`.
    fn default() -> (res: Self)
        ensures
            res == Stance::All,
    {
        Stance::All
    }
}

#[derive(PartialEq, Eq, Structural, Clone, Copy, Debug, Hash)]
pub enum FightType {
    Common,
    Elite { burning: bool },
    Boss,
}

impl Default for FightType {
    /// The default fight is a common one.
    fn default() -> (res: Self)
        ensures
            res == FightType::Common,
    {
        FightType::Common
    }
}

#[derive(PartialEq, Eq, Structural, Clone, Copy, Debug, Hash)]
pub enum RoomType {
    Rest,
    Shop,
    Question,
    Fight(FightType),
    Event,
    Treasure,
    All,
}

#[derive(PartialEq, Eq, Structural, Clone, Copy, Debug, Hash)]
pub enum ChestType {
    Large,
    Medium,
    Small,
    Boss,
}

// ------------------- Evaluation -------------------------------
/// An amount named by a card, buff, relic or monster move.
#[derive(PartialEq, Eq, Hash, Debug)]
pub enum Amount {
    ByAsc { amount: i16, low: i16, high: i16 },
    Upgradable { amount: i16, upgraded: i16 },
    Fixed(i16),
    Sum(Vec<Amount>),
    Mult(Vec<Amount>),
    X,
    NegX,
    N,
    OrbCount,
    EnemyCount,
    PlayerBlock,
    MaxHp,
    Blizzard,
    Shield,
    Custom,
}

impl Default for Amount {
    /// The default amount is a fixed one.
    fn default() -> (res: Self)
        ensures
            res matches Amount::Fixed(n) && n == 1,
    {
        Amount::Fixed(1)
    }
}

#[derive(PartialEq, Eq, Structural, Clone, Copy, Debug, Hash)]
pub enum CardDestination {
    DrawPile(RelativePosition),
    PlayerHand,
    ExhaustPile,
    DiscardPile,
}

/// The pile that a destination puts a card in.
pub open spec fn destination_location(d: CardDestination) -> CardLocation {
    match d {
        CardDestination::DrawPile(_) => CardLocation::DrawPile,
        CardDestination::PlayerHand => CardLocation::PlayerHand,
        CardDestination::ExhaustPile => CardLocation::ExhaustPile,
        CardDestination::DiscardPile => CardLocation::DiscardPile,
    }
}

impl CardDestination {
    /// The pile that this destination puts a card in.
    pub fn location(self) -> (res: CardLocation)
        ensures
            res == destination_location(self),
    {
        match self {
            CardDestination::DrawPile(_) => CardLocation::DrawPile,
            CardDestination::PlayerHand => CardLocation::PlayerHand,
            CardDestination::ExhaustPile => CardLocation::ExhaustPile,
            CardDestination::DiscardPile => CardLocation::DiscardPile,
        }
    }
}

#[derive(PartialEq, Eq, Structural, Clone, Copy, Debug, Hash)]
pub enum CardLocation {
    DrawPile,
    PlayerHand,
    ExhaustPile,
    DiscardPile,
    Unplaced,
}

#[derive(PartialEq, Eq, Structural, Clone, Copy, Debug, Hash)]
pub enum CardType {
    Attack,
    Skill,
    Power,
    Status,
    Curse,
    All,
}

impl Default for CardType {
    /// The default card type is `All`.
    fn default() -> (res: Self)
        ensures
            res == CardType::All,
    {
        CardType::All
    }
}

impl CardType {

    /// Whether a card of type `other` is one that this type selects: `All` selects
    /// every type, any other type only itself.
    pub open spec fn matches_spec(self, other: CardType) -> bool {
        self == CardType::All || self == other
    }

    /// Whether a card of type `other` is one that this type selects.
    pub fn matches(self, other: CardType) -> (res: bool)
        ensures
            res == self.matches_spec(other),
    {
        self == CardType::All || self == other
    }
}

/// A moment at which buffs, relics and monster effects trigger.
#[derive(PartialEq, Eq, Hash, Clone, Debug)]
pub enum When {
    BeforeHandDraw,
    AfterHandDraw,
    BeforeHandDiscard,
    BeforeEnemyMove,
    AfterEnemyMove,
    TurnEnd,
    CombatEnd,
    CombatStart,
    OnRecieveAttackDamage,
    OnReceiveUnblockedDamage,
    OnDealUnblockedDamage,
    OnHpLoss,
    OnHpChange,
    OnHalfHp,
    OnBlock,
    OnDie,
    OnEnemyDie,
    Discard,
    Exhaust,
    Scry,
    Shuffle,
    PlayCard(CardType),
    DrawCard(CardType),
    OnMove(String),
    OnLoseBuff(String),
    Never,
}

impl Default for When {
    /// The default moment is `Never`.
    fn default() -> (res: Self)
        ensures
            res is Never,
    {
        When::Never
    }
}

#[derive(PartialEq, Eq, Structural, Clone, Copy, Debug, Hash)]
pub enum RelativePosition {
    Bottom,
    Top,
    Random,
    All,
}

impl Default for RelativePosition {
    /// The default position is the bottom of a pile.
    fn default() -> (res: Self)
        ensures
            res == RelativePosition::Bottom,
    {
        RelativePosition::Bottom
    }
}

#[derive(PartialEq, Eq, Structural, Clone, Copy, Debug, Hash)]
pub enum DeckOperation {
    Upgrade,
    Transform,
    TransformUpgrade,
    Remove,
    Duplicate,
    BottleFlame,
    BottleLightning,
    BottleTornado,
}

#[derive(PartialEq, Eq, Structural, Clone, Copy, Debug, Hash)]
pub enum Target {
    _Self,
    Player,
    RandomMonster,
    TargetMonster,
    Attacker,
    AllMonsters,
    OtherMonster,
}

impl Default for Target {
    /// The default target is the one that the effect belongs to.
    fn default() -> (res: Self)
        ensures
            res == Target::_Self,
    {
        Target::_Self
    }
}

/// Whether `a` is the default value of its type: `T::default()` compared with `a`.
pub fn is_default<T: Default + PartialEq>(a: &T) -> (res: bool)
    ensures
        T::obeys_eq_spec() ==> exists|d: T| call_ensures(T::default, (), d) && res == d.eq_spec(a),
{
    let def: T = T::default();
    let res = def == *a;
    res
}

/// The default of a flag whose default is set.
pub fn _true() -> (res: bool)
    ensures
        res,
{
    true
}

/// Whether a flag is set.
pub fn is_true(a: &bool) -> (res: bool)
    ensures
        res == *a,
{
    *a == true
}

/// The default of a count whose default is one.
pub fn one() -> (res: u8)
    ensures
        res == 1,
{
    1
}

/// Whether a count is one.
pub fn is_one(weight: &u8) -> (res: bool)
    ensures
        res == (*weight == 1),
{
    *weight == 1
}


/// What an effect does.
#[derive(PartialEq, Eq, Hash, Debug)]
pub enum Effect {
    Block { amount: Amount, target: Target },
    Damage { amount: Amount, target: Target },
    AttackDamage { amount: Amount, target: Target, times: Amount, if_fatal: Vec<Effect> },
    LoseHp { amount: Amount, target: Target },
    Unbuff(&'static BaseBuff),
    AddBuff { buff: &'static BaseBuff, amount: Amount, target: Target },
    HealPercentage { amount: Amount, target: Target },
    RemoveDebuffs,
    Die { target: Target },
    AddX(Amount),
    SetX(Amount),
    SetN(Amount),
    AddN(Amount),
    ResetN,
    Draw(Amount),
    Scry(Amount),
    AddEnergy(Amount),
    AddGold(Amount),
    AddMaxHp(Amount),
    Heal { amount: Amount, target: Target },
    SetStance(Stance),
    ChannelOrb(OrbType),
    AddOrbSlot(Amount),
    EvokeOrb(Amount),
    ChooseCards { location: CardLocation, then: Vec<CardEffect>, min: Amount, max: Amount },
    Shuffle,
    DoCardEffect { location: CardLocation, position: RelativePosition, effect: CardEffect },
    SelfEffect(CardEffect),
    CreateCard { name: String, destination: CardDestination, then: Vec<CardEffect> },
    CreateCardByType {
        destination: CardDestination,
        _type: CardType,
        rarity: Option<Rarity>,
        class: Option<Class>,
        then: Vec<CardEffect>,
        exclude_healing: bool,
    },
    ChooseCardByType {
        destination: CardDestination,
        _type: CardType,
        rarity: Option<Rarity>,
        class: Option<Class>,
        then: Vec<CardEffect>,
        choices: Amount,
        exclude_healing: bool,
    },
    Split(String, String),
    Spawn { choices: Vec<String>, count: Amount },
    If { condition: Condition, then: Vec<Effect>, _else: Vec<Effect> },
    RandomChance(Vec<EffectChance>),
    Repeat { n: Amount, effect: Vec<Effect> },
    DeckOperation { random: bool, count: u8, operation: DeckOperation },
    DeckAdd(String),
    RandomPotion,
    LoseHpPercentage(Amount),
    ReduceMaxHpPercentage(Amount),
    ShowReward(Vec<RewardType>),
    RemoveRelic(&'static BaseRelic),
    RandomRelic,
    AddRelic(&'static BaseRelic),
    Fight { monsters: Vec<String>, room: FightType },
    AddPotionSlot(u8),
    ShowChoices(Vec<String>),
    Catalyst,
    Custom,
}

/// An effect that happens with a weight among others.
#[derive(PartialEq, Eq, Hash, Debug)]
pub struct EffectChance {
    pub amount: Amount,
    pub effect: Vec<Effect>,
}

/// What an effect does to a card.
#[derive(PartialEq, Eq, Hash, Debug)]
pub enum CardEffect {
    Exhaust,
    Discard,
    MoveTo(CardDestination),
    Upgrade,
    ZeroCombatCost,
    ZeroTurnCost,
    ZeroCostUntilPlayed,
    CopyTo { destination: CardDestination, then: Vec<CardEffect> },
    If { condition: Condition, then: Vec<CardEffect> },
    Scry,
    AutoPlay,
    Retain,
    ReduceCost(Amount),
    Custom(String),
}

/// A reward that an effect shows.
#[derive(PartialEq, Eq, Hash, Clone, Debug)]
pub enum RewardType {
    StandardCard,
    EliteCard,
    ColorlessCard,
    Relic(Rarity),
    RelicName(String),
    RandomRelic,
    RandomPotion,
    Gold { min: u16, max: u16 },
    RandomBook,
}

/// Effects that happen at a moment.
#[derive(PartialEq, Eq, Hash, Debug)]
pub struct WhenEffect {
    pub when: When,
    pub effect: Vec<Effect>,
}

/// A condition under which an effect, a move or a choice applies.
#[derive(PartialEq, Eq, Hash, Debug)]
pub enum Condition {
    Stance(Stance),
    RemainingHp { amount: Amount, target: Target },
    HalfHp,
    NoBlock,
    Attacking { target: Target },
    Buff { buff: &'static BaseBuff, target: Target },
    BuffX { buff: &'static BaseBuff, amount: Amount, target: Target },
    Equals(Amount, Amount),
    LessThan(Amount, Amount),
    Asc(u8),
    Act(u8),
    FriendlyDead(String),
    InPosition(usize),
    HasFriendlies(usize),
    Not(Box<Condition>),
    LastCard(CardType),
    HasCard { location: CardLocation, card: CardType },
    Upgraded,
    HasOrbSlot,
    HasDiscarded,
    MultipleAnd(Vec<Condition>),
    MultipleOr(Vec<Condition>),
    HasRelic(&'static BaseRelic),
    HasGold(Amount),
    IsVariant(String),
    Always,
    Class(Class),
    HasUpgradableCard,
    HasRemoveableCards { count: u8, card_type: CardType },
    OnFloor(i8),
    Never,
    Custom,
}

impl Condition {
    /// The condition that never holds.
    pub fn never() -> (res: Self)
        ensures
            res is Never,
    {
        Condition::Never
    }

    /// The condition that always holds.
    pub fn always() -> (res: Self)
        ensures
            res is Always,
    {
        Condition::Always
    }

    /// Whether a condition is the one that never holds.
    pub fn is_never(a: &Condition) -> (res: bool)
        ensures
            res == (*a is Never),
    {
        matches!(a, Condition::Never)
    }

    /// Whether a condition is the one that always holds.
    pub fn is_always(a: &Condition) -> (res: bool)
        ensures
            res == (*a is Always),
    {
        matches!(a, Condition::Always)
    }
}

/// Compares the contents of two strings with `<str as PartialEq>::eq`, which std
/// documents as comparing them character by character.
#[verifier::external_body]
pub(crate) fn str_eq(a: &str, b: &str) -> (res: bool)
    ensures
        res == (a@ == b@),
{
    a == b
}

} // verus!
