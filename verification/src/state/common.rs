use vstd::prelude::*;

use crate::models::buffs::BaseBuff;
use crate::models::cards::{self, BaseCard};
use crate::models::common::{
    str_eq, Amount, CardLocation, CardType, Condition, DeckOperation, FightType, OrbType,
};
use crate::models::monsters::{BaseMonster, Intent, MonsterMove};
use crate::models::potions::BasePotion;
use crate::models::relics::{self, BaseRelic};
use crate::spireai::references::{
    BuffReference, CardReference, CreatureReference, MonsterReference, PotionReference,
    RelicReference,
};
use crate::state::probability::Probability;
use crate::state::collections::{monster_whens, monster_whens_new, move_options, move_options_new};

verus! {

/// A fresh identifier, from `uuid::Uuid::new_v4` read as its 128-bit value. The value
/// is random: nothing is claimed of it.
#[verifier::external_body]
pub fn new_uuid() -> (res: u128) {
    uuid::Uuid::new_v4().as_u128()
}

/// The counters of a card, buff, relic, monster or event.
#[derive(PartialEq, Eq, Structural, Hash, Clone, Copy, Debug)]
pub struct Vars {
    pub n: i16,
    pub n_reset: i16,
    pub x: i16,
}

impl Vars {
    /// All counters at zero.
    pub fn new() -> (res: Vars)
        ensures
            res == (Vars { n: 0, n_reset: 0, x: 0 }),
    {
        Vars { n: 0, n_reset: 0, x: 0 }
    }
}

/// An orb that the player has channelled.
#[derive(PartialEq, Eq, Structural, Hash, Clone, Copy, Debug)]
pub struct Orb {
    pub base: OrbType,
    pub n: u16,
}

/// Hit points and their maximum.
#[derive(PartialEq, Eq, Structural, Hash, Clone, Copy, Debug)]
pub struct HpRange {
    pub amount: u16,
    pub max: u16,
}

impl HpRange {
    /// Lowers the maximum by `reduction`; the hit points drop to the new maximum
    /// where they were above it.
    pub fn reduce_max_hp(&mut self, reduction: u16)
        requires
            reduction <= old(self).max,
        ensures
            final(self).max == old(self).max - reduction,
            final(self).amount == (if old(self).amount <= old(self).max - reduction {
                old(self).amount as int
            } else {
                old(self).max - reduction
            }),
    {
        self.max = self.max - reduction;
        self.amount = if self.max <= self.amount {
            self.max
        } else {
            self.amount
        };
    }

    /// Heals by a whole number of hit points, up to the maximum.
    pub fn add(&mut self, amount: u16)
        requires
            old(self).amount + amount <= u16::MAX,
        ensures
            final(self).max == old(self).max,
            final(self).amount == (if old(self).amount + amount <= old(self).max {
                old(self).amount + amount
            } else {
                old(self).max as int
            }),
    {
        let sum = amount + self.amount;
        self.amount = if self.max <= sum {
            self.max
        } else {
            sum
        };
    }

    /// Full hit points.
    pub fn new(amount: u16) -> (res: Self)
        ensures
            res == (HpRange { amount, max: amount }),
    {
        Self { amount, max: amount }
    }
}

/// Reducing the maximum keeps the hit points within it.
pub proof fn lemma_reduce_max_hp_keeps_bound(before: HpRange, after: HpRange, reduction: u16)
    requires
        reduction <= before.max,
        after.max == before.max - reduction,
        after.amount == (if before.amount <= before.max - reduction {
            before.amount as int
        } else {
            before.max - reduction
        }),
    ensures
        after.amount <= after.max,
        after.amount <= before.amount,
{
}

/// A buff of a creature.
#[derive(PartialEq, Eq, Hash, Clone, Copy, Debug)]
pub struct Buff {
    pub base: &'static BaseBuff,
    pub uuid: u128,
    pub vars: Vars,
    pub card_stasis: Option<u128>,
}

impl Buff {
    /// A new buff of the given kind, under a fresh identifier, with its counters at zero.
    pub fn new(base: &'static BaseBuff, amount: i16) -> (res: Self)
        ensures
            res.base == base,
            res.vars == Vars::new_spec(),
            res.card_stasis is None,
    {
        Buff { base, uuid: new_uuid(), vars: Vars::new(), card_stasis: None }
    }

    /// The buff of the given name in a catalog, as a new buff.
    pub fn by_name(buffs: &[&'static BaseBuff], name: &str, amount: i16) -> (res: Self)
        requires
            crate::models::buffs::has_buff_named(buffs@, name@),
        ensures
            res.base.name@ == name@,
            res.vars == Vars::new_spec(),
            res.card_stasis is None,
    {
        Self::new(crate::models::buffs::by_name(buffs, name), amount)
    }

    /// A reference to this buff on the given creature.
    pub fn reference(&self, creature: CreatureReference) -> (res: BuffReference)
        ensures
            res == (BuffReference { base: self.base, creature, buff: self.uuid }),
    {
        BuffReference { base: self.base, creature, buff: self.uuid }
    }
}

impl Vars {
    /// All counters at zero.
    pub open spec fn new_spec() -> Vars {
        Vars { n: 0, n_reset: 0, x: 0 }
    }
}

/// Whether `i` is the first position of a buff of the given kind in a list of buffs.
pub open spec fn is_first_of_kind(buffs: Seq<Buff>, name: Seq<char>, i: int) -> bool {
    &&& 0 <= i < buffs.len()
    &&& buffs[i].base.name@ == name
    &&& forall|j: int| 0 <= j < i ==> (#[trigger] buffs[j]).base.name@ != name
}

/// Whether a list of buffs holds none of the given kind.
pub open spec fn has_none_of_kind(buffs: Seq<Buff>, name: Seq<char>) -> bool {
    forall|j: int| 0 <= j < buffs.len() ==> (#[trigger] buffs[j]).base.name@ != name
}

/// Whether `i` is the first position of the buff of the given identifier.
pub open spec fn is_first_with_uuid(buffs: Seq<Buff>, uuid: u128, i: int) -> bool {
    &&& 0 <= i < buffs.len()
    &&& buffs[i].uuid == uuid
    &&& forall|j: int| 0 <= j < i ==> (#[trigger] buffs[j]).uuid != uuid
}

/// The first position of a buff of the given kind, if there is one.
fn position_of_kind(buffs: &Vec<Buff>, buff: &'static BaseBuff) -> (res: Option<usize>)
    ensures
        res matches Some(i) ==> is_first_of_kind(buffs@, buff.name@, i as int),
        res is None ==> has_none_of_kind(buffs@, buff.name@),
{
    let mut i: usize = 0;
    while i < buffs.len()
        invariant
            0 <= i <= buffs@.len(),
            forall|j: int| 0 <= j < i ==> (#[trigger] buffs@[j]).base.name@ != buff.name@,
        decreases buffs@.len() - i,
    {
        if str_eq(buffs[i].base.name.as_str(), buff.name.as_str()) {
            return Some(i);
        }
        i = i + 1;
    }
    None
}

/// The first position of the buff of the given identifier, if there is one.
fn position_of_uuid(buffs: &Vec<Buff>, uuid: u128) -> (res: Option<usize>)
    ensures
        res matches Some(i) ==> is_first_with_uuid(buffs@, uuid, i as int),
        res is None ==> forall|j: int| 0 <= j < buffs@.len() ==> (#[trigger] buffs@[j]).uuid != uuid,
{
    let mut i: usize = 0;
    while i < buffs.len()
        invariant
            0 <= i <= buffs@.len(),
            forall|j: int| 0 <= j < i ==> (#[trigger] buffs@[j]).uuid != uuid,
        decreases buffs@.len() - i,
    {
        if buffs[i].uuid == uuid {
            return Some(i);
        }
        i = i + 1;
    }
    None
}

/// The player or a monster in a battle.
#[derive(PartialEq, Eq, Hash, Clone, Debug)]
pub struct Creature {
    pub hp: HpRange,
    pub monster: Option<MonsterReference>,
    pub buffs: Vec<Buff>,
    pub block: u16,
}

/// The creature that a creature is: the player when it is no monster.
pub open spec fn creature_of(monster: Option<MonsterReference>) -> CreatureReference {
    match monster {
        Some(m) => CreatureReference::Creature(m),
        None => CreatureReference::Player,
    }
}

/// Whether `n` is the creature `o` after adding `amount` of a buff: hit points, block
/// and identity kept; a buff that does not repeat added to the counter of the first
/// buff of its kind, which is removed when it is zeroable and reaches zero; a
/// repeating buff, or one of a kind the creature lacks, appended with its counters at
/// zero.
pub open spec fn buff_added(o: Creature, n: Creature, buff: &'static BaseBuff, amount: i16) -> bool {
    &&& n.hp == o.hp
    &&& n.monster == o.monster
    &&& n.block == o.block
    &&& forall|i: int|
        #![trigger is_first_of_kind(o.buffs@, buff.name@, i)]
        !buff.repeats && is_first_of_kind(o.buffs@, buff.name@, i) ==> {
            let b = o.buffs@[i];
            let x = b.vars.x + amount;
            if buff.zeroable && x == 0 {
                n.buffs@ == o.buffs@.remove(i)
            } else {
                n.buffs@ == o.buffs@.update(i, Buff { vars: Vars { x: x as i16, ..b.vars }, ..b })
            }
        }
    &&& buff.repeats || has_none_of_kind(o.buffs@, buff.name@) ==> {
        &&& n.buffs@.len() == o.buffs@.len() + 1
        &&& n.buffs@.drop_last() == o.buffs@
        &&& n.buffs@.last().base == buff
        &&& n.buffs@.last().vars == Vars::new_spec()
        &&& n.buffs@.last().card_stasis is None
    }
}

impl Creature {
    /// Whether `amount` of a buff can be added without overflow: a buff that does not
    /// repeat keeps the counter of the first buff of its kind within an `i16`.
    pub open spec fn buff_addable(&self, buff: &'static BaseBuff, amount: i16) -> bool {
        !buff.repeats ==> forall|i: int|
            is_first_of_kind(self.buffs@, buff.name@, i) ==> i16::MIN <= self.buffs@[i].vars.x + amount <= i16::MAX
    }
}

impl Creature {
    /// Adds `amount` of a buff. A buff that does not repeat adds to the counter of the
    /// first buff of its kind, which is removed when it is zeroable and its counter
    /// reaches zero; a repeating buff, or one that the creature does not have yet, is
    /// added as a new buff, with its counters at zero.
    pub fn add_buff(&mut self, buff: &'static BaseBuff, amount: i16)
        requires
            old(self).buff_addable(buff, amount),
        ensures
            buff_added(*old(self), *final(self), buff, amount),
    {
        if !buff.repeats {
            if let Some(index) = position_of_kind(&self.buffs, buff) {
                let mut b = self.buffs[index];
                b.vars.x = b.vars.x + amount;
                if buff.zeroable && b.vars.x == 0 {
                    self.buffs.remove(index);
                } else {
                    self.buffs.set(index, b);
                }
                return ;
            }
        }
        let new_buff = Buff::new(buff, amount);
        self.buffs.push(new_buff);
        proof {
            assert(self.buffs@.drop_last() =~= old(self).buffs@);
        }
    }

    /// The buff of the given identifier, if the creature has it.
    pub fn get_buff(&self, buff: BuffReference) -> (res: Option<&Buff>)
        ensures
            res matches Some(b) ==> exists|i: int|
                is_first_with_uuid(self.buffs@, buff.buff, i) && self.buffs@[i] == *b,
            res is None ==> forall|j: int|
                0 <= j < self.buffs@.len() ==> (#[trigger] self.buffs@[j]).uuid != buff.buff,
    {
        match position_of_uuid(&self.buffs, buff.buff) {
            Some(i) => Some(&self.buffs[i]),
            None => None,
        }
    }

    /// The first buff of the given kind, if the creature has one.
    pub fn get_singular_buff(&self, buff: &'static BaseBuff) -> (res: Option<&Buff>)
        ensures
            res matches Some(b) ==> exists|i: int|
                is_first_of_kind(self.buffs@, buff.name@, i) && self.buffs@[i] == *b,
            res is None ==> has_none_of_kind(self.buffs@, buff.name@),
    {
        match position_of_kind(&self.buffs, buff) {
            Some(i) => Some(&self.buffs[i]),
            None => None,
        }
    }

    /// The creature that this creature is.
    pub fn creature_ref(&self) -> (res: CreatureReference)
        ensures
            res == creature_of(self.monster),
    {
        match self.monster {
            Some(_ref) => CreatureReference::Creature(_ref),
            None => CreatureReference::Player,
        }
    }

    /// Whether this creature is the player.
    pub fn is_player(&self) -> (res: bool)
        ensures
            res == (self.monster is None),
    {
        self.monster.is_none()
    }

    /// References to the creature's buffs, in order.
    pub fn buffs(&self) -> (res: Vec<BuffReference>)
        ensures
            res@.len() == self.buffs@.len(),
            forall|i: int|
                0 <= i < res@.len() ==> #[trigger] res@[i] == (BuffReference {
                    base: self.buffs@[i].base,
                    creature: creature_of(self.monster),
                    buff: self.buffs@[i].uuid,
                }),
    {
        let mut res: Vec<BuffReference> = Vec::new();
        let creature = self.creature_ref();
        let mut i: usize = 0;
        while i < self.buffs.len()
            invariant
                0 <= i <= self.buffs@.len(),
                creature == creature_of(self.monster),
                res@.len() == i,
                forall|k: int|
                    0 <= k < i ==> #[trigger] res@[k] == (BuffReference {
                        base: self.buffs@[k].base,
                        creature: creature_of(self.monster),
                        buff: self.buffs@[k].uuid,
                    }),
            decreases self.buffs@.len() - i,
        {
            res.push(BuffReference { base: self.buffs[i].base, creature, buff: self.buffs[i].uuid });
            i = i + 1;
        }
        res
    }

    /// Whether the creature has a buff of the given kind.
    pub fn has_buff(&self, buff: &'static BaseBuff) -> (res: bool)
        ensures
            res == !has_none_of_kind(self.buffs@, buff.name@),
    {
        position_of_kind(&self.buffs, buff).is_some()
    }

    /// Whether the creature has a buff of the given name.
    pub fn has_buff_named(&self, name: &str) -> (res: bool)
        ensures
            res == !has_none_of_kind(self.buffs@, name@),
    {
        let mut i: usize = 0;
        while i < self.buffs.len()
            invariant
                0 <= i <= self.buffs@.len(),
                forall|j: int| 0 <= j < i ==> (#[trigger] self.buffs@[j]).base.name@ != name@,
            decreases self.buffs@.len() - i,
        {
            if str_eq(self.buffs[i].base.name.as_str(), name) {
                return true;
            }
            i = i + 1;
        }
        false
    }

    /// The player, with the given hit points, no buffs and no block.
    pub fn player(hp: HpRange) -> (res: Creature)
        ensures
            res.hp == hp,
            res.monster is None,
            res.buffs@.len() == 0,
            res.block == 0,
    {
        Creature { hp, monster: None, buffs: Vec::new(), block: 0 }
    }

    /// A monster, with the given hit points, no buffs and no block.
    pub fn monster(hp: HpRange, monster: MonsterReference) -> (res: Creature)
        ensures
            res.hp == hp,
            res.monster == Some(monster),
            res.buffs@.len() == 0,
            res.block == 0,
    {
        Creature { hp, monster: Some(monster), buffs: Vec::new(), block: 0 }
    }

    /// The counter of the first buff of the given kind, or zero without one.
    pub fn get_buff_amount(&self, buff: &'static BaseBuff) -> (res: i16)
        ensures
            has_none_of_kind(self.buffs@, buff.name@) ==> res == 0,
            forall|i: int|
                is_first_of_kind(self.buffs@, buff.name@, i) ==> res == self.buffs@[i].vars.x,
    {
        match position_of_kind(&self.buffs, buff) {
            Some(i) => self.buffs[i].vars.x,
            None => 0,
        }
    }

    /// Removes the buff of the given identifier, if the creature has it.
    pub fn remove_buff(&mut self, buff: BuffReference)
        ensures
            final(self).hp == old(self).hp,
            final(self).monster == old(self).monster,
            final(self).block == old(self).block,
            forall|i: int|
                is_first_with_uuid(old(self).buffs@, buff.buff, i) ==> final(self).buffs@ == old(
                    self,
                ).buffs@.remove(i),
            (forall|j: int|
                0 <= j < old(self).buffs@.len() ==> (#[trigger] old(self).buffs@[j]).uuid
                    != buff.buff) ==> final(self).buffs@ == old(self).buffs@,
    {
        if let Some(position) = position_of_uuid(&self.buffs, buff.buff) {
            self.buffs.remove(position);
        }
    }

    /// Removes every buff of the given kind, keeping the others in order.
    pub fn remove_buffs_by_type(&mut self, base: &'static BaseBuff)
        ensures
            final(self).hp == old(self).hp,
            final(self).monster == old(self).monster,
            final(self).block == old(self).block,
            final(self).buffs@ == old(self).buffs@.filter(
                |b: Buff| b.base.name@ != base.name@,
            ),
    {
        let ghost pred = |b: Buff| b.base.name@ != base.name@;
        let mut kept: Vec<Buff> = Vec::new();
        let mut i: usize = 0;
        while i < self.buffs.len()
            invariant
                0 <= i <= self.buffs@.len(),
                kept@ == self.buffs@.take(i as int).filter(pred),
                pred == (|b: Buff| b.base.name@ != base.name@),
            decreases self.buffs@.len() - i,
        {
            let b = self.buffs[i];
            let keep = !str_eq(b.base.name.as_str(), base.name.as_str());
            if keep {
                kept.push(b);
            }
            assert(kept@ == self.buffs@.take(i + 1).filter(pred)) by {
                reveal_with_fuel(Seq::<_>::filter, 1);
                let s = self.buffs@.take(i + 1);
                assert(s.drop_last() =~= self.buffs@.take(i as int));
                assert(s.last() == self.buffs@[i as int]);
                assert(pred(s.last()) == keep);
            }
            i = i + 1;
        }
        assert(self.buffs@.take(self.buffs@.len() as int) =~= self.buffs@);
        self.buffs = kept;
    }
}

/// A card that may be offered: its kind and whether it comes upgraded.
#[derive(PartialEq, Eq, Hash, Clone, Copy, Debug)]
pub struct CardOffer {
    pub base: &'static BaseCard,
    pub upgraded: bool,
}

/// A card in the deck or in a battle.
#[derive(PartialEq, Eq, Hash, Clone, Copy, Debug)]
pub struct Card {
    pub base: &'static BaseCard,
    pub cost: u8,
    pub base_cost: u8,
    pub cost_until_played: bool,
    pub uuid: u128,
    pub vars: Vars,
    pub retain: bool,
    pub upgrades: u8,
    pub bottled: bool,
}

/// Whether a condition is one of the three that a card's innate and retain conditions
/// may be: always, never, or when upgraded.
pub open spec fn is_plain_condition(c: Condition) -> bool {
    c is Always || c is Never || c is Upgraded
}

/// Whether a card's cost is one that a new card can start from: fixed, upgradable, X,
/// or the custom cost of one of the three cards that have one.
pub open spec fn has_known_cost(base: BaseCard) -> bool {
    match base.cost {
        Amount::Fixed(_) | Amount::Upgradable { .. } | Amount::X => true,
        Amount::Custom => base.name@ == "Blood for Blood"@ || base.name@ == "Eviscerate"@
            || base.name@ == "Force Field"@,
        _ => false,
    }
}

/// The cost that a new card of the given kind starts at.
pub open spec fn starting_cost(base: BaseCard) -> u8 {
    match base.cost {
        Amount::Fixed(cost) => cost as u8,
        Amount::Upgradable { amount, .. } => amount as u8,
        Amount::X => 0,
        _ => if base.name@ == "Eviscerate"@ {
            3
        } else {
            4
        },
    }
}

/// Whether `n` is card `o` upgraded: an attack, skill or power gains an upgrade the first
/// time (Searing Blow every time), its base cost falls to the upgraded cost read as a
/// byte and its cost becomes the new base cost less that fall, not below zero, and it
/// becomes retained where its retain condition is being upgraded; statuses, curses and
/// cards that are upgraded already stay as they are.
pub open spec fn upgrade_of(o: Card, n: Card) -> bool {
    if !upgrade_grows(o) {
        n == o
    } else {
        &&& n.upgrades == o.upgrades + 1
        &&& n.base == o.base
        &&& n.uuid == o.uuid
        &&& n.vars == o.vars
        &&& n.bottled == o.bottled
        &&& n.cost_until_played == o.cost_until_played
        &&& n.retain == (o.retain || o.base.retain is Upgraded)
        &&& match o.base.cost {
            Amount::Upgradable { upgraded, .. } => {
                let up = upgraded as u8;
                let diff = o.base_cost - up;
                &&& n.base_cost == up
                &&& n.cost == (if up >= diff {
                    up - diff
                } else {
                    0
                })
            },
            _ => n.base_cost == o.base_cost && n.cost == o.cost,
        }
    }
}

/// The card after an upgrade (see `upgrade_of`).
pub open spec fn upgraded_card(o: Card) -> Card {
    if !upgrade_grows(o) {
        o
    } else {
        let costs: (int, int) = match o.base.cost {
            Amount::Upgradable { upgraded, .. } => {
                let up = upgraded as u8;
                let diff = o.base_cost - up;
                (up as int, if up >= diff { up - diff } else { 0 })
            },
            _ => (o.base_cost as int, o.cost as int),
        };
        Card {
            upgrades: (o.upgrades + 1) as u8,
            retain: o.retain || o.base.retain is Upgraded,
            base_cost: costs.0 as u8,
            cost: costs.1 as u8,
            ..o
        }
    }
}

/// An upgrade that can be made makes the card `upgraded_card` says.
pub proof fn lemma_upgrade_of_is(o: Card, n: Card)
    requires
        upgrade_ready(o),
        upgrade_of(o, n),
    ensures
        n == upgraded_card(o),
{
}

/// Whether upgrading a card changes it: it is no status or curse, and has no upgrade
/// yet or is Searing Blow.
pub open spec fn upgrade_grows(c: Card) -> bool {
    &&& !(c.base._type == CardType::Status || c.base._type == CardType::Curse)
    &&& (c.upgrades == 0 || c.base.name@ == "Searing Blow"@)
}

/// Whether a card can be upgraded without overflow: one that an upgrade changes is
/// below the most upgrades a `u8` holds, with an upgraded cost that, read as a byte, is
/// at most its base cost.
pub open spec fn upgrade_ready(c: Card) -> bool {
    upgrade_grows(c) ==> {
        &&& c.upgrades < u8::MAX
        &&& c.base.cost matches Amount::Upgradable { upgraded, .. } ==> (upgraded as u8) <= c.base_cost
    }
}

/// The curses that cannot leave the deck.
pub open spec fn is_unremovable_curse(name: Seq<char>) -> bool {
    name == "Ascender's Bane"@ || name == "Curse of the Bell"@ || name == "Necronomicurse"@
}

impl Card {
    /// Whether the card can be removed from the deck: not bottled, and not one of the
    /// curses that stay.
    pub open spec fn removable_spec(&self) -> bool {
        !self.bottled && !is_unremovable_curse(self.base.name@)
    }

    /// Whether the card can be upgraded: an attack, skill or power that is not upgraded
    /// yet, Searing Blow aside.
    pub open spec fn upgradable_spec(&self) -> bool {
        match self.base._type {
            CardType::Attack | CardType::Skill | CardType::Power => self.upgrades == 0
                && self.base.name@ != "Searing Blow"@,
            _ => false,
        }
    }

    /// A copy of this card under a fresh identifier, not bottled.
    pub fn duplicate(&self) -> (res: Self)
        ensures
            res == (Card { uuid: res.uuid, bottled: false, ..*self }),
    {
        let mut card = *self;
        card.uuid = new_uuid();
        card.bottled = false;
        card
    }

    /// Whether the card starts a battle in hand: a bottled card does, else its innate
    /// condition decides (always, never, or when upgraded).
    pub fn is_innate(&self) -> (res: bool)
        requires
            !self.bottled ==> is_plain_condition(self.base.innate),
        ensures
            res == (self.bottled || match self.base.innate {
                Condition::Always => true,
                Condition::Upgraded => self.upgrades > 0,
                _ => false,
            }),
    {
        self.bottled || match self.base.innate {
            Condition::Always => true,
            Condition::Never => false,
            Condition::Upgraded => self.upgrades > 0,
            _ => false,
        }
    }

    /// A new card of the given name in a catalog.
    pub fn by_name(catalog: &[&'static BaseCard], name: &str) -> (res: Self)
        requires
            cards::has_card_named(catalog@, name@),
            forall|i: int|
                0 <= i < catalog@.len() ==> has_known_cost(*(#[trigger] catalog@[i]))
                    && is_plain_condition(catalog@[i].retain),
        ensures
            res.base.name@ == name@,
            catalog@.contains(res.base),
            res.cost == starting_cost(*res.base),
            res.upgrades == 0,
            !res.bottled,
    {
        let base = cards::by_name(catalog, name);
        Self::new(base)
    }

    /// A new card of the given kind: at its starting cost, retained when its retain
    /// condition always holds, not upgraded and not bottled, under a fresh identifier.
    pub fn new(base: &'static BaseCard) -> (res: Self)
        requires
            has_known_cost(*base),
            is_plain_condition(base.retain),
        ensures
            res.base == base,
            res.cost == starting_cost(*base),
            res.base_cost == starting_cost(*base),
            !res.cost_until_played,
            res.retain == (base.retain is Always),
            res.vars == Vars::new_spec(),
            res.upgrades == 0,
            !res.bottled,
    {
        let uuid = new_uuid();
        let cost: u8 = match &base.cost {
            Amount::Fixed(cost) => *cost as u8,
            Amount::Upgradable { amount, .. } => *amount as u8,
            Amount::X => 0,
            _ => {
                if str_eq(base.name.as_str(), "Eviscerate") {
                    3
                } else {
                    4
                }
            },
        };
        let retain = match base.retain {
            Condition::Always => true,
            _ => false,
        };
        Card {
            base,
            uuid,
            base_cost: cost,
            cost,
            cost_until_played: false,
            retain,
            vars: Vars::new(),
            upgrades: 0,
            bottled: false,
        }
    }

    /// Whether the card can be removed from the deck: not bottled, and not one of the
    /// curses that stay.
    pub fn removable(&self) -> (res: bool)
        ensures
            res == self.removable_spec(),
    {
        if self.bottled {
            return false;
        }
        let name = self.base.name.as_str();
        !(str_eq(name, "Ascender's Bane") || str_eq(name, "Curse of the Bell") || str_eq(
            name,
            "Necronomicurse",
        ))
    }

    /// Whether the card can be upgraded: an attack, skill or power that is not upgraded
    /// yet, Searing Blow aside, which this does not count.
    pub fn upgradable(&self) -> (res: bool)
        requires
            self.base._type != CardType::All,
        ensures
            res == self.upgradable_spec(),
    {
        match self.base._type {
            CardType::Attack | CardType::Skill | CardType::Power => {
                self.upgrades == 0 && !str_eq(self.base.name.as_str(), "Searing Blow")
            },
            _ => false,
        }
    }

    /// A reference to this card in the given pile.
    pub fn reference(&self, location: CardLocation) -> (res: CardReference)
        ensures
            res == (CardReference { base: self.base, uuid: self.uuid, location }),
    {
        CardReference { base: self.base, uuid: self.uuid, location }
    }

    /// Whether the card must be played at a target: never, always, or unless it is
    /// upgraded.
    pub fn targeted(&self) -> (res: bool)
        requires
            self.base.targeted is Never || self.base.targeted is Always || (
            self.base.targeted matches Condition::Not(b) && *b is Upgraded),
        ensures
            res == (match self.base.targeted {
                Condition::Always => true,
                Condition::Not(_) => self.upgrades > 0,
                _ => false,
            }),
    {
        match &self.base.targeted {
            Condition::Always => true,
            Condition::Not(_) => self.upgrades > 0,
            _ => false,
        }
    }

    /// Upgrades the card. Statuses and curses do not change; any other card gains an
    /// upgrade when it has none yet, or is Searing Blow. An upgrade sets an upgradable
    /// card's base cost to its upgraded cost and its current cost to the new base cost
    /// less the fall, not below zero, and makes a card retained whose retain condition
    /// is being upgraded.
    pub fn upgrade(&mut self)
        requires
            upgrade_ready(*old(self)),
        ensures
            upgrade_of(*old(self), *final(self)),
    {
        match self.base._type {
            CardType::Status | CardType::Curse => {},
            _ => {
                if self.upgrades == 0 || str_eq(self.base.name.as_str(), "Searing Blow") {
                    self.upgrades = self.upgrades + 1;
                    if let Amount::Upgradable { upgraded, .. } = &self.base.cost {
                        let up = *upgraded as u8;
                        let diff = self.base_cost - up;
                        self.base_cost = self.base_cost - diff;
                        self.cost = self.base_cost.saturating_sub(diff);
                    }
                    if let Condition::Upgraded = self.base.retain {
                        self.retain = true;
                    }
                }
            },
        }
    }
}

/// A card that is no status, curse or Searing Blow gains at most one upgrade: upgrading
/// it a second time changes nothing.
pub proof fn lemma_second_upgrade_is_idle(c: Card, n: Card)
    requires
        c.upgrades > 0,
        c.base.name@ != "Searing Blow"@,
        upgrade_of(c, n),
    ensures
        n == c,
{
}

/// A relic that the player has.
#[derive(PartialEq, Eq, Hash, Clone, Copy, Debug)]
pub struct Relic {
    pub base: &'static BaseRelic,
    pub uuid: u128,
    pub vars: Vars,
    pub enabled: bool,
}

impl Relic {
    /// A reference to this relic.
    pub fn reference(&self) -> (res: RelicReference)
        ensures
            res == (RelicReference { base: self.base, relic: self.uuid }),
    {
        RelicReference { base: self.base, relic: self.uuid }
    }

    /// A new, enabled relic of the given kind under a fresh identifier, whose `x`
    /// counter starts at the relic's starting value.
    pub fn new(base: &'static BaseRelic) -> (res: Self)
        ensures
            res.base == base,
            res.vars == (Vars { x: base.starting_x, ..Vars::new_spec() }),
            res.enabled,
    {
        let uuid = new_uuid();
        let mut relic = Relic { base, uuid, vars: Vars::new(), enabled: true };
        relic.vars.x = base.starting_x;
        relic
    }

    /// A new relic of the given name in a catalog.
    pub fn by_name(catalog: &[&'static BaseRelic], name: &str) -> (res: Self)
        requires
            relics::has_relic_named(catalog@, name@),
        ensures
            res.base.name@ == name@,
            res.vars == (Vars { x: res.base.starting_x, ..Vars::new_spec() }),
            res.enabled,
    {
        Self::new(relics::by_name(catalog, name))
    }
}

/// A monster in a battle.
#[derive(PartialEq, Eq, Clone, Debug)]
pub struct Monster {
    pub base: &'static BaseMonster,
    pub uuid: u128,
    pub creature: Creature,
    pub position: usize,
    pub targetable: bool,
    pub intent: Intent,
    pub vars: Vars,
    pub whens: im::HashMap<crate::models::common::When, &'static String>,
    pub phase: usize,
    pub index: usize,
    pub current_move_options: im::Vector<(&'static MonsterMove, u8)>,
    pub last_move: Option<&'static MonsterMove>,
    pub last_move_count: u8,
}

impl Monster {
    /// A monster of the given kind at full hit points, under a fresh identifier: first
    /// in position, targetable, with no intent, counters, triggers or moves yet.
    pub fn create(base: &'static BaseMonster, max_hp: u16) -> (res: Self)
        ensures
            res.base == base,
            res.creature.hp == HpRange::new_spec(max_hp),
            res.creature.monster == Some(MonsterReference { base, uuid: res.uuid }),
            res.creature.buffs@.len() == 0,
            res.creature.block == 0,
            res.position == 0,
            res.targetable,
            res.intent == Intent::NoIntent,
            res.vars == Vars::new_spec(),
            monster_whens(res.whens) == Map::<crate::models::common::When, &'static String>::empty(),
            res.phase == 0,
            res.index == 0,
            move_options(res.current_move_options) == Seq::<(&'static MonsterMove, u8)>::empty(),
            res.last_move is None,
            res.last_move_count == 0,
    {
        let uuid = new_uuid();
        let reference = MonsterReference { base, uuid };
        Monster {
            base,
            uuid,
            creature: Creature::monster(HpRange::new(max_hp), reference),
            position: 0,
            targetable: true,
            intent: Intent::NoIntent,
            vars: Vars::new(),
            whens: monster_whens_new(),
            phase: 0,
            index: 0,
            current_move_options: move_options_new(),
            last_move: None,
            last_move_count: 0,
        }
    }

    /// A monster of the given name in a catalog, with maximum hit points drawn uniformly
    /// from its range: the range for high ascensions from ascension 7 for common
    /// monsters, 8 for elites and 9 for bosses.
    pub fn new(
        catalog: &[&'static BaseMonster],
        name: &str,
        asc: u8,
        probability: &mut Probability,
    ) -> (res: Self)
        requires
            crate::models::monsters::has_monster_named(catalog@, name@),
            forall|i: int|
                0 <= i < catalog@.len() ==> valid_hp_range((#[trigger] catalog@[i]).hp_range)
                    && valid_hp_range(catalog@[i].hp_range_asc),
        ensures
            res.base.name@ == name@,
            ({
                let range = if asc >= upgrade_ascension(res.base.fight_type) {
                    res.base.hp_range_asc
                } else {
                    res.base.hp_range
                };
                &&& range.min <= res.creature.hp.max <= range.max
                &&& final(probability).factors@ == old(probability).factors@.push(
                    (1u64, (range.max - range.min + 1) as u64),
                )
            }),
            res.creature.hp.amount == res.creature.hp.max,
            res.targetable,
            res.position == 0,
            exists|i: int|
                0 <= i < catalog@.len() && catalog@[i] == res.base && forall|j: int|
                    0 <= j < i ==> (#[trigger] catalog@[j]).name@ != name@,
    {
        let base = crate::models::monsters::by_name(catalog, name);
        let upgrade_asc: u8 = match base.fight_type {
            FightType::Common => 7,
            FightType::Elite { .. } => 8,
            FightType::Boss => 9,
        };
        let hp_range = if asc >= upgrade_asc {
            base.hp_range_asc
        } else {
            base.hp_range
        };
        let drawn = probability.range((hp_range.max - hp_range.min + 1) as usize);
        let hp = drawn as u16 + hp_range.min;
        Monster::create(base, hp)
    }

    /// A monster of the given name in a catalog, at the given maximum hit points.
    pub fn with_hp(catalog: &[&'static BaseMonster], name: &str, max_hp: u16) -> (res: Self)
        requires
            crate::models::monsters::has_monster_named(catalog@, name@),
        ensures
            res.base.name@ == name@,
            res.creature.hp == HpRange::new_spec(max_hp),
            res.targetable,
            res.position == 0,
            exists|i: int|
                0 <= i < catalog@.len() && catalog@[i] == res.base && forall|j: int|
                    0 <= j < i ==> (#[trigger] catalog@[j]).name@ != name@,
    {
        Self::create(crate::models::monsters::by_name(catalog, name), max_hp)
    }
}

/// Whether a range of hit points is not empty, and its size fits in a `u16`.
pub open spec fn valid_hp_range(r: crate::models::monsters::SimpleRange) -> bool {
    r.min <= r.max && r.max - r.min < u16::MAX
}

/// The ascension from which monsters of a kind of fight take their high range of hit
/// points.
pub open spec fn upgrade_ascension(fight: FightType) -> u8 {
    match fight {
        FightType::Common => 7,
        FightType::Elite { .. } => 8,
        FightType::Boss => 9,
    }
}

impl HpRange {
    /// Full hit points.
    pub open spec fn new_spec(amount: u16) -> HpRange {
        HpRange { amount, max: amount }
    }
}

impl BasePotion {
    /// A reference to this potion in the given slot.
    pub fn reference(&'static self, index: usize) -> (res: PotionReference)
        ensures
            res == (PotionReference { base: self, index }),
    {
        PotionReference { base: self, index }
    }
}

/// The rewards on screen, and what the player is doing with them.
#[derive(PartialEq, Eq, Hash, Clone, Debug)]
pub struct RewardState {
    pub rewards: im::Vector<Reward>,
    pub deck_operation: Option<DeckOperation>,
    pub viewing_reward: Option<usize>,
}

/// A reward that the player may take.
#[derive(PartialEq, Eq, Hash, Clone, Debug)]
pub enum Reward {
    CardChoice(im::Vector<CardOffer>, Option<FightType>, bool),
    Gold(u16),
    Relic(&'static BaseRelic),
    Potion(&'static BasePotion),
    EmeraldKey,
    SapphireKey,
    SapphireLinkedRelic(&'static BaseRelic),
}

} // verus!
