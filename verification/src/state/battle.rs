//! The state of a battle, as the rest of the run sees it.

use vstd::prelude::*;

use crate::models::common::{Amount, CardEffect, CardLocation, CardType, Condition, Effect, FightType, Stance, Target};
use crate::models::events::BaseEvent;
use crate::models::monsters::BaseMonster;
use crate::models::monsters::Intent;
use crate::spireai::references::{
    binding_creature, target_creature, PotionReference, target_resolves, Binding, BuffReference, CardReference,
    CreatureReference, GameAction, MonsterReference,
};
use crate::state::collections::{
    battle_monster_count, battle_monster_get, battle_monster_insert, battle_monster_remove, battle_monsters, deck_cards, deck_get, lists_monsters,
    monster_listing, orb_count, orb_items, uuid_seq, uuid_seq_items, uuid_set, uuid_set_items,
};
use crate::state::common::{
    buff_added, has_none_of_kind, is_first_of_kind, is_first_with_uuid, Buff, Card, Creature, HpRange, Monster, Orb, Vars,
};
use crate::state::game::GameState;
use crate::state::probability::Probability;

verus! {

/// How many cards a choice takes: from `start` up to, not including, `end`.
#[derive(PartialEq, Eq, Structural, Hash, Clone, Copy, Debug)]
pub struct CountRange {
    pub start: usize,
    pub end: usize,
}

/// The event that a battle came from: the event, the choices it had left, and its
/// counters.
#[derive(PartialEq, Eq, Clone, Debug)]
pub struct EventBattle {
    pub event: &'static BaseEvent,
    pub choices: Vec<String>,
    pub vars: Vars,
}

/// A choice of cards that a battle waits on: the cards to choose from, how many to take,
/// and what happens to them.
#[derive(PartialEq, Eq, Clone, Debug)]
pub struct CardChoiceState {
    pub choices: im::Vector<CardReference>,
    pub count_range: CountRange,
    pub then: im::Vector<&'static CardEffect>,
    pub scry: bool,
}

/// A battle: the player, the cards in each pile, the monsters, orbs, energy and stance,
/// the counts the rules look at, and the run of the player.
#[derive(PartialEq, Eq, Clone, Debug)]
pub struct BattleState {
    pub deck_references: im::HashMap<u128, u128>,
    pub player: Creature,
    pub cards: im::HashMap<u128, Card>,
    pub draw: im::HashSet<u128>,
    pub draw_top_known: im::Vector<u128>,
    pub draw_bottom_known: im::Vector<u128>,
    pub draw_inserted: im::Vector<u128>,
    pub discard: im::Vector<u128>,
    pub exhaust: im::HashSet<u128>,
    pub hand: im::HashSet<u128>,
    pub monsters: im::HashMap<u128, Monster>,
    pub orbs: im::Vector<Orb>,
    pub orb_slots: u8,
    pub energy: u8,
    pub base_energy: u8,
    pub stance: Stance,
    pub fight_type: FightType,
    pub event_battle: Option<EventBattle>,
    pub draw_visible: bool,
    pub discard_count: u8,
    pub play_count: u8,
    pub hp_loss_count: u8,
    pub power_count: u8,
    pub last_card_played: Option<CardType>,
    pub end_turn: bool,
    pub gold_recovered: u16,
    pub skip_monsters: bool,
    pub wish: u8,
    pub blizzard: u8,
    pub stance_pot: bool,
    pub game_state: GameState,
    pub card_choose: Option<CardChoiceState>,
    pub battle_over: bool,
    pub skip_rewards: bool,
}

/// Whether a list names each card of a pile once, as a reference to it in that pile,
/// with the kind of card that the battle holds under its identifier.
pub open spec fn lists_pile(items: Seq<CardReference>, pile: Set<u128>, cards: Map<u128, Card>, location: CardLocation) -> bool {
    &&& forall|i: int| 0 <= i < items.len() ==> pile.contains(#[trigger] items[i].uuid) && items[i].location == location
        && items[i].base == cards[items[i].uuid].base
    &&& forall|i: int, j: int| 0 <= i < j < items.len() ==> (#[trigger] items[i]).uuid != (#[trigger] items[j]).uuid
    &&& forall|k: u128| #[trigger] pile.contains(k) ==> exists|i: int| 0 <= i < items.len() && (#[trigger] items[i]).uuid == k
}

/// The monsters that can be targeted, in the order of a listing of the monsters.
pub open spec fn targets_of(items: Seq<(u128, u128, &'static BaseMonster, bool)>) -> Seq<MonsterReference>
    decreases items.len(),
{
    if items.len() == 0 {
        Seq::empty()
    } else {
        let rest = targets_of(items.drop_last());
        let t = items.last();
        if t.3 {
            rest.push(MonsterReference { base: t.2, uuid: t.1 })
        } else {
            rest
        }
    }
}

/// Whether a card is of a kind that is an attack.
pub open spec fn is_attack_in(cards: Map<u128, Card>, k: u128) -> bool {
    cards[k].base._type == CardType::Attack
}

/// The test of being an attack, for the cards of a battle.
pub open spec fn attack_test(cards: Map<u128, Card>) -> spec_fn(u128) -> bool {
    |k: u128| is_attack_in(cards, k)
}

/// Whether a card's own condition for being played is one that can be told: always,
/// never, or that of Clash, Grand Finale, Impatience or Signature Move.
pub open spec fn playable_condition_known(c: Card) -> bool {
    match c.base.playable_if {
        Condition::Always | Condition::Never => true,
        Condition::Custom => c.base.name@ == "Clash"@ || c.base.name@ == "Grand Finale"@
            || c.base.name@ == "Impatience"@ || c.base.name@ == "Signature Move"@,
        _ => false,
    }
}

impl BattleState {
    /// Whether every card in the hand is one that the battle holds.
    pub open spec fn hand_known(&self) -> bool {
        forall|k: u128| #[trigger] uuid_set(self.hand).contains(k) ==> deck_cards(self.cards).contains_key(k)
    }

    /// How many attacks the hand holds.
    pub open spec fn attacks_in_hand(&self) -> nat {
        uuid_set(self.hand).filter(attack_test(deck_cards(self.cards))).len()
    }

    /// Whether the player has the energy for a card, or plays attacks for free.
    pub open spec fn affordable(&self, c: Card) -> bool {
        c.cost <= self.energy || (c.base._type == CardType::Attack && !has_none_of_kind(
            self.player.buffs@,
            "Free Attack Power"@,
        ))
    }

    /// Whether a card can be played: the player can pay for it, and its own condition
    /// holds. Clash wants a hand of attacks alone, Grand Finale an empty draw pile,
    /// Impatience a hand without attacks, and Signature Move one attack in hand.
    pub open spec fn playable_spec(&self, c: Card) -> bool {
        &&& self.affordable(c)
        &&& match c.base.playable_if {
            Condition::Always => true,
            Condition::Custom => if c.base.name@ == "Clash"@ {
                forall|k: u128| #[trigger] uuid_set(self.hand).contains(k) ==> is_attack_in(deck_cards(self.cards), k)
            } else if c.base.name@ == "Grand Finale"@ {
                uuid_set(self.draw).is_empty()
            } else if c.base.name@ == "Impatience"@ {
                forall|k: u128| #[trigger] uuid_set(self.hand).contains(k) ==> !is_attack_in(deck_cards(self.cards), k)
            } else {
                self.attacks_in_hand() == 1
            },
            _ => false,
        }
    }

    /// The cards in hand, each once, in an order that is not stated.
    pub fn hand(&self) -> (res: Vec<CardReference>)
        requires
            self.hand_known(),
        ensures
            lists_pile(res@, uuid_set(self.hand), deck_cards(self.cards), CardLocation::PlayerHand),
    {
        let ids = uuid_set_items(&self.hand);
        let mut res: Vec<CardReference> = Vec::new();
        let mut i: usize = 0;
        while i < ids.len()
            invariant
                0 <= i <= ids@.len(),
                ids@.no_duplicates(),
                ids@.to_set() == uuid_set(self.hand),
                self.hand_known(),
                res@.len() == i,
                forall|j: int| 0 <= j < i ==> (#[trigger] res@[j]).uuid == ids@[j]
                    && res@[j].location == CardLocation::PlayerHand
                    && res@[j].base == deck_cards(self.cards)[ids@[j]].base,
            decreases ids@.len() - i,
        {
            let uuid = ids[i];
            assert(ids@.to_set().contains(ids@[i as int]));
            let base = match deck_get(&self.cards, uuid) {
                Some(c) => c.base,
                None => vstd::pervasive::unreached(),
            };
            res.push(CardReference { location: CardLocation::PlayerHand, uuid, base });
            i = i + 1;
        }
        proof {
            assert forall|j: int| 0 <= j < res@.len() implies uuid_set(self.hand).contains(#[trigger] res@[j].uuid) by {
                assert(ids@.to_set().contains(ids@[j]));
            }
            assert forall|a: int, b: int| 0 <= a < b < res@.len() implies (#[trigger] res@[a]).uuid != (#[trigger] res@[b]).uuid by {
                assert(ids@[a] != ids@[b]);
            }
            assert forall|k: u128| #[trigger] uuid_set(self.hand).contains(k) implies exists|a: int| 0 <= a < res@.len() && (#[trigger] res@[a]).uuid == k by {
                assert(ids@.to_set().contains(k));
                let a = choose|a: int| 0 <= a < ids@.len() && ids@[a] == k;
                assert(res@[a].uuid == k);
            }
        }
        res
    }

    /// The monsters that can be targeted, each once, in an order that is not stated.
    pub fn available_monsters(&self) -> (res: Vec<MonsterReference>)
        ensures
            exists|l: Seq<(u128, u128, &'static BaseMonster, bool)>| #[trigger] lists_monsters(l, battle_monsters(self.monsters))
                && res@ == targets_of(l),
    {
        let listing = monster_listing(&self.monsters);
        let res = targets_in(&listing);
        assert(lists_monsters(listing@, battle_monsters(self.monsters)));
        res
    }

    /// The card of a reference, which the battle must hold.
    pub fn get_card(&self, card: CardReference) -> (res: Card)
        requires
            deck_cards(self.cards).contains_key(card.uuid),
        ensures
            res == deck_cards(self.cards)[card.uuid],
    {
        match deck_get(&self.cards, card.uuid) {
            Some(c) => c,
            None => vstd::pervasive::unreached(),
        }
    }

    /// Whether the card can be played now: see `playable_spec`.
    pub fn card_playable(&self, card: CardReference) -> (res: bool)
        requires
            deck_cards(self.cards).contains_key(card.uuid),
            self.hand_known(),
            self.affordable(deck_cards(self.cards)[card.uuid]) ==> playable_condition_known(
                deck_cards(self.cards)[card.uuid],
            ),
        ensures
            res == self.playable_spec(deck_cards(self.cards)[card.uuid]),
    {
        let card = self.get_card(card);
        let affordable = card.cost <= self.energy || (card.base._type == CardType::Attack
            && self.player.has_buff_named("Free Attack Power"));
        if !affordable {
            return false;
        }
        match &card.base.playable_if {
            Condition::Always => true,
            Condition::Never => false,
            Condition::Custom => {
                let name = card.base.name.as_str();
                if crate::models::common::str_eq(name, "Grand Finale") {
                    let draw = uuid_set_items(&self.draw);
                    proof {
                        reveal_strlit("Clash");
                        reveal_strlit("Grand Finale");
                        assert("Grand Finale"@[0] != "Clash"@[0]);
                        if draw@.len() == 0 {
                            assert(draw@.to_set() =~= Set::empty());
                        } else {
                            assert(draw@.to_set().contains(draw@[0]));
                        }
                    }
                    draw.len() == 0
                } else {
                    let ids = uuid_set_items(&self.hand);
                    let ghost cards = deck_cards(self.cards);
                    let ghost p = attack_test(cards);
                    let mut attacks: usize = 0;
                    let mut i: usize = 0;
                    while i < ids.len()
                        invariant
                            0 <= i <= ids@.len(),
                            ids@.to_set() == uuid_set(self.hand),
                            self.hand_known(),
                            cards == deck_cards(self.cards),
                            p == attack_test(cards),
                            attacks == ids@.take(i as int).filter(p).len(),
                        decreases ids@.len() - i,
                    {
                        assert(ids@.to_set().contains(ids@[i as int]));
                        let c = match deck_get(&self.cards, ids[i]) {
                            Some(c) => c,
                            None => vstd::pervasive::unreached(),
                        };
                        assert(ids@.take(i + 1) == ids@.take(i as int).push(ids@[i as int]));
                        proof {
                            ids@.take(i as int).lemma_filter_push(ids@[i as int], p);
                        }
                        if c.base._type == CardType::Attack {
                            attacks = attacks + 1;
                        }
                        i = i + 1;
                    }
                    proof {
                        assert(ids@.take(ids@.len() as int) == ids@);
                        lemma_filter_count(ids@, p);
                        assert(ids@.to_set().filter(p) == uuid_set(self.hand).filter(p));
                    }
                    if crate::models::common::str_eq(name, "Clash") {
                        proof {
                            reveal_strlit("Clash");
                            reveal_strlit("Grand Finale");
                        }
                        let res = attacks == ids.len();
                        proof {
                            lemma_all_when_counted(ids@, p);
                            if res {
                                assert forall|k: u128| #[trigger] uuid_set(self.hand).contains(k) implies is_attack_in(
                                    deck_cards(self.cards),
                                    k,
                                ) by {
                                    assert(ids@.to_set().contains(k));
                                    assert(p(k));
                                }
                            } else {
                                let k = choose|k: u128| #[trigger] ids@.to_set().contains(k) && !p(k);
                                assert(uuid_set(self.hand).contains(k));
                            }
                        }
                        res
                    } else if crate::models::common::str_eq(name, "Impatience") {
                        proof {
                            reveal_strlit("Impatience");
                            reveal_strlit("Grand Finale");
                            reveal_strlit("Clash");
                            lemma_none_when_counted(ids@, p);
                            if attacks == 0 {
                                assert forall|k: u128| #[trigger] uuid_set(self.hand).contains(k) implies !is_attack_in(
                                    deck_cards(self.cards),
                                    k,
                                ) by {
                                    assert(ids@.to_set().contains(k));
                                    assert(!p(k));
                                }
                            } else {
                                let k = choose|k: u128| #[trigger] ids@.to_set().contains(k) && p(k);
                                assert(uuid_set(self.hand).contains(k));
                            }
                        }
                        attacks == 0
                    } else {
                        proof {
                            reveal_strlit("Impatience");
                            reveal_strlit("Grand Finale");
                            reveal_strlit("Clash");
                            reveal_strlit("Signature Move");
                        }
                        attacks == 1
                    }
                }
            },
            _ => vstd::pervasive::unreached(),
        }
    }
}

/// The monsters of a listing that can be targeted, in the listing's order.
pub fn targets_in(listing: &Vec<(u128, u128, &'static BaseMonster, bool)>) -> (res: Vec<MonsterReference>)
    ensures
        res@ == targets_of(listing@),
{
    let mut res: Vec<MonsterReference> = Vec::new();
    let mut i: usize = 0;
    while i < listing.len()
        invariant
            0 <= i <= listing@.len(),
            res@ == targets_of(listing@.take(i as int)),
        decreases listing@.len() - i,
    {
        let (_, uuid, base, targetable) = listing[i];
        assert(listing@.take(i + 1).drop_last() == listing@.take(i as int));
        if targetable {
            res.push(MonsterReference { base, uuid });
        }
        i = i + 1;
    }
    assert(listing@.take(listing@.len() as int) == listing@);
    res
}

/// In a list without repeats, the items that pass a test are as many as the members of
/// the list's set that pass it.
pub proof fn lemma_filter_count(l: Seq<u128>, p: spec_fn(u128) -> bool)
    requires
        l.no_duplicates(),
    ensures
        l.filter(p).len() == l.to_set().filter(p).len(),
    decreases l.len(),
{
    if l.len() == 0 {
        assert(l.to_set().filter(p) =~= Set::empty());
        assert(l.filter(p) =~= Seq::empty());
    } else {
        let init = l.drop_last();
        let x = l.last();
        assert(init.no_duplicates());
        lemma_filter_count(init, p);
        assert(l == init.push(x));
        init.lemma_filter_push(x, p);
        assert(l.to_set() =~= init.to_set().insert(x));
        assert(!init.to_set().contains(x));
        vstd::seq_lib::seq_to_set_is_finite(init);
        if p(x) {
            assert(l.to_set().filter(p) =~= init.to_set().filter(p).insert(x));
        } else {
            assert(l.to_set().filter(p) =~= init.to_set().filter(p));
        }
    }
}

/// Every item of a list passes a test exactly when the items that pass are the whole
/// list.
pub proof fn lemma_all_when_counted(l: Seq<u128>, p: spec_fn(u128) -> bool)
    ensures
        (l.filter(p).len() == l.len()) <==> (forall|k: u128| #[trigger] l.to_set().contains(k) ==> p(k)),
    decreases l.len(),
{
    if l.len() == 0 {
        assert(l.filter(p) =~= Seq::empty());
    } else {
        let init = l.drop_last();
        let x = l.last();
        lemma_all_when_counted(init, p);
        assert(l == init.push(x));
        init.lemma_filter_push(x, p);
        init.lemma_filter_len(p);
        assert(l.to_set() =~= init.to_set().insert(x));
        if !p(x) {
            assert(l.to_set().contains(x));
        } else {
            if forall|k: u128| #[trigger] l.to_set().contains(k) ==> p(k) {
                assert forall|k: u128| #[trigger] init.to_set().contains(k) implies p(k) by {
                    assert(l.to_set().contains(k));
                }
            }
            if forall|k: u128| #[trigger] init.to_set().contains(k) ==> p(k) {
                assert forall|k: u128| #[trigger] l.to_set().contains(k) implies p(k) by {
                    if k != x {
                        assert(init.to_set().contains(k));
                    }
                }
            }
        }
    }
}

/// No item of a list passes a test exactly when none of the items pass.
pub proof fn lemma_none_when_counted(l: Seq<u128>, p: spec_fn(u128) -> bool)
    ensures
        (l.filter(p).len() == 0) <==> (forall|k: u128| #[trigger] l.to_set().contains(k) ==> !p(k)),
    decreases l.len(),
{
    if l.len() == 0 {
        assert(l.filter(p) =~= Seq::empty());
    } else {
        let init = l.drop_last();
        let x = l.last();
        lemma_none_when_counted(init, p);
        assert(l == init.push(x));
        init.lemma_filter_push(x, p);
        assert(l.to_set() =~= init.to_set().insert(x));
        if p(x) {
            assert(l.to_set().contains(x));
        } else {
            if forall|k: u128| #[trigger] l.to_set().contains(k) ==> !p(k) {
                assert forall|k: u128| #[trigger] init.to_set().contains(k) implies !p(k) by {
                    assert(l.to_set().contains(k));
                }
            }
            if forall|k: u128| #[trigger] init.to_set().contains(k) ==> !p(k) {
                assert forall|k: u128| #[trigger] l.to_set().contains(k) implies !p(k) by {
                    if k != x {
                        assert(init.to_set().contains(k));
                    }
                }
            }
        }
    }
}

// ---- what a battle holds, by reference ----
/// The monster that a reference names, if the battle still holds it.
pub open spec fn monster_of(b: BattleState, m: MonsterReference) -> Option<Monster> {
    if battle_monsters(b.monsters).contains_key(m.uuid) {
        Some(battle_monsters(b.monsters)[m.uuid])
    } else {
        None
    }
}

/// The creature that a reference names: the player, or a monster the battle still holds.
pub open spec fn creature_at(b: BattleState, c: CreatureReference) -> Option<Creature> {
    match c {
        CreatureReference::Player => Some(b.player),
        CreatureReference::Creature(m) => match monster_of(b, m) {
            Some(mon) => Some(mon.creature),
            None => None,
        },
    }
}

/// The first buff of a list with the given identifier, if any.
pub open spec fn buff_with_uuid(buffs: Seq<Buff>, uuid: u128) -> Option<Buff> {
    if exists|i: int| 0 <= i < buffs.len() && (#[trigger] buffs[i]).uuid == uuid {
        Some(buffs[choose|i: int| is_first_with_uuid(buffs, uuid, i)])
    } else {
        None
    }
}

/// The counters that a binding names: those of a buff, a card, a monster or a relic the
/// battle holds.
pub open spec fn vars_of(b: BattleState, binding: Binding) -> Option<Vars> {
    match binding {
        Binding::Buff(buff) => match creature_at(b, buff.creature) {
            Some(c) => match buff_with_uuid(c.buffs@, buff.buff) {
                Some(x) => Some(x.vars),
                None => None,
            },
            None => None,
        },
        Binding::Card(card) => if deck_cards(b.cards).contains_key(card.uuid) {
            Some(deck_cards(b.cards)[card.uuid].vars)
        } else {
            None
        },
        Binding::Creature(CreatureReference::Creature(m)) => match monster_of(b, m) {
            Some(mon) => Some(mon.vars),
            None => None,
        },
        Binding::Relic(relic) => match b.game_state.relics.find_spec(relic.base.name@) {
            Some(r) => Some(r.vars),
            None => None,
        },
        _ => None,
    }
}

/// Whether a binding is upgraded: a card that has an upgrade, or a potion with the
/// Sacred Bark.
pub open spec fn upgraded_spec(b: BattleState, binding: Binding) -> bool {
    match binding {
        Binding::Card(card) => deck_cards(b.cards)[card.uuid].upgrades > 0,
        _ => b.game_state.relics.has("Sacred Bark"@),
    }
}

/// Whether it can be told whether a binding is upgraded: a card that the battle holds,
/// or a potion.
pub open spec fn upgraded_known(b: BattleState, binding: Binding) -> bool {
    match binding {
        Binding::Card(card) => deck_cards(b.cards).contains_key(card.uuid),
        Binding::Potion(_) => true,
        _ => false,
    }
}

/// Two first positions of an identifier in a list are the same.
proof fn lemma_first_uuid_unique(buffs: Seq<Buff>, uuid: u128, i: int)
    requires
        is_first_with_uuid(buffs, uuid, i),
    ensures
        buff_with_uuid(buffs, uuid) == Some(buffs[i]),
{
    assert(buffs[i].uuid == uuid);
    let j = choose|j: int| is_first_with_uuid(buffs, uuid, j);
    assert(is_first_with_uuid(buffs, uuid, j));
    if j < i {
        assert(buffs[j].uuid != uuid);
    }
    if i < j {
        assert(buffs[i].uuid != uuid);
    }
}

impl BattleState {
    /// The monster that a reference names, if the battle still holds it.
    pub fn get_monster(&self, monster: MonsterReference) -> (res: Option<&Monster>)
        ensures
            match res {
                Some(m) => monster_of(*self, monster) == Some(*m),
                None => monster_of(*self, monster) is None,
            },
    {
        battle_monster_get(&self.monsters, monster.uuid)
    }

    /// The creature that a reference names, if the battle holds it.
    pub fn get_creature(&self, creature: CreatureReference) -> (res: Option<&Creature>)
        ensures
            match res {
                Some(c) => creature_at(*self, creature) == Some(*c),
                None => creature_at(*self, creature) is None,
            },
    {
        match creature {
            CreatureReference::Player => Some(&self.player),
            CreatureReference::Creature(monster) => match self.get_monster(monster) {
                Some(m) => Some(&m.creature),
                None => None,
            },
        }
    }

    /// The buff that a reference names, if its creature has it.
    pub fn get_buff(&self, buff: BuffReference) -> (res: Option<&Buff>)
        ensures
            match res {
                Some(x) => creature_at(*self, buff.creature) matches Some(c) && buff_with_uuid(c.buffs@, buff.buff) == Some(*x),
                None => match creature_at(*self, buff.creature) {
                    Some(c) => buff_with_uuid(c.buffs@, buff.buff) is None,
                    None => true,
                },
            },
    {
        match self.get_creature(buff.creature) {
            Some(c) => {
                let found = c.get_buff(buff);
                proof {
                    match found {
                        Some(x) => {
                            let i = choose|i: int| is_first_with_uuid(c.buffs@, buff.buff, i) && c.buffs@[i] == *x;
                            lemma_first_uuid_unique(c.buffs@, buff.buff, i);
                        },
                        None => {},
                    }
                }
                found
            },
            None => None,
        }
    }

    /// The monster that a binding acts for, if it is a monster the battle holds.
    pub fn get_monster_binding(&self, binding: Binding) -> (res: Option<&Monster>)
        ensures
            match binding {
                Binding::Buff(_) | Binding::Creature(_) => match binding_creature(binding) {
                    CreatureReference::Creature(m) => match res {
                        Some(x) => monster_of(*self, m) == Some(*x),
                        None => monster_of(*self, m) is None,
                    },
                    CreatureReference::Player => res is None,
                },
                _ => res is None,
            },
    {
        match binding {
            Binding::Buff(buff) => match buff.creature.monster_ref() {
                Some(m) => self.get_monster(m),
                None => None,
            },
            Binding::Creature(creature) => match creature.monster_ref() {
                Some(m) => self.get_monster(m),
                None => None,
            },
            _ => None,
        }
    }

    /// The counters that a binding names, which the battle must hold.
    pub fn get_vars(&self, binding: Binding) -> (res: Vars)
        requires
            vars_of(*self, binding) is Some,
        ensures
            vars_of(*self, binding) == Some(res),
    {
        match binding {
            Binding::Buff(buff) => match self.get_buff(buff) {
                Some(x) => x.vars,
                None => vstd::pervasive::unreached(),
            },
            Binding::Card(card) => self.get_card(card).vars,
            Binding::Creature(creature) => match creature.monster_ref() {
                Some(m) => match self.get_monster(m) {
                    Some(mon) => mon.vars,
                    None => vstd::pervasive::unreached(),
                },
                None => vstd::pervasive::unreached(),
            },
            Binding::Relic(relic) => match self.game_state.relics.find(relic.base.name.as_str()) {
                Some(r) => r.vars,
                None => vstd::pervasive::unreached(),
            },
            Binding::Potion(_) => vstd::pervasive::unreached(),
        }
    }

    /// Whether a binding is upgraded: a card with an upgrade, or a potion with the Sacred
    /// Bark.
    pub fn is_upgraded(&self, binding: Binding) -> (res: bool)
        requires
            upgraded_known(*self, binding),
        ensures
            res == upgraded_spec(*self, binding),
    {
        match binding {
            Binding::Card(card) => self.get_card(card).upgrades > 0,
            Binding::Potion(_) => self.game_state.relics.contains("Sacred Bark"),
            _ => vstd::pervasive::unreached(),
        }
    }
}

// ---- amounts in battle ----
/// The fight that scales an amount by ascension: the monster's own, for an effect bound
/// to a monster, else the battle's.
pub open spec fn amount_fight(b: BattleState, binding: Binding) -> FightType {
    match binding_creature(binding) {
        CreatureReference::Creature(m) => m.base.fight_type,
        CreatureReference::Player => b.fight_type,
    }
}

/// An amount by ascension: the high value from ascension 17 (18 for elites, 19 for
/// bosses), the low one from ascension 2 (3, 4), else the base amount.
pub open spec fn by_asc(fight: FightType, asc: u8, amount: i16, low: i16, high: i16) -> i16 {
    let (top, mid) = match fight {
        FightType::Common => (17u8, 2u8),
        FightType::Elite { .. } => (18u8, 3u8),
        FightType::Boss => (19u8, 4u8),
    };
    if asc >= top {
        high
    } else if asc >= mid {
        low
    } else {
        amount
    }
}

impl BattleState {
    /// The value of an amount in battle, for the effect's binding: by ascension, the
    /// blizzard count, the player's block, the number of monsters, the binding's
    /// counters, the number of orbs, the bound creature's maximum hit points, a fixed
    /// value, a product or sum, or a value that depends on the binding being upgraded.
    /// Counts and hit points are read as an `i16`, as a cast would.
    pub open spec fn battle_amount(&self, a: Amount, binding: Binding) -> int
        decreases a, 0int,
    {
        match a {
            Amount::ByAsc { amount, low, high } => by_asc(amount_fight(*self, binding), self.game_state.asc, amount, low, high) as int,
            Amount::Blizzard => self.blizzard as int,
            Amount::Shield | Amount::PlayerBlock => (self.player.block as i16) as int,
            Amount::EnemyCount => (battle_monsters(self.monsters).dom().len() as i16) as int,
            Amount::N => vars_of(*self, binding).unwrap().n as int,
            Amount::NegX => -(vars_of(*self, binding).unwrap().x as int),
            Amount::X => vars_of(*self, binding).unwrap().x as int,
            Amount::OrbCount => (orb_items(self.orbs).len() as i16) as int,
            Amount::MaxHp => (creature_at(*self, binding_creature(binding)).unwrap().hp.max as i16) as int,
            Amount::Fixed(x) => x as int,
            Amount::Mult(v) => self.battle_product(v@, binding, v@.len() as int),
            Amount::Sum(v) => self.battle_sum(v@, binding, v@.len() as int),
            Amount::Upgradable { amount, upgraded } => if upgraded_spec(*self, binding) {
                upgraded as int
            } else {
                amount as int
            },
            _ => 0,
        }
    }

    /// The product of the values of the first `k` amounts of a list.
    pub open spec fn battle_product(&self, s: Seq<Amount>, binding: Binding, k: int) -> int
        decreases s, k,
    {
        if k <= 0 || k > s.len() {
            1
        } else {
            self.battle_product(s, binding, k - 1) * self.battle_amount(s[k - 1], binding)
        }
    }

    /// The sum of the values of the first `k` amounts of a list.
    pub open spec fn battle_sum(&self, s: Seq<Amount>, binding: Binding, k: int) -> int
        decreases s, k,
    {
        if k <= 0 || k > s.len() {
            0
        } else {
            self.battle_sum(s, binding, k - 1) + self.battle_amount(s[k - 1], binding)
        }
    }

    /// Whether an amount can be valued in battle: its binding has counters where it
    /// reads them (an `X` to negate above the lowest `i16`), a creature where it reads
    /// hit points, an upgrade to tell where it depends on one, and each partial product
    /// and sum is within the range of an `i16`. Custom amounts cannot be valued.
    pub open spec fn battle_amount_fits(&self, a: Amount, binding: Binding) -> bool
        decreases a, 0int,
    {
        match a {
            Amount::N | Amount::X => vars_of(*self, binding) is Some,
            Amount::NegX => vars_of(*self, binding) is Some && vars_of(*self, binding).unwrap().x != i16::MIN,
            Amount::MaxHp => creature_at(*self, binding_creature(binding)) is Some,
            Amount::Upgradable { .. } => upgraded_known(*self, binding),
            Amount::Mult(v) => self.battle_product_fits(v@, binding, v@.len() as int),
            Amount::Sum(v) => self.battle_sum_fits(v@, binding, v@.len() as int),
            Amount::Custom => false,
            _ => true,
        }
    }

    /// Whether the first `k` amounts of a list can be valued, each partial product in
    /// range.
    pub open spec fn battle_product_fits(&self, s: Seq<Amount>, binding: Binding, k: int) -> bool
        decreases s, k,
    {
        if k <= 0 || k > s.len() {
            true
        } else {
            &&& self.battle_product_fits(s, binding, k - 1)
            &&& self.battle_amount_fits(s[k - 1], binding)
            &&& i16::MIN <= self.battle_product(s, binding, k) <= i16::MAX
        }
    }

    /// Whether the first `k` amounts of a list can be valued, each partial sum in range.
    pub open spec fn battle_sum_fits(&self, s: Seq<Amount>, binding: Binding, k: int) -> bool
        decreases s, k,
    {
        if k <= 0 || k > s.len() {
            true
        } else {
            &&& self.battle_sum_fits(s, binding, k - 1)
            &&& self.battle_amount_fits(s[k - 1], binding)
            &&& i16::MIN <= self.battle_sum(s, binding, k) <= i16::MAX
        }
    }

    /// Fitting the first `k` amounts means fitting each shorter prefix.
    proof fn lemma_battle_product_prefix(&self, s: Seq<Amount>, binding: Binding, k: int, j: int)
        requires
            self.battle_product_fits(s, binding, k),
            0 < j <= k <= s.len(),
        ensures
            self.battle_product_fits(s, binding, j),
            self.battle_amount_fits(s[j - 1], binding),
            i16::MIN <= self.battle_product(s, binding, j) <= i16::MAX,
        decreases k - j,
    {
        if j < k {
            self.lemma_battle_product_prefix(s, binding, k - 1, j);
        }
    }

    /// Fitting the first `k` amounts means fitting each shorter prefix.
    proof fn lemma_battle_sum_prefix(&self, s: Seq<Amount>, binding: Binding, k: int, j: int)
        requires
            self.battle_sum_fits(s, binding, k),
            0 < j <= k <= s.len(),
        ensures
            self.battle_sum_fits(s, binding, j),
            self.battle_amount_fits(s[j - 1], binding),
            i16::MIN <= self.battle_sum(s, binding, j) <= i16::MAX,
        decreases k - j,
    {
        if j < k {
            self.lemma_battle_sum_prefix(s, binding, k - 1, j);
        }
    }

    /// The value of an amount in battle (see `battle_amount`).
    pub fn eval_amount(&self, amount: &Amount, binding: Binding) -> (res: i16)
        requires
            self.battle_amount_fits(*amount, binding),
        ensures
            res == self.battle_amount(*amount, binding),
        decreases *amount,
    {
        match amount {
            Amount::ByAsc { amount, low, high } => {
                let fight_type = match binding.monster_ref() {
                    Some(m) => m.base.fight_type,
                    None => self.fight_type,
                };
                let (top, mid): (u8, u8) = match fight_type {
                    FightType::Common => (17, 2),
                    FightType::Elite { .. } => (18, 3),
                    FightType::Boss => (19, 4),
                };
                if self.game_state.asc >= top {
                    *high
                } else if self.game_state.asc >= mid {
                    *low
                } else {
                    *amount
                }
            },
            Amount::Blizzard => self.blizzard as i16,
            Amount::Shield => #[verifier::truncate] (self.player.block as i16),
            Amount::PlayerBlock => #[verifier::truncate] (self.player.block as i16),
            Amount::EnemyCount => #[verifier::truncate] (battle_monster_count(&self.monsters) as i16),
            Amount::N => self.get_vars(binding).n,
            Amount::NegX => -self.get_vars(binding).x,
            Amount::X => self.get_vars(binding).x,
            Amount::OrbCount => #[verifier::truncate] (orb_count(&self.orbs) as i16),
            Amount::MaxHp => match self.get_creature(binding.creature_ref()) {
                Some(c) => #[verifier::truncate] (c.hp.max as i16),
                None => vstd::pervasive::unreached(),
            },
            Amount::Fixed(amount) => *amount,
            Amount::Mult(amount_mult) => {
                let mut product: i16 = 1;
                let mut i: usize = 0;
                while i < amount_mult.len()
                    invariant
                        0 <= i <= amount_mult@.len(),
                        *amount == Amount::Mult(*amount_mult),
                        self.battle_product_fits(amount_mult@, binding, amount_mult@.len() as int),
                        product == self.battle_product(amount_mult@, binding, i as int),
                    decreases amount_mult@.len() - i,
                {
                    proof {
                        self.lemma_battle_product_prefix(amount_mult@, binding, amount_mult@.len() as int, i + 1);
                        assert(decreases_to!(*amount => (*amount)->Mult_0));
                        assert(decreases_to!(*amount_mult => amount_mult@));
                        assert(decreases_to!(amount_mult@ => amount_mult@[i as int]));
                        assert(decreases_to!(*amount => amount_mult@[i as int]));
                    }
                    let value = self.eval_amount(&amount_mult[i], binding);
                    product = product * value;
                    i = i + 1;
                }
                product
            },
            Amount::Sum(amount_sum) => {
                let mut sum: i16 = 0;
                let mut i: usize = 0;
                while i < amount_sum.len()
                    invariant
                        0 <= i <= amount_sum@.len(),
                        *amount == Amount::Sum(*amount_sum),
                        self.battle_sum_fits(amount_sum@, binding, amount_sum@.len() as int),
                        sum == self.battle_sum(amount_sum@, binding, i as int),
                    decreases amount_sum@.len() - i,
                {
                    proof {
                        self.lemma_battle_sum_prefix(amount_sum@, binding, amount_sum@.len() as int, i + 1);
                        assert(decreases_to!(*amount => (*amount)->Sum_0));
                        assert(decreases_to!(*amount_sum => amount_sum@));
                        assert(decreases_to!(amount_sum@ => amount_sum@[i as int]));
                        assert(decreases_to!(*amount => amount_sum@[i as int]));
                    }
                    let value = self.eval_amount(&amount_sum[i], binding);
                    sum = sum + value;
                    i = i + 1;
                }
                sum
            },
            Amount::Upgradable { amount, upgraded } => if self.is_upgraded(binding) {
                *upgraded
            } else {
                *amount
            },
            Amount::Custom => vstd::pervasive::unreached(),
        }
    }
}

// ---- conditions in battle ----
/// Whether an intent is an attack.
pub open spec fn is_attack_intent(intent: Intent) -> bool {
    intent is Attack || intent is AttackBuff || intent is AttackDebuff || intent is AttackDefend
}

/// The counter of the first buff of a kind in a list, or zero without one.
pub open spec fn buff_amount(buffs: Seq<Buff>, name: Seq<char>) -> int {
    if has_none_of_kind(buffs, name) {
        0
    } else {
        buffs[choose|i: int| is_first_of_kind(buffs, name, i)].vars.x as int
    }
}

/// A list that holds a buff of a kind holds a first one.
proof fn lemma_first_of_kind_exists(buffs: Seq<Buff>, name: Seq<char>)
    requires
        !has_none_of_kind(buffs, name),
    ensures
        exists|i: int| is_first_of_kind(buffs, name, i),
    decreases buffs.len(),
{
    let j = choose|j: int| 0 <= j < buffs.len() && (#[trigger] buffs[j]).base.name@ == name;
    let prefix = buffs.take(j);
    if has_none_of_kind(prefix, name) {
        assert forall|k: int| 0 <= k < j implies (#[trigger] buffs[k]).base.name@ != name by {
            assert(prefix[k] == buffs[k]);
        }
        assert(is_first_of_kind(buffs, name, j));
    } else {
        lemma_first_of_kind_exists(prefix, name);
        let i = choose|i: int| is_first_of_kind(prefix, name, i);
        assert forall|k: int| 0 <= k < i implies (#[trigger] buffs[k]).base.name@ != name by {
            assert(prefix[k] == buffs[k]);
        }
        assert(prefix[i] == buffs[i]);
        assert(is_first_of_kind(buffs, name, i));
    }
}

/// The counter of the first buff of a kind, as `buff_amount` states it.
proof fn lemma_buff_amount(buffs: Seq<Buff>, name: Seq<char>, v: i16)
    requires
        has_none_of_kind(buffs, name) ==> v == 0,
        forall|i: int| is_first_of_kind(buffs, name, i) ==> v == buffs[i].vars.x,
    ensures
        v == buff_amount(buffs, name),
{
    if !has_none_of_kind(buffs, name) {
        lemma_first_of_kind_exists(buffs, name);
        let i = choose|i: int| is_first_of_kind(buffs, name, i);
        assert(is_first_of_kind(buffs, name, i));
    }
}

/// The creature whose hit points the condition of half hit points looks at: the bound
/// creature for an effect bound to one, else the player.
pub open spec fn half_hp_creature(binding: Binding) -> CreatureReference {
    match binding {
        Binding::Creature(c) => c,
        _ => CreatureReference::Player,
    }
}

/// The monster that an effect bound to a creature or a buff acts for, if the battle
/// holds it.
pub open spec fn binding_monster(b: BattleState, binding: Binding) -> Option<Monster> {
    match binding {
        Binding::Buff(_) | Binding::Creature(_) => match binding_creature(binding) {
            CreatureReference::Creature(m) => monster_of(b, m),
            CreatureReference::Player => None,
        },
        _ => None,
    }
}

/// Whether a pile holds a card of a type.
pub open spec fn pile_has(b: BattleState, location: CardLocation, card: CardType) -> bool {
    let cards = deck_cards(b.cards);
    match location {
        CardLocation::DiscardPile => exists|i: int| 0 <= i < uuid_seq(b.discard).len() && cards[#[trigger] uuid_seq(b.discard)[i]].base._type == card,
        CardLocation::PlayerHand => exists|k: u128| #[trigger] uuid_set(b.hand).contains(k) && cards[k].base._type == card,
        CardLocation::ExhaustPile => exists|k: u128| #[trigger] uuid_set(b.exhaust).contains(k) && cards[k].base._type == card,
        CardLocation::DrawPile => exists|k: u128| #[trigger] uuid_set(b.draw).contains(k) && cards[k].base._type == card,
        CardLocation::Unplaced => false,
    }
}

/// Whether every card of a pile is one that the battle holds.
pub open spec fn pile_known(b: BattleState, location: CardLocation) -> bool {
    let cards = deck_cards(b.cards);
    match location {
        CardLocation::DiscardPile => forall|i: int| 0 <= i < uuid_seq(b.discard).len() ==> cards.contains_key(#[trigger] uuid_seq(b.discard)[i]),
        CardLocation::PlayerHand => forall|k: u128| #[trigger] uuid_set(b.hand).contains(k) ==> cards.contains_key(k),
        CardLocation::ExhaustPile => forall|k: u128| #[trigger] uuid_set(b.exhaust).contains(k) ==> cards.contains_key(k),
        CardLocation::DrawPile => forall|k: u128| #[trigger] uuid_set(b.draw).contains(k) ==> cards.contains_key(k),
        CardLocation::Unplaced => true,
    }
}

impl BattleState {
    /// Whether a condition holds in battle, for the effect's binding and the action in
    /// progress: a monster attacking, a creature with a buff (at least an amount of it),
    /// amounts equal or less, a monster of a name among the monsters, the bound creature
    /// at half hit points or less, a pile holding a card of a type, cards discarded, orb
    /// slots, the bound monster at a position, the last card played of a type, the
    /// player without block, a creature with enough hit points, a stance, an upgraded
    /// binding, their combinations; any other is judged on the run.
    pub open spec fn battle_condition(&self, c: Condition, binding: Binding, action: Option<GameAction>) -> bool
        decreases c, 0int,
    {
        match c {
            Condition::Attacking { target } => match target_creature(target, binding, action) {
                CreatureReference::Creature(m) => match monster_of(*self, m) {
                    Some(mon) => is_attack_intent(mon.intent),
                    None => false,
                },
                CreatureReference::Player => false,
            },
            Condition::Buff { target, buff } => match creature_at(*self, target_creature(target, binding, action)) {
                Some(cr) => !has_none_of_kind(cr.buffs@, buff.name@),
                None => false,
            },
            Condition::BuffX { target, buff, amount } => match creature_at(*self, target_creature(target, binding, action)) {
                Some(cr) => buff_amount(cr.buffs@, buff.name@) >= self.battle_amount(amount, binding),
                None => false,
            },
            Condition::Equals(a1, a2) => self.battle_amount(a1, binding) == self.battle_amount(a2, binding),
            Condition::LessThan(a1, a2) => self.battle_amount(a1, binding) < self.battle_amount(a2, binding),
            Condition::FriendlyDead(name) => exists|k: u128| #[trigger] battle_monsters(self.monsters).contains_key(k)
                && battle_monsters(self.monsters)[k].base.name@ == name@,
            Condition::HalfHp => match creature_at(*self, half_hp_creature(binding)) {
                Some(cr) => cr.hp.amount * 2 <= cr.hp.max,
                None => false,
            },
            Condition::HasCard { location, card } => pile_has(*self, location, card),
            Condition::HasDiscarded => self.discard_count > 0,
            Condition::HasOrbSlot => self.orb_slots > 0,
            Condition::InPosition(position) => binding_monster(*self, binding).unwrap().position == position,
            Condition::LastCard(t) => self.last_card_played == Some(t),
            Condition::MultipleAnd(v) => self.battle_all(v@, binding, action, v@.len() as int),
            Condition::MultipleOr(v) => self.battle_any(v@, binding, action, v@.len() as int),
            Condition::NoBlock => self.player.block == 0,
            Condition::Not(inner) => !self.battle_condition(*inner, binding, action),
            Condition::RemainingHp { amount, target } => match creature_at(*self, target_creature(target, binding, action)) {
                Some(cr) => cr.hp.amount >= (self.battle_amount(amount, binding) as u16),
                None => false,
            },
            Condition::Stance(stance) => self.stance == stance,
            Condition::Upgraded => upgraded_spec(*self, binding),
            _ => self.game_state.condition_holds(c),
        }
    }

    /// Whether each of the first `k` conditions of a list holds in battle.
    pub open spec fn battle_all(&self, s: Seq<Condition>, binding: Binding, action: Option<GameAction>, k: int) -> bool
        decreases s, k,
    {
        if k <= 0 || k > s.len() {
            true
        } else {
            self.battle_all(s, binding, action, k - 1) && self.battle_condition(s[k - 1], binding, action)
        }
    }

    /// Whether any of the first `k` conditions of a list holds in battle.
    pub open spec fn battle_any(&self, s: Seq<Condition>, binding: Binding, action: Option<GameAction>, k: int) -> bool
        decreases s, k,
    {
        if k <= 0 || k > s.len() {
            false
        } else {
            self.battle_any(s, binding, action, k - 1) || self.battle_condition(s[k - 1], binding, action)
        }
    }

    /// Whether a condition can be judged in battle: its target names a creature (a
    /// monster, for an attack), its amounts can be valued, the creature at half hit
    /// points can be doubled, the pile it looks at holds cards the battle holds, its
    /// binding names a monster for a position and can be told upgraded; the custom
    /// condition and that of the friendlies cannot; any other as the run judges it.
    pub open spec fn battle_condition_known(&self, c: Condition, binding: Binding, action: Option<GameAction>) -> bool
        decreases c, 0int,
    {
        match c {
            Condition::Attacking { target } => target_resolves(target, binding, action) && target_creature(target, binding, action) is Creature,
            Condition::Buff { target, .. } => target_resolves(target, binding, action),
            Condition::BuffX { target, amount, .. } => target_resolves(target, binding, action) && self.battle_amount_fits(amount, binding),
            Condition::Equals(a1, a2) | Condition::LessThan(a1, a2) => self.battle_amount_fits(a1, binding) && self.battle_amount_fits(a2, binding),
            Condition::HalfHp => match creature_at(*self, half_hp_creature(binding)) {
                Some(cr) => cr.hp.amount * 2 <= u16::MAX,
                None => true,
            },
            Condition::HasCard { location, .. } => pile_known(*self, location),
            Condition::InPosition(_) => binding_monster(*self, binding) is Some,
            Condition::MultipleAnd(v) | Condition::MultipleOr(v) => self.battle_all_known(v@, binding, action, v@.len() as int),
            Condition::Not(inner) => self.battle_condition_known(*inner, binding, action),
            Condition::RemainingHp { amount, target } => target_resolves(target, binding, action) && self.battle_amount_fits(amount, binding),
            Condition::Upgraded => upgraded_known(*self, binding),
            Condition::HasFriendlies(_) | Condition::Custom => false,
            Condition::FriendlyDead(_) | Condition::HasDiscarded | Condition::HasOrbSlot | Condition::LastCard(_)
            | Condition::NoBlock | Condition::Stance(_) => true,
            _ => self.game_state.condition_known(c),
        }
    }

    /// Whether each of the first `k` conditions of a list can be judged in battle.
    pub open spec fn battle_all_known(&self, s: Seq<Condition>, binding: Binding, action: Option<GameAction>, k: int) -> bool
        decreases s, k,
    {
        if k <= 0 || k > s.len() {
            true
        } else {
            self.battle_all_known(s, binding, action, k - 1) && self.battle_condition_known(s[k - 1], binding, action)
        }
    }
}

impl BattleState {
    /// Each of the first `k` conditions can be judged where all can.
    proof fn lemma_battle_known_prefix(&self, s: Seq<Condition>, binding: Binding, action: Option<GameAction>, k: int, j: int)
        requires
            self.battle_all_known(s, binding, action, k),
            0 < j <= k <= s.len(),
        ensures
            self.battle_condition_known(s[j - 1], binding, action),
        decreases k - j,
    {
        if j < k {
            self.lemma_battle_known_prefix(s, binding, action, k - 1, j);
        }
    }

    /// Once one of the first `j` conditions fails, not all of the first `k` hold.
    proof fn lemma_battle_all_fails(&self, s: Seq<Condition>, binding: Binding, action: Option<GameAction>, j: int, k: int)
        requires
            0 < j <= k <= s.len(),
            !self.battle_all(s, binding, action, j),
        ensures
            !self.battle_all(s, binding, action, k),
        decreases k - j,
    {
        if j < k {
            self.lemma_battle_all_fails(s, binding, action, j, k - 1);
        }
    }

    /// Once one of the first `j` conditions holds, one of the first `k` does.
    proof fn lemma_battle_any_stays(&self, s: Seq<Condition>, binding: Binding, action: Option<GameAction>, j: int, k: int)
        requires
            0 < j <= k <= s.len(),
            self.battle_any(s, binding, action, j),
        ensures
            self.battle_any(s, binding, action, k),
        decreases k - j,
    {
        if j < k {
            self.lemma_battle_any_stays(s, binding, action, j, k - 1);
        }
    }

    /// Whether a pile holds a card of a type (see `pile_has`).
    fn pile_has_type(&self, location: CardLocation, card: CardType) -> (res: bool)
        requires
            pile_known(*self, location),
        ensures
            res == pile_has(*self, location, card),
    {
        let ghost cards = deck_cards(self.cards);
        match location {
            CardLocation::DiscardPile => {
                let ids = uuid_seq_items(&self.discard);
                let mut i: usize = 0;
                while i < ids.len()
                    invariant
                        0 <= i <= ids@.len(),
                        ids@ == uuid_seq(self.discard),
                        cards == deck_cards(self.cards),
                        pile_known(*self, location),
                        location == CardLocation::DiscardPile,
                        forall|j: int| 0 <= j < i ==> cards[#[trigger] ids@[j]].base._type != card,
                    decreases ids@.len() - i,
                {
                    let c = match deck_get(&self.cards, ids[i]) {
                        Some(c) => c,
                        None => vstd::pervasive::unreached(),
                    };
                    if c.base._type == card {
                        return true;
                    }
                    i = i + 1;
                }
                false
            },
            CardLocation::PlayerHand | CardLocation::ExhaustPile | CardLocation::DrawPile => {
                let set = match location {
                    CardLocation::PlayerHand => &self.hand,
                    CardLocation::ExhaustPile => &self.exhaust,
                    _ => &self.draw,
                };
                let ids = uuid_set_items(set);
                let mut i: usize = 0;
                while i < ids.len()
                    invariant
                        0 <= i <= ids@.len(),
                        location == CardLocation::PlayerHand ==> *set == self.hand,
                        location == CardLocation::ExhaustPile ==> *set == self.exhaust,
                        location == CardLocation::DrawPile ==> *set == self.draw,
                        location == CardLocation::PlayerHand || location == CardLocation::ExhaustPile || location == CardLocation::DrawPile,
                        ids@.to_set() == uuid_set(*set),
                        cards == deck_cards(self.cards),
                        forall|k: u128| #[trigger] uuid_set(*set).contains(k) ==> cards.contains_key(k),
                        forall|j: int| 0 <= j < i ==> cards[#[trigger] ids@[j]].base._type != card,
                    decreases ids@.len() - i,
                {
                    assert(ids@.to_set().contains(ids@[i as int]));
                    let c = match deck_get(&self.cards, ids[i]) {
                        Some(c) => c,
                        None => vstd::pervasive::unreached(),
                    };
                    if c.base._type == card {
                        assert(uuid_set(*set).contains(ids@[i as int]));
                        return true;
                    }
                    i = i + 1;
                }
                proof {
                    assert forall|k: u128| #[trigger] uuid_set(*set).contains(k) implies cards[k].base._type != card by {
                        assert(ids@.to_set().contains(k));
                        let j = choose|j: int| 0 <= j < ids@.len() && ids@[j] == k;
                        assert(cards[ids@[j]].base._type != card);
                    }
                }
                false
            },
            CardLocation::Unplaced => false,
        }
    }

    /// Whether a monster of the given name is among the monsters.
    fn has_monster_named(&self, name: &str) -> (res: bool)
        ensures
            res == exists|k: u128| #[trigger] battle_monsters(self.monsters).contains_key(k)
                && battle_monsters(self.monsters)[k].base.name@ == name@,
    {
        let listing = monster_listing(&self.monsters);
        let ghost m = battle_monsters(self.monsters);
        let mut i: usize = 0;
        while i < listing.len()
            invariant
                0 <= i <= listing@.len(),
                lists_monsters(listing@, m),
                m == battle_monsters(self.monsters),
                forall|j: int| 0 <= j < i ==> (#[trigger] listing@[j]).2.name@ != name@,
            decreases listing@.len() - i,
        {
            if crate::models::common::str_eq(listing[i].2.name.as_str(), name) {
                assert(m.contains_key(listing@[i as int].0));
                return true;
            }
            i = i + 1;
        }
        proof {
            assert forall|k: u128| #[trigger] m.contains_key(k) implies m[k].base.name@ != name@ by {
                let j = choose|j: int| 0 <= j < listing@.len() && (#[trigger] listing@[j]).0 == k;
                assert(m.contains_key(listing@[j].0));
            }
        }
        false
    }

    /// Whether a condition holds in battle (see `battle_condition`).
    pub fn eval_condition(&self, condition: &Condition, binding: Binding, action: Option<GameAction>) -> (res: bool)
        requires
            self.battle_condition_known(*condition, binding, action),
        ensures
            res == self.battle_condition(*condition, binding, action),
        decreases *condition,
    {
        match condition {
            Condition::Attacking { target } => match target.creature_ref(binding, action) {
                CreatureReference::Creature(monster) => match self.get_monster(monster) {
                    Some(m) => match m.intent {
                        Intent::Attack | Intent::AttackBuff | Intent::AttackDebuff | Intent::AttackDefend => true,
                        _ => false,
                    },
                    None => false,
                },
                CreatureReference::Player => vstd::pervasive::unreached(),
            },
            Condition::Buff { target, buff } => {
                let creature = target.creature_ref(binding, action);
                match self.get_creature(creature) {
                    Some(c) => c.has_buff(buff),
                    None => false,
                }
            },
            Condition::BuffX { target, buff, amount } => {
                let val = self.eval_amount(amount, binding);
                match self.get_creature(target.creature_ref(binding, action)) {
                    Some(c) => {
                        let have = c.get_buff_amount(buff);
                        proof {
                            lemma_buff_amount(c.buffs@, buff.name@, have);
                        }
                        have >= val
                    },
                    None => false,
                }
            },
            Condition::Equals(amount1, amount2) => self.eval_amount(amount1, binding) == self.eval_amount(amount2, binding),
            Condition::LessThan(amount1, amount2) => self.eval_amount(amount1, binding) < self.eval_amount(amount2, binding),
            Condition::FriendlyDead(name) => self.has_monster_named(name.as_str()),
            Condition::HalfHp => {
                let creature = match binding {
                    Binding::Creature(c) => c,
                    _ => CreatureReference::Player,
                };
                match self.get_creature(creature) {
                    Some(c) => c.hp.amount * 2 <= c.hp.max,
                    None => false,
                }
            },
            Condition::HasCard { location, card } => self.pile_has_type(*location, *card),
            Condition::HasDiscarded => self.discard_count > 0,
            Condition::HasOrbSlot => self.orb_slots > 0,
            Condition::InPosition(position) => match self.get_monster_binding(binding) {
                Some(m) => m.position == *position,
                None => vstd::pervasive::unreached(),
            },
            Condition::LastCard(t) => match self.last_card_played {
                Some(last) => last == *t,
                None => false,
            },
            Condition::MultipleAnd(conditions) => {
                let mut i: usize = 0;
                while i < conditions.len()
                    invariant
                        0 <= i <= conditions@.len(),
                        *condition == Condition::MultipleAnd(*conditions),
                        self.battle_all_known(conditions@, binding, action, conditions@.len() as int),
                        self.battle_all(conditions@, binding, action, i as int),
                    decreases conditions@.len() - i,
                {
                    proof {
                        self.lemma_battle_known_prefix(conditions@, binding, action, conditions@.len() as int, i + 1);
                        assert(decreases_to!(*condition => (*condition)->MultipleAnd_0));
                        assert(decreases_to!(*conditions => conditions@));
                        assert(decreases_to!(conditions@ => conditions@[i as int]));
                        assert(decreases_to!(*condition => conditions@[i as int]));
                    }
                    if !self.eval_condition(&conditions[i], binding, action) {
                        proof {
                            self.lemma_battle_all_fails(conditions@, binding, action, i + 1, conditions@.len() as int);
                        }
                        return false;
                    }
                    i = i + 1;
                }
                true
            },
            Condition::MultipleOr(conditions) => {
                let mut i: usize = 0;
                while i < conditions.len()
                    invariant
                        0 <= i <= conditions@.len(),
                        *condition == Condition::MultipleOr(*conditions),
                        self.battle_all_known(conditions@, binding, action, conditions@.len() as int),
                        !self.battle_any(conditions@, binding, action, i as int),
                    decreases conditions@.len() - i,
                {
                    proof {
                        self.lemma_battle_known_prefix(conditions@, binding, action, conditions@.len() as int, i + 1);
                        assert(decreases_to!(*condition => (*condition)->MultipleOr_0));
                        assert(decreases_to!(*conditions => conditions@));
                        assert(decreases_to!(conditions@ => conditions@[i as int]));
                        assert(decreases_to!(*condition => conditions@[i as int]));
                    }
                    if self.eval_condition(&conditions[i], binding, action) {
                        proof {
                            self.lemma_battle_any_stays(conditions@, binding, action, i + 1, conditions@.len() as int);
                        }
                        return true;
                    }
                    i = i + 1;
                }
                false
            },
            Condition::NoBlock => self.player.block == 0,
            Condition::Not(inner) => {
                proof {
                    assert(decreases_to!(*condition => (*condition)->Not_0));
                }
                !self.eval_condition(inner, binding, action)
            },
            Condition::RemainingHp { amount, target } => {
                let creature = target.creature_ref(binding, action);
                let hp = self.eval_amount(amount, binding);
                match self.get_creature(creature) {
                    Some(c) => c.hp.amount >= #[verifier::truncate] (hp as u16),
                    None => false,
                }
            },
            Condition::Stance(stance) => self.stance == *stance,
            Condition::Upgraded => self.is_upgraded(binding),
            Condition::HasFriendlies(_) | Condition::Custom => vstd::pervasive::unreached(),
            _ => self.game_state.eval_condition(condition),
        }
    }
}

impl BattleState {
    /// A number drawn uniformly between the two amounts of a range, for a creature: the
    /// bounds valued for the creature, the lower one not above the upper one.
    pub fn eval_range(&self, range: &crate::models::monsters::Range, creature: CreatureReference, probability: &mut Probability) -> (res: i16)
        requires
            self.battle_amount_fits(range.min, Binding::Creature(creature)),
            self.battle_amount_fits(range.max, Binding::Creature(creature)),
            self.battle_amount(range.min, Binding::Creature(creature)) <= self.battle_amount(range.max, Binding::Creature(creature)),
        ensures
            ({
                let low = self.battle_amount(range.min, Binding::Creature(creature));
                let high = self.battle_amount(range.max, Binding::Creature(creature));
                &&& low <= res <= high
                &&& final(probability).factors@ == old(probability).factors@.push((1u64, (high - low + 1) as u64))
            }),
    {
        let binding = Binding::Creature(creature);
        let min = self.eval_amount(&range.min, binding);
        let max = self.eval_amount(&range.max, binding);
        let span = (max as i32 - min as i32 + 1) as usize;
        let drawn = probability.range(span);
        (drawn as i32 + min as i32) as i16
    }
}

// ---- effects on the player in battle ----
impl BattleState {
    /// The value of an amount of an effect, as the effect reads it.
    pub open spec fn effect_value(&self, a: Amount, binding: Binding) -> i16 {
        self.battle_amount(a, binding) as i16
    }

    /// Whether an effect is one that this library carries out in battle, and can be
    /// without overflow: energy, gold, maximum hit points or orb slots gained, a buff
    /// added to the player or to the monster targeted, the player healed, or a stance
    /// set.
    pub open spec fn battle_effect_known(&self, effect: Effect, binding: Binding, action: Option<GameAction>) -> bool {
        match effect {
            Effect::AddEnergy(a) => self.battle_amount_fits(a, binding) && self.energy + (self.effect_value(a, binding) as u8) <= u8::MAX,
            Effect::AddGold(a) => self.battle_amount_fits(a, binding) && {
                let g = self.game_state;
                let v = self.effect_value(a, binding) as u16;
                !g.relics.has("Ectoplasm"@) ==> g.gold + v <= u16::MAX && (g.relics.has("Bloody Idol"@) ==> g.hp.amount + 5 <= u16::MAX)
            },
            Effect::AddMaxHp(a) => self.battle_amount_fits(a, binding) && {
                let v = self.effect_value(a, binding) as u16;
                self.game_state.hp.max + v <= u16::MAX && self.game_state.hp.amount + v <= u16::MAX
            },
            Effect::AddOrbSlot(a) => self.battle_amount_fits(a, binding) && (self.effect_value(a, binding) as u8) + self.orb_slots <= u8::MAX,
            Effect::AddBuff { buff, amount, target } => {
                &&& self.battle_amount_fits(amount, binding)
                &&& target is _Self || target is Player || target is TargetMonster
                &&& target_resolves(target, binding, action)
                &&& match target_creature(target, binding, action) {
                    CreatureReference::Player => self.player.buff_addable(buff, self.effect_value(amount, binding)),
                    CreatureReference::Creature(m) => battle_monsters(self.monsters).contains_key(m.uuid)
                        ==> battle_monsters(self.monsters)[m.uuid].creature.buff_addable(buff, self.effect_value(amount, binding)),
                }
            },
            Effect::Heal { amount, target } => {
                &&& target is _Self || target is Player
                &&& target_creature(target, binding, action) is Player
                &&& self.battle_amount_fits(amount, binding)
                &&& self.game_state.hp.amount + heal_by_value(self.game_state, self.effect_value(amount, binding) as int) <= u16::MAX
            },
            Effect::SetStance(st) => {
                &&& st != Stance::All
                &&& (st == Stance::Wrath && self.stance != st ==> (crate::spireai::predictor::rushdown_of(self.player) as u8) == 0)
                &&& self.energy + stance_energy(*self, st) <= u8::MAX
            },
            Effect::HealPercentage { amount, target } => {
                &&& target is _Self || target is Player
                &&& target_creature(target, binding, action) is Player
                &&& self.battle_amount_fits(amount, binding)
                &&& self.game_state.hp.amount + heal_by_percent(self.game_state, self.effect_value(amount, binding) as int) <= u16::MAX
            },
            _ => false,
        }
    }

    /// Whether `after` is this battle after an effect (one that `battle_effect_known`
    /// allows).
    pub open spec fn battle_effect_step(&self, after: BattleState, effect: Effect, binding: Binding, action: Option<GameAction>) -> bool {
        match effect {
            Effect::AddEnergy(a) => after == (BattleState {
                energy: (self.energy + (self.effect_value(a, binding) as u8)) as u8,
                ..*self
            }),
            Effect::AddGold(a) => after == (BattleState {
                game_state: self.game_state.add_gold_spec(self.effect_value(a, binding) as u16),
                ..*self
            }),
            Effect::AddMaxHp(a) => {
                let v = self.effect_value(a, binding) as u16;
                let g = self.game_state;
                after == (BattleState {
                    game_state: GameState { hp: g.heal_spec(HpRange { max: (g.hp.max + v) as u16, ..g.hp }, v as int), ..g },
                    ..*self
                })
            },
            Effect::AddOrbSlot(a) => {
                let slots = (self.effect_value(a, binding) as u8) + self.orb_slots;
                after == (BattleState { orb_slots: (if slots < 10 { slots } else { 10 }) as u8, ..*self })
            },
            Effect::AddBuff { buff, amount, target } => match target_creature(target, binding, action) {
                CreatureReference::Player => after == (BattleState { player: after.player, ..*self })
                    && buff_added(self.player, after.player, buff, self.effect_value(amount, binding)),
                CreatureReference::Creature(m) => if battle_monsters(self.monsters).contains_key(m.uuid) {
                    let mon = battle_monsters(self.monsters)[m.uuid];
                    &&& after == (BattleState { monsters: after.monsters, ..*self })
                    &&& exists|c: Creature| #[trigger] buff_added(mon.creature, c, buff, self.effect_value(amount, binding))
                        && battle_monsters(after.monsters) == battle_monsters(self.monsters).insert(m.uuid, Monster { creature: c, ..mon })
                } else {
                    after == *self
                },
            },
            Effect::Heal { amount, .. } => {
                let g = self.game_state;
                after == (BattleState {
                    game_state: GameState { hp: g.heal_spec(g.hp, heal_by_value(g, self.effect_value(amount, binding) as int)), ..g },
                    ..*self
                })
            },
            Effect::SetStance(st) => after == (BattleState { energy: (self.energy + stance_energy(*self, st)) as u8, ..*self }),
            Effect::HealPercentage { amount, .. } => {
                let g = self.game_state;
                after == (BattleState {
                    game_state: GameState { hp: g.heal_spec(g.hp, heal_by_percent(g, self.effect_value(amount, binding) as int)), ..g },
                    ..*self
                })
            },
            _ => false,
        }
    }
}

/// The energy gained by setting a stance: none where the battle is in it already; else
/// three for leaving Calm, or two with the Violet Lotus, and three for entering
/// Divinity. The stance itself is left as it was, and the cards that Rushdown draws on
/// entering Wrath must be none.
pub open spec fn stance_energy(bs: BattleState, st: Stance) -> int {
    if bs.stance == st {
        0
    } else {
        (if bs.stance == Stance::Calm {
            if bs.game_state.relics.has("Violet Lotus"@) { 2int } else { 3int }
        } else {
            0int
        }) + (if st == Stance::Divinity { 3int } else { 0int })
    }
}

/// How much the player heals in battle by an amount: none for an amount that is not
/// positive, else the amount, half again with the Magic Flower, rounded up.
pub open spec fn heal_by_value(g: GameState, v: int) -> int {
    if v <= 0 {
        0
    } else if g.relics.has("Magic Flower"@) {
        (3 * v + 1) / 2
    } else {
        v
    }
}

/// How much the player heals in battle by a percentage of the maximum hit points: none
/// where that is not positive, else that share, half again with the Magic Flower,
/// rounded up.
pub open spec fn heal_by_percent(g: GameState, v: int) -> int {
    let n = g.hp.max * v;
    if n <= 0 {
        0
    } else if g.relics.has("Magic Flower"@) {
        (3 * n + 199) / 200
    } else {
        (n + 99) / 100
    }
}

/// Healing by a share of the maximum hit points in battle heals that share rounded up:
/// the least `h` with `max * v <= h * 100`, or with the Magic Flower half again, the least
/// `h` with `3 * max * v <= h * 200`; nothing where the share is not positive.
pub proof fn law_heal_by_percent_rounds_up(g: GameState, v: int)
    ensures
        g.hp.max * v <= 0 ==> heal_by_percent(g, v) == 0,
        g.hp.max * v > 0 && !g.relics.has("Magic Flower"@) ==> {
            let h = heal_by_percent(g, v);
            (h - 1) * 100 < g.hp.max * v <= h * 100
        },
        g.hp.max * v > 0 && g.relics.has("Magic Flower"@) ==> {
            let h = heal_by_percent(g, v);
            (h - 1) * 200 < 3 * (g.hp.max * v) <= h * 200
        },
{
    let n = g.hp.max * v;
    if n > 0 {
        vstd::arithmetic::div_mod::lemma_fundamental_div_mod(n + 99, 100);
        vstd::arithmetic::div_mod::lemma_mod_pos_bound(n + 99, 100);
        vstd::arithmetic::div_mod::lemma_fundamental_div_mod(3 * n + 199, 200);
        vstd::arithmetic::div_mod::lemma_mod_pos_bound(3 * n + 199, 200);
    }
}

/// Whether effects can be carried out in a battle one after the other, whatever each
/// leads to: the first can, and the rest can after each outcome of it.
pub open spec fn battle_effects_known(bs: BattleState, effects: Seq<Effect>, binding: Binding, action: Option<GameAction>) -> bool
    decreases effects.len(),
{
    if effects.len() == 0 {
        true
    } else {
        &&& bs.battle_effect_known(effects[0], binding, action)
        &&& forall|n: BattleState| #[trigger] bs.battle_effect_step(n, effects[0], binding, action)
            ==> battle_effects_known(n, effects.drop_first(), binding, action)
    }
}

/// Whether `after` is the battle `before` after the effects, one after the other.
pub open spec fn battle_effects_applied(before: BattleState, after: BattleState, effects: Seq<Effect>, binding: Binding, action: Option<GameAction>) -> bool
    decreases effects.len(),
{
    if effects.len() == 0 {
        after == before
    } else {
        exists|m: BattleState| #[trigger] before.battle_effect_step(m, effects[0], binding, action)
            && battle_effects_applied(m, after, effects.drop_first(), binding, action)
    }
}

/// The action of drinking a potion: by the player, no attack, at the given target.
pub open spec fn drink_action(target: Option<MonsterReference>) -> Option<GameAction> {
    Some(GameAction {
        is_attack: false,
        creature: CreatureReference::Player,
        target: match target {
            Some(m) => Some(CreatureReference::Creature(m)),
            None => None,
        },
    })
}

/// How much the Toy Ornithopter heals when a potion is drunk in battle: five, or eight
/// with the Magic Flower.
pub open spec fn ornithopter_heal(g: GameState) -> int {
    if g.relics.has("Magic Flower"@) { 8 } else { 5 }
}

/// Whether a potion can be drunk in battle: its effects can be carried out, and after
/// any outcome of them the Toy Ornithopter's healing fits.
pub open spec fn battle_drink_ready(bs: BattleState, potion: PotionReference, target: Option<MonsterReference>) -> bool {
    &&& battle_effects_known(bs, potion.base.on_drink@, Binding::Potion(potion), drink_action(target))
    &&& forall|n: BattleState| #[trigger] battle_effects_applied(bs, n, potion.base.on_drink@, Binding::Potion(potion), drink_action(target))
        ==> n.game_state.hp.amount + 8 <= u16::MAX
}

/// Whether `after` is the battle `before` after a potion is drunk: its effects, then the
/// Toy Ornithopter's healing where the run has it.
pub open spec fn battle_drunk(before: BattleState, after: BattleState, potion: PotionReference, target: Option<MonsterReference>) -> bool {
    exists|m: BattleState| {
        &&& #[trigger] battle_effects_applied(before, m, potion.base.on_drink@, Binding::Potion(potion), drink_action(target))
        &&& after == (if m.game_state.relics.has("Toy Ornithopter"@) {
            BattleState {
                game_state: GameState { hp: m.game_state.heal_spec(m.game_state.hp, ornithopter_heal(m.game_state)), ..m.game_state },
                ..m
            }
        } else {
            m
        })
    }
}

impl BattleState {
    /// Carries out an effect on the player (see `battle_effect_known`).
    pub fn eval_effect(&mut self, effect: &Effect, binding: Binding, action: Option<GameAction>)
        requires
            old(self).battle_effect_known(*effect, binding, action),
        ensures
            old(self).battle_effect_step(*final(self), *effect, binding, action),
    {
        match effect {
            Effect::AddEnergy(a) => {
                let amount = #[verifier::truncate] (self.eval_amount(a, binding) as u8);
                self.energy = self.energy + amount;
            },
            Effect::AddGold(a) => {
                let amount = #[verifier::truncate] (self.eval_amount(a, binding) as u16);
                self.game_state.add_gold(amount);
            },
            Effect::AddMaxHp(a) => {
                let amount = #[verifier::truncate] (self.eval_amount(a, binding) as u16);
                self.game_state.add_max_hp(amount);
            },
            Effect::AddOrbSlot(a) => {
                let count = #[verifier::truncate] (self.eval_amount(a, binding) as u8);
                let slots = count + self.orb_slots;
                self.orb_slots = if slots < 10 { slots } else { 10 };
            },
            Effect::AddBuff { buff, amount, target } => {
                let value = self.eval_amount(amount, binding);
                match target.creature_ref(binding, action) {
                    CreatureReference::Player => self.player.add_buff(buff, value),
                    CreatureReference::Creature(m) => if battle_monster_get(&self.monsters, m.uuid).is_some() {
                        match battle_monster_remove(&mut self.monsters, m.uuid) {
                            Some(monster) => {
                                let mut monster = monster;
                                let ghost before = monster;
                                monster.creature.add_buff(buff, value);
                                battle_monster_insert(&mut self.monsters, m.uuid, monster);
                                proof {
                                    assert(buff_added(before.creature, monster.creature, *buff, old(self).effect_value(*amount, binding)));
                                    assert(monster == (Monster { creature: monster.creature, ..before }));
                                    assert(battle_monsters(self.monsters) =~= battle_monsters(old(self).monsters).insert(m.uuid, monster));
                                }
                            },
                            None => {},
                        }
                    },
                }
            },
            Effect::Heal { amount, .. } => {
                let v = self.eval_amount(amount, binding) as i32;
                let flower = self.game_state.relics.contains("Magic Flower");
                let heal: i32 = if v <= 0 {
                    0
                } else if flower {
                    (3 * v + 1) / 2
                } else {
                    v
                };
                self.game_state.heal(heal as u16);
            },
            Effect::SetStance(st) => {
                if self.stance != *st {
                    if self.stance == Stance::Calm {
                        let gain: u8 = if self.game_state.relics.contains("Violet Lotus") { 2 } else { 3 };
                        self.energy = self.energy + gain;
                    }
                    if *st == Stance::Divinity {
                        self.energy = self.energy + 3;
                    }
                }
            },
            Effect::HealPercentage { amount, .. } => {
                let v = self.eval_amount(amount, binding) as i64;
                let max = self.game_state.hp.max as i64;
                assert(-65535 * 32768 <= max * v <= 65535 * 32767) by (nonlinear_arith)
                    requires
                        0 <= max <= 65535,
                        -32768 <= v <= 32767;
                let n: i64 = max * v;
                let flower = self.game_state.relics.contains("Magic Flower");
                let heal: i64 = if n <= 0 {
                    0
                } else if flower {
                    (3 * n + 199) / 200
                } else {
                    (n + 99) / 100
                };
                self.game_state.heal(heal as u16);
            },
            _ => {},
        }
    }

    /// Carries out effects one after the other.
    pub fn eval_effects(&mut self, effects: &[Effect], binding: Binding, action: Option<GameAction>)
        requires
            battle_effects_known(*old(self), effects@, binding, action),
        ensures
            battle_effects_applied(*old(self), *final(self), effects@, binding, action),
    {
        let ghost b0 = *self;
        let mut i: usize = 0;
        proof {
            assert(effects@.skip(0) =~= effects@);
        }
        while i < effects.len()
            invariant
                0 <= i <= effects@.len(),
                battle_effects_known(*self, effects@.skip(i as int), binding, action),
                forall|n: BattleState| #[trigger] battle_effects_applied(*self, n, effects@.skip(i as int), binding, action)
                    ==> battle_effects_applied(b0, n, effects@, binding, action),
            decreases effects@.len() - i,
        {
            let ghost before = *self;
            let ghost rest = effects@.skip(i as int);
            proof {
                assert(rest[0] == effects@[i as int]);
            }
            self.eval_effect(&effects[i], binding, action);
            proof {
                assert(rest.drop_first() =~= effects@.skip(i + 1));
                assert(before.battle_effect_step(*self, rest[0], binding, action));
                assert forall|n: BattleState| #[trigger] battle_effects_applied(*self, n, effects@.skip(i + 1), binding, action)
                    implies battle_effects_applied(b0, n, effects@, binding, action) by {
                    assert(battle_effects_applied(before, n, rest, binding, action));
                }
            }
            i = i + 1;
        }
        proof {
            assert(battle_effects_applied(*self, *self, effects@.skip(i as int), binding, action));
        }
    }

    /// Drinks a potion in battle: its effects at the given target, then the Toy
    /// Ornithopter's healing where the run has it. The potion stays in its slot.
    pub fn drink_potion(&mut self, potion: PotionReference, target: Option<MonsterReference>)
        requires
            battle_drink_ready(*old(self), potion, target),
        ensures
            battle_drunk(*old(self), *final(self), potion, target),
    {
        let action = Some(GameAction {
            is_attack: false,
            creature: CreatureReference::Player,
            target: match target {
                Some(m) => Some(CreatureReference::Creature(m)),
                None => None,
            },
        });
        let ghost b0 = *self;
        self.eval_effects(potion.base.on_drink.as_slice(), Binding::Potion(potion), action);
        let ghost m = *self;
        if self.game_state.relics.contains("Toy Ornithopter") {
            let amount: u16 = if self.game_state.relics.contains("Magic Flower") { 8 } else { 5 };
            self.game_state.heal(amount);
        }
        proof {
            assert(battle_effects_applied(b0, m, potion.base.on_drink@, Binding::Potion(potion), action));
        }
    }
}

} // verus!
