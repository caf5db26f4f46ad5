//! The state of a run between floors: the deck, relics, potions, gold and hit points,
//! and the rules by which they change outside of battle.

use vstd::prelude::*;

use crate::models::cards::{available_cards_by_class, available_for_class, class_pool, has_card_named, BaseCard};
use crate::models::common::{
    str_eq, Amount, CardType, ChestType, Class, Condition, DeckOperation, Effect, FightType, Rarity,
    When,
};
use crate::models::potions::BasePotion;
use crate::models::relics::{self, has_relic_named, Activation, BaseRelic};
use crate::spireai::references::{PotionReference, RelicReference};
use crate::state::collections::{
    deck_cards, deck_entries, deck_get, deck_insert, deck_new, deck_remove, offer_items, offers_from, slot_items,
    slots_from, slots_items, slots_push, slots_set,
    lists_entries, name_index, name_index_contains, name_set_contains, name_set_insert, name_index_get, name_index_insert,
    name_index_new, name_index_remove, name_set, name_set_new, relic_entries, relic_map_entries,
    relic_map_get, relic_map_insert, relic_map_new, relic_map_remove, relic_whens,
    relic_whens_get, relic_whens_keys, relic_whens_new, relic_whens_push, relic_whens_set,
    when_key,
};
use crate::state::common::{
    CardOffer, has_known_cost, is_plain_condition, starting_cost, upgrade_of, upgrade_ready, Card, HpRange,
    Relic, Vars,
};
use crate::state::probability::{binomial, lemma_picking_two_fits, picking_fits, picks_at, picks_distinct, ways_to_pick, Probability};
use crate::state::floor::KeyState;
use crate::state::map::MapState;

verus! {

/// Whether two moments are the same moment.
pub fn when_eq(a: &When, b: &When) -> (res: bool)
    ensures
        res == (when_key(*a) == when_key(*b)),
{
    match (a, b) {
        (When::BeforeHandDraw, When::BeforeHandDraw) => true,
        (When::AfterHandDraw, When::AfterHandDraw) => true,
        (When::BeforeHandDiscard, When::BeforeHandDiscard) => true,
        (When::BeforeEnemyMove, When::BeforeEnemyMove) => true,
        (When::AfterEnemyMove, When::AfterEnemyMove) => true,
        (When::TurnEnd, When::TurnEnd) => true,
        (When::CombatEnd, When::CombatEnd) => true,
        (When::CombatStart, When::CombatStart) => true,
        (When::OnRecieveAttackDamage, When::OnRecieveAttackDamage) => true,
        (When::OnReceiveUnblockedDamage, When::OnReceiveUnblockedDamage) => true,
        (When::OnDealUnblockedDamage, When::OnDealUnblockedDamage) => true,
        (When::OnHpLoss, When::OnHpLoss) => true,
        (When::OnHpChange, When::OnHpChange) => true,
        (When::OnHalfHp, When::OnHalfHp) => true,
        (When::OnBlock, When::OnBlock) => true,
        (When::OnDie, When::OnDie) => true,
        (When::OnEnemyDie, When::OnEnemyDie) => true,
        (When::Discard, When::Discard) => true,
        (When::Exhaust, When::Exhaust) => true,
        (When::Scry, When::Scry) => true,
        (When::Shuffle, When::Shuffle) => true,
        (When::PlayCard(x), When::PlayCard(y)) => *x == *y,
        (When::DrawCard(x), When::DrawCard(y)) => *x == *y,
        (When::OnMove(x), When::OnMove(y)) => str_eq(x.as_str(), y.as_str()),
        (When::OnLoseBuff(x), When::OnLoseBuff(y)) => str_eq(x.as_str(), y.as_str()),
        (When::Never, When::Never) => true,
        _ => false,
    }
}

/// The moments at which a relic of the given activation acts, each once, in the order
/// of the activation's fields.
pub open spec fn activation_whens(a: Activation) -> Seq<When> {
    match a {
        Activation::Immediate | Activation::Custom => Seq::empty(),
        Activation::Counter { increment, reset, .. } => if when_key(increment) == when_key(reset) {
            seq![increment]
        } else {
            seq![increment, reset]
        },
        Activation::Uses { use_when, .. } => seq![use_when],
        Activation::When(w) => seq![w],
        Activation::WhenEnabled { activated_at, enabled_at, disabled_at } => if when_key(activated_at)
            == when_key(enabled_at) {
            if when_key(activated_at) == when_key(disabled_at) {
                seq![activated_at]
            } else {
                seq![activated_at, disabled_at]
            }
        } else if when_key(enabled_at) == when_key(disabled_at) {
            seq![activated_at, enabled_at]
        } else {
            seq![activated_at, enabled_at, disabled_at]
        },
    }
}

/// A map from moments to identifiers, with the identifier added at the end of the list
/// of each of the moments in turn.
pub open spec fn pushed_under(
    m: Map<(int, int, Seq<char>), Seq<u128>>,
    whens: Seq<When>,
    uuid: u128,
) -> Map<(int, int, Seq<char>), Seq<u128>>
    decreases whens.len(),
{
    if whens.len() == 0 {
        m
    } else {
        let before = pushed_under(m, whens.drop_last(), uuid);
        let k = when_key(whens.last());
        before.insert(
            k,
            (if before.contains_key(k) {
                before[k]
            } else {
                Seq::empty()
            }).push(uuid),
        )
    }
}

/// The first position of a value in a list, where it occurs.
pub open spec fn first_index(s: Seq<u128>, u: u128) -> int {
    choose|i: int| 0 <= i < s.len() && s[i] == u && forall|j: int| 0 <= j < i ==> s[j] != u
}

/// A list without the first occurrence of a value; the list itself where the value does
/// not occur.
pub open spec fn without_first(s: Seq<u128>, u: u128) -> Seq<u128> {
    if s.contains(u) {
        s.remove(first_index(s, u))
    } else {
        s
    }
}

/// Whether `after` is `before` with a new relic of the given kind added under the given
/// identifier: held, known by its name, and listed under each moment at which it acts.
pub open spec fn relics_with(before: Relics, after: Relics, base: &'static BaseRelic, uuid: u128) -> bool {
    &&& relic_entries(after.relics) == relic_entries(before.relics).insert(
        uuid,
        Relic { base, uuid, vars: Vars { x: base.starting_x, ..Vars::new_spec() }, enabled: true },
    )
    &&& name_index(after.relic_names) == name_index(before.relic_names).insert(base.name@, uuid)
    &&& relic_whens(after.relic_whens) == pushed_under(
        relic_whens(before.relic_whens),
        activation_whens(base.activation),
        uuid,
    )
    &&& after.seen == before.seen
}

/// Whether `after` is `before` without the relic of the given name: no longer known by
/// its name, held, or listed under any moment.
pub open spec fn relics_without(before: Relics, after: Relics, name: Seq<char>) -> bool {
    let uuid = name_index(before.relic_names)[name];
    &&& name_index(after.relic_names) == name_index(before.relic_names).remove(name)
    &&& relic_entries(after.relics) == relic_entries(before.relics).remove(uuid)
    &&& relic_whens(after.relic_whens).dom() == relic_whens(before.relic_whens).dom()
    &&& forall|k: (int, int, Seq<char>)| #[trigger] relic_whens(after.relic_whens).contains_key(k)
        ==> relic_whens(after.relic_whens)[k] == without_first(relic_whens(before.relic_whens)[k], uuid)
    &&& after.seen == before.seen
}

/// Whether no two moments of a list share a key.
pub open spec fn distinct_keys(whens: Seq<When>) -> bool {
    forall|i: int, j: int| 0 <= i < j < whens.len() ==> when_key(#[trigger] whens[i]) != when_key(#[trigger] whens[j])
}

/// Under moments of distinct keys, the identifier is appended once to the list of each of
/// them, which is started where it was missing; other lists stay.
proof fn lemma_pushed_under_at(m: Map<(int, int, Seq<char>), Seq<u128>>, whens: Seq<When>, uuid: u128, k: (int, int, Seq<char>))
    requires
        distinct_keys(whens),
    ensures
        (exists|i: int| 0 <= i < whens.len() && when_key(whens[i]) == k) ==> pushed_under(m, whens, uuid).contains_key(k)
            && pushed_under(m, whens, uuid)[k] == (if m.contains_key(k) { m[k] } else { Seq::empty() }).push(uuid),
        !(exists|i: int| 0 <= i < whens.len() && when_key(whens[i]) == k) ==> (pushed_under(m, whens, uuid).contains_key(k)
            <==> m.contains_key(k)) && (m.contains_key(k) ==> pushed_under(m, whens, uuid)[k] == m[k]),
    decreases whens.len(),
{
    if whens.len() > 0 {
        let rest = whens.drop_last();
        assert(distinct_keys(rest));
        lemma_pushed_under_at(m, rest, uuid, k);
        if when_key(whens.last()) == k {
            assert(!(exists|i: int| 0 <= i < rest.len() && when_key(rest[i]) == k)) by {
                if exists|i: int| 0 <= i < rest.len() && when_key(rest[i]) == k {
                    let i = choose|i: int| 0 <= i < rest.len() && when_key(rest[i]) == k;
                    assert(when_key(whens[i]) != when_key(whens[whens.len() - 1]));
                }
            }
        } else {
            if exists|i: int| 0 <= i < whens.len() && when_key(whens[i]) == k {
                let i = choose|i: int| 0 <= i < whens.len() && when_key(whens[i]) == k;
                assert(i < rest.len() && when_key(rest[i]) == k);
            }
            if exists|i: int| 0 <= i < rest.len() && when_key(rest[i]) == k {
                let i = choose|i: int| 0 <= i < rest.len() && when_key(rest[i]) == k;
                assert(when_key(whens[i]) == k);
            }
        }
    }
}

/// Taking the first occurrence of a value out of a list that had it only at its end
/// gives back the list before it.
proof fn lemma_without_pushed(s: Seq<u128>, u: u128)
    requires
        !s.contains(u),
    ensures
        without_first(s.push(u), u) == s,
{
    let t = s.push(u);
    assert(t[s.len() as int] == u);
    assert(t.contains(u));
    let f = first_index(t, u);
    assert(0 <= f < t.len() && t[f] == u && forall|j: int| 0 <= j < f ==> t[j] != u) by {
        assert(forall|j: int| 0 <= j < s.len() ==> t[j] == s[j]);
    }
    if f < s.len() {
        assert(s[f] == u);
    }
    assert(f == s.len());
    assert(t.remove(f) =~= s);
}

/// Adding a relic under an identifier that the run does not use yet, then taking it away
/// by its name, gives back the relics held and the names known, and every moment's list
/// as it was; a moment that only the added relic was listed under is left with an empty
/// list. This holds where the relic's moments have distinct keys, as it is listed once
/// under each.
pub proof fn law_remove_undoes_add(r0: Relics, r1: Relics, r2: Relics, base: &'static BaseRelic, uuid: u128)
    requires
        !name_index(r0.relic_names).contains_key(base.name@),
        !relic_entries(r0.relics).contains_key(uuid),
        forall|k: (int, int, Seq<char>)| #[trigger] relic_whens(r0.relic_whens).contains_key(k) ==> !relic_whens(r0.relic_whens)[k].contains(uuid),
        distinct_keys(activation_whens(base.activation)),
        relics_with(r0, r1, base, uuid),
        relics_without(r1, r2, base.name@),
    ensures
        relic_entries(r2.relics) == relic_entries(r0.relics),
        name_index(r2.relic_names) == name_index(r0.relic_names),
        r2.seen == r0.seen,
        forall|k: (int, int, Seq<char>)| #[trigger] relic_whens(r0.relic_whens).contains_key(k) ==> relic_whens(r2.relic_whens).contains_key(k)
            && relic_whens(r2.relic_whens)[k] == relic_whens(r0.relic_whens)[k],
        forall|k: (int, int, Seq<char>)| #[trigger] relic_whens(r2.relic_whens).contains_key(k) && !relic_whens(r0.relic_whens).contains_key(k)
            ==> relic_whens(r2.relic_whens)[k].len() == 0,
{
    let m0 = relic_whens(r0.relic_whens);
    let ws = activation_whens(base.activation);
    assert(name_index(r1.relic_names)[base.name@] == uuid);
    assert(relic_entries(r2.relics) =~= relic_entries(r0.relics));
    assert(name_index(r2.relic_names) =~= name_index(r0.relic_names));
    assert forall|k: (int, int, Seq<char>)| #[trigger] m0.contains_key(k) implies relic_whens(r2.relic_whens).contains_key(k)
        && relic_whens(r2.relic_whens)[k] == m0[k] by {
        lemma_pushed_under_at(m0, ws, uuid, k);
        if exists|i: int| 0 <= i < ws.len() && when_key(ws[i]) == k {
            lemma_without_pushed(m0[k], uuid);
        }
    }
    assert forall|k: (int, int, Seq<char>)| #[trigger] relic_whens(r2.relic_whens).contains_key(k) && !m0.contains_key(k)
        implies relic_whens(r2.relic_whens)[k].len() == 0 by {
        lemma_pushed_under_at(m0, ws, uuid, k);
        lemma_without_pushed(Seq::empty(), uuid);
    }
}

/// The relics of a run: each under its identifier, the names of the relics seen so far,
/// the relics that act at each moment, and each relic's identifier by its name.
#[derive(PartialEq, Eq, Clone, Debug)]
pub struct Relics {
    pub relics: im::HashMap<u128, Relic>,
    pub seen: im::HashSet<String>,
    pub relic_whens: im::HashMap<When, im::Vector<u128>>,
    pub relic_names: im::HashMap<String, u128>,
}

/// Whether a list names each relic of a map once, by a reference.
pub open spec fn lists_relics(items: Seq<RelicReference>, m: Map<u128, Relic>) -> bool {
    &&& items.len() == m.dom().len()
    &&& forall|i: int| 0 <= i < items.len() ==> #[trigger] m.contains_key(items[i].relic) && m[items[i].relic].base == items[i].base
    &&& forall|i: int, j: int| 0 <= i < j < items.len() ==> (#[trigger] items[i]).relic != (#[trigger] items[j]).relic
    &&& forall|k: u128| #[trigger] m.contains_key(k) ==> exists|i: int| 0 <= i < items.len() && (#[trigger] items[i]).relic == k
}

impl Relics {
    /// The relic of the given name, if the run has one under that name.
    pub open spec fn find_spec(&self, name: Seq<char>) -> Option<Relic> {
        let names = name_index(self.relic_names);
        if names.contains_key(name) && relic_entries(self.relics).contains_key(names[name]) {
            Some(relic_entries(self.relics)[names[name]])
        } else {
            None
        }
    }

    /// Whether the run has a relic of the given name.
    pub open spec fn has(&self, name: Seq<char>) -> bool {
        name_index(self.relic_names).contains_key(name)
    }

    /// No relics, none seen.
    pub fn new() -> (res: Self)
        ensures
            relic_entries(res.relics) =~= Map::empty(),
            name_set(res.seen) =~= Set::empty(),
            relic_whens(res.relic_whens) =~= Map::empty(),
            name_index(res.relic_names) =~= Map::empty(),
    {
        Self {
            relics: relic_map_new(),
            relic_whens: relic_whens_new(),
            relic_names: name_index_new(),
            seen: name_set_new(),
        }
    }

    /// A reference to each relic, in an order that is not stated.
    pub fn iter(&self) -> (res: Vec<RelicReference>)
        ensures
            lists_relics(res@, relic_entries(self.relics)),
    {
        let entries = relic_map_entries(&self.relics);
        let ghost m = relic_entries(self.relics);
        let mut res: Vec<RelicReference> = Vec::new();
        let mut i: usize = 0;
        while i < entries.len()
            invariant
                0 <= i <= entries@.len(),
                m == relic_entries(self.relics),
                lists_entries(entries@, m),
                res@.len() == i,
                forall|j: int| 0 <= j < i ==> (#[trigger] res@[j]).relic == entries@[j].0 && res@[j].base == entries@[j].1.base,
            decreases entries@.len() - i,
        {
            res.push(RelicReference { base: entries[i].1.base, relic: entries[i].0 });
            i = i + 1;
        }
        proof {
            assert forall|k: u128| #[trigger] m.contains_key(k) implies exists|j: int| 0 <= j < res@.len() && (#[trigger] res@[j]).relic == k by {
                let j = choose|j: int| 0 <= j < entries@.len() && (#[trigger] entries@[j]).0 == k;
                assert(res@[j].relic == k);
            }
            assert forall|a: int, b: int| 0 <= a < b < res@.len() implies (#[trigger] res@[a]).relic != (#[trigger] res@[b]).relic by {
                assert(entries@[a].0 != entries@[b].0);
            }
            assert forall|j: int| 0 <= j < res@.len() implies #[trigger] m.contains_key(res@[j].relic) && m[res@[j].relic].base == res@[j].base by {
                assert(m.contains_key(entries@[j].0));
            }
        }
        res
    }

    /// The relic of the given name, if the run has one.
    pub fn find(&self, name: &str) -> (res: Option<Relic>)
        ensures
            res == self.find_spec(name@),
    {
        match name_index_get(&self.relic_names, name) {
            Some(uuid) => relic_map_get(&self.relics, uuid),
            None => None,
        }
    }

    /// Whether the run has a relic of the given name.
    pub fn contains(&self, name: &str) -> (res: bool)
        ensures
            res == self.has(name@),
    {
        name_index_contains(&self.relic_names, name)
    }

    /// Adds a new relic of the given kind: under a fresh identifier, known by its name,
    /// and listed under each moment at which it acts. Returns a reference to it.
    pub fn add(&mut self, base: &'static BaseRelic) -> (res: RelicReference)
        ensures
            res.base == base,
            relics_with(*old(self), *final(self), base, res.relic),
    {
        let relic = Relic::new(base);
        name_index_insert(&mut self.relic_names, relic.base.name.as_str(), relic.uuid);
        let whens: Vec<&When> = match &base.activation {
            Activation::Immediate | Activation::Custom => Vec::new(),
            Activation::Counter { increment, reset, .. } => {
                if when_eq(increment, reset) {
                    vec![increment]
                } else {
                    vec![increment, reset]
                }
            },
            Activation::Uses { use_when, .. } => vec![use_when],
            Activation::When(when) => vec![when],
            Activation::WhenEnabled { activated_at, enabled_at, disabled_at } => {
                if when_eq(activated_at, enabled_at) {
                    if when_eq(activated_at, disabled_at) {
                        vec![activated_at]
                    } else {
                        vec![activated_at, disabled_at]
                    }
                } else if when_eq(enabled_at, disabled_at) {
                    vec![activated_at, enabled_at]
                } else {
                    vec![activated_at, enabled_at, disabled_at]
                }
            },
        };
        let ghost ws = whens@.map_values(|w: &When| *w);
        proof {
            assert(ws =~= activation_whens(base.activation));
        }
        let ghost start = relic_whens(self.relic_whens);
        let ghost names = self.relic_names;
        let ghost held = self.relics;
        let ghost seen = self.seen;
        let mut i: usize = 0;
        while i < whens.len()
            invariant
                0 <= i <= whens@.len(),
                self.relic_names == names,
                self.relics == held,
                self.seen == seen,
                ws == whens@.map_values(|w: &When| *w),
                relic_whens(self.relic_whens) == pushed_under(start, ws.take(i as int), relic.uuid),
            decreases whens@.len() - i,
        {
            proof {
                assert(ws.take(i + 1).drop_last() =~= ws.take(i as int));
                assert(ws.take(i + 1).last() == *whens@[i as int]);
            }
            relic_whens_push(&mut self.relic_whens, whens[i], relic.uuid);
            i = i + 1;
        }
        proof {
            assert(ws.take(ws.len() as int) =~= ws);
        }
        let reference = relic.reference();
        relic_map_insert(&mut self.relics, relic.uuid, relic);
        reference
    }

    /// Takes away the relic of the given name, which the run must have: it is no longer
    /// known by its name, held, or listed under any moment.
    pub fn remove(&mut self, name: &str)
        requires
            old(self).has(name@),
        ensures
            relics_without(*old(self), *final(self), name@),
    {
        let uuid = name_index_remove(&mut self.relic_names, name).unwrap();
        relic_map_remove(&mut self.relics, uuid);
        let keys = relic_whens_keys(&self.relic_whens);
        let ghost start = relic_whens(self.relic_whens);
        let ghost names = self.relic_names;
        let ghost held = self.relics;
        let ghost seen = self.seen;
        let mut i: usize = 0;
        while i < keys.len()
            invariant
                0 <= i <= keys@.len(),
                self.relic_names == names,
                self.relics == held,
                self.seen == seen,
                keys@.len() == start.dom().len(),
                forall|a: int| 0 <= a < keys@.len() ==> start.contains_key(#[trigger] when_key(keys@[a])),
                forall|a: int, b: int| 0 <= a < b < keys@.len() ==> when_key(#[trigger] keys@[a]) != when_key(#[trigger] keys@[b]),
                forall|k: (int, int, Seq<char>)| #[trigger] start.contains_key(k) ==> exists|a: int| 0 <= a < keys@.len() && when_key(#[trigger] keys@[a]) == k,
                relic_whens(self.relic_whens).dom() == start.dom(),
                forall|a: int| 0 <= a < i ==> #[trigger] relic_whens(self.relic_whens)[when_key(keys@[a])] == without_first(start[when_key(keys@[a])], uuid),
                forall|k: (int, int, Seq<char>)| #[trigger] start.contains_key(k) && (forall|a: int| 0 <= a < i ==> when_key(#[trigger] keys@[a]) != k)
                    ==> relic_whens(self.relic_whens)[k] == start[k],
            decreases keys@.len() - i,
        {
            let key = &keys[i];
            let mut uuids = relic_whens_get(&self.relic_whens, key);
            let ghost before = uuids@;
            let mut j: usize = 0;
            while j < uuids.len()
                invariant
                    0 <= j <= uuids@.len(),
                    uuids@ == before,
                    forall|t: int| 0 <= t < j ==> uuids@[t] != uuid,
                ensures
                    0 <= j <= uuids@.len(),
                    uuids@ == before,
                    forall|t: int| 0 <= t < j ==> uuids@[t] != uuid,
                    j < uuids@.len() ==> uuids@[j as int] == uuid,
                decreases uuids@.len() - j,
            {
                if uuids[j] == uuid {
                    break;
                }
                j = j + 1;
            }
            if j < uuids.len() {
                proof {
                    assert(before.contains(uuid));
                    let f = first_index(before, uuid);
                    assert(0 <= j < before.len() && before[j as int] == uuid);
                    if f < j {
                        assert(before[f] != uuid);
                    } else if f > j {
                        assert(before[j as int] != uuid);
                    }
                }
                uuids.remove(j);
            } else {
                proof {
                    assert(!before.contains(uuid)) by {
                        if before.contains(uuid) {
                            let t = choose|t: int| 0 <= t < before.len() && before[t] == uuid;
                            assert(uuids@[t] != uuid);
                        }
                    }
                }
            }
            relic_whens_set(&mut self.relic_whens, key, uuids);
            proof {
                let k = when_key(keys@[i as int]);
                assert(relic_whens(self.relic_whens).dom() =~= start.dom());
                assert forall|a: int| 0 <= a < i + 1 implies #[trigger] relic_whens(self.relic_whens)[when_key(keys@[a])] == without_first(start[when_key(keys@[a])], uuid) by {
                    if a < i {
                        assert(when_key(keys@[a]) != k);
                    }
                }
            }
            i = i + 1;
        }
        proof {
            assert forall|k: (int, int, Seq<char>)| #[trigger] relic_whens(self.relic_whens).contains_key(k) implies relic_whens(self.relic_whens)[k] == without_first(start[k], uuid) by {
                assert(start.contains_key(k));
                if forall|a: int| 0 <= a < keys@.len() ==> when_key(#[trigger] keys@[a]) != k {
                    let j = choose|j: int| 0 <= j < keys@.len() && when_key(#[trigger] keys@[j]) == k;
                    assert(false);
                } else {
                    let a = choose|a: int| 0 <= a < keys@.len() && !(when_key(#[trigger] keys@[a]) != k);
                    assert(relic_whens(self.relic_whens)[when_key(keys@[a])] == without_first(start[when_key(keys@[a])], uuid));
                }
            }
        }
    }

    /// The relic that a reference names, which the run must hold.
    pub fn get(&self, relic: RelicReference) -> (res: Relic)
        requires
            relic_entries(self.relics).contains_key(relic.relic),
        ensures
            res == relic_entries(self.relics)[relic.relic],
    {
        relic_map_get(&self.relics, relic.relic).unwrap()
    }
}


/// A card of the deck, by its identifier and kind.
#[derive(PartialEq, Eq, Hash, Clone, Copy, Debug)]
pub struct DeckCard {
    pub uuid: u128,
    pub base: &'static BaseCard,
}

/// The state of a run between floors.
#[derive(PartialEq, Eq, Clone, Debug)]
pub struct GameState {
    pub class: Class,
    pub relics: Relics,
    pub act: u8,
    pub asc: u8,
    pub deck: im::HashMap<u128, Card>,
    pub potions: im::Vector<Option<&'static BasePotion>>,
    pub gold: u16,
    pub hp: HpRange,
    pub map: MapState,
    pub keys: Option<KeyState>,
    pub won: Option<bool>,
    pub purge_count: u8,
    pub rare_probability_offset: u8,
}

/// Hit points raised by a whole amount, up to the maximum.
pub open spec fn healed(hp: HpRange, amount: int) -> HpRange {
    HpRange {
        amount: if hp.amount + amount <= hp.max {
            (hp.amount + amount) as u16
        } else {
            hp.max
        },
        max: hp.max,
    }
}

/// The first empty slot of a belt, where there is one.
pub open spec fn first_empty(slots: Seq<Option<&'static BasePotion>>) -> int {
    choose|i: int| 0 <= i < slots.len() && slots[i] is None && forall|j: int| 0 <= j < i ==> slots[j] is Some
}

/// The reference to the potion in a slot, where the slot holds one.
pub open spec fn slot_reference(slot: Option<&'static BasePotion>, index: int) -> Option<PotionReference> {
    match slot {
        Some(p) => Some(PotionReference { base: p, index: index as usize }),
        None => None,
    }
}

/// The references to the potions of a belt, in the order of their slots.
pub open spec fn belt_potions(slots: Seq<Option<&'static BasePotion>>) -> Seq<PotionReference>
    decreases slots.len(),
{
    if slots.len() == 0 {
        Seq::empty()
    } else {
        let before = belt_potions(slots.drop_last());
        match slots.last() {
            Some(p) => before.push(PotionReference { base: p, index: (slots.len() - 1) as usize }),
            None => before,
        }
    }
}

/// Whether an item names a card of the deck, with its kind, that passes a test.
pub open spec fn deck_item_ok(deck: Map<u128, Card>, keep: spec_fn(Card) -> bool, item: DeckCard) -> bool {
    deck.contains_key(item.uuid) && deck[item.uuid].base == item.base && keep(deck[item.uuid])
}

/// Whether a list names each card of a deck once, with its kind, among those that pass
/// a test.
pub open spec fn lists_deck_cards(items: Seq<DeckCard>, deck: Map<u128, Card>, keep: spec_fn(Card) -> bool) -> bool {
    &&& deck.dom().finite()
    &&& forall|i: int| 0 <= i < items.len() ==> deck_item_ok(deck, keep, #[trigger] items[i])
    &&& forall|i: int, j: int| 0 <= i < j < items.len() ==> (#[trigger] items[i]).uuid != (#[trigger] items[j]).uuid
    &&& forall|k: u128| #[trigger] deck.contains_key(k) && keep(deck[k]) ==> exists|i: int| 0 <= i < items.len() && (#[trigger] items[i]).uuid == k
}

impl GameState {
    /// Whether every card of the deck is an attack, skill, power, status or curse.
    pub open spec fn deck_typed(&self) -> bool {
        forall|k: u128| #[trigger] deck_cards(self.deck).contains_key(k) ==> deck_cards(self.deck)[k].base._type != CardType::All
    }

    /// The hit points after healing by a whole amount: unchanged with the Mark of the
    /// Bloom, which forbids healing.
    pub open spec fn heal_spec(&self, hp: HpRange, amount: int) -> HpRange {
        if self.relics.has("Mark Of The Bloom"@) {
            hp
        } else {
            healed(hp, amount)
        }
    }

    /// Heals by a whole number of hit points, up to the maximum, unless the Mark of the
    /// Bloom forbids it.
    pub fn heal(&mut self, amount: u16)
        requires
            old(self).hp.amount + amount <= u16::MAX,
        ensures
            *final(self) == (GameState { hp: old(self).heal_spec(old(self).hp, amount as int), ..*old(self) }),
    {
        if self.relics.contains("Mark Of The Bloom") {
            return;
        }
        self.hp.add(amount);
    }

    /// Raises the maximum hit points by an amount, and heals by as much.
    pub fn add_max_hp(&mut self, amount: u16)
        requires
            old(self).hp.max + amount <= u16::MAX,
            old(self).hp.amount + amount <= u16::MAX,
        ensures
            *final(self) == (GameState {
                hp: old(self).heal_spec(HpRange { max: (old(self).hp.max + amount) as u16, ..old(self).hp }, amount as int),
                ..*old(self)
            }),
    {
        self.hp.max = self.hp.max + amount;
        self.heal(amount);
    }

    /// Takes a card out of the deck.
    pub fn remove_card(&mut self, card: u128)
        ensures
            deck_cards(final(self).deck) == deck_cards(old(self).deck).remove(card),
            *final(self) == (GameState { deck: final(self).deck, ..*old(self) }),
    {
        deck_remove(&mut self.deck, card);
    }

    /// The run after gaining gold: unchanged with Ectoplasm, else richer, and healed by
    /// five with the Bloody Idol.
    pub open spec fn add_gold_spec(&self, amount: u16) -> GameState {
        if self.relics.has("Ectoplasm"@) {
            *self
        } else {
            GameState {
                gold: (self.gold + amount) as u16,
                hp: if self.relics.has("Bloody Idol"@) {
                    self.heal_spec(self.hp, 5)
                } else {
                    self.hp
                },
                ..*self
            }
        }
    }

    /// Adds gold, unless Ectoplasm forbids it; with the Bloody Idol, gaining gold heals
    /// five hit points.
    pub fn add_gold(&mut self, amount: u16)
        requires
            !old(self).relics.has("Ectoplasm"@) ==> old(self).gold + amount <= u16::MAX,
            !old(self).relics.has("Ectoplasm"@) && old(self).relics.has("Bloody Idol"@) ==> old(self).hp.amount + 5 <= u16::MAX,
        ensures
            *final(self) == old(self).add_gold_spec(amount),
    {
        if self.relics.contains("Ectoplasm") {
            return;
        }
        if self.relics.contains("Bloody Idol") {
            self.heal(5);
        }
        self.gold = self.gold + amount;
    }

    /// Puts a potion in the first empty slot; `false`, with nothing changed, when every
    /// slot is full.
    pub fn add_potion(&mut self, potion: &'static BasePotion) -> (res: bool)
        ensures
            res == slot_items(old(self).potions).contains(None),
            res ==> slot_items(final(self).potions) == slot_items(old(self).potions).update(
                first_empty(slot_items(old(self).potions)),
                Some(potion),
            ),
            !res ==> final(self).potions == old(self).potions,
            *final(self) == (GameState { potions: final(self).potions, ..*old(self) }),
    {
        let slots = slots_items(&self.potions);
        let mut i: usize = 0;
        while i < slots.len()
            invariant
                0 <= i <= slots@.len(),
                slots@ == slot_items(self.potions),
                forall|j: int| 0 <= j < i ==> slots@[j] is Some,
            ensures
                0 <= i <= slots@.len(),
                forall|j: int| 0 <= j < i ==> slots@[j] is Some,
                i < slots@.len() ==> slots@[i as int] is None,
            decreases slots@.len() - i,
        {
            if slots[i].is_none() {
                break;
            }
            i = i + 1;
        }
        if i < slots.len() {
            proof {
                let f = first_empty(slots@);
                assert(slots@[i as int] is None);
                assert(slots@.contains(None)) by {
                    assert(slots@[i as int] == None::<&'static BasePotion>);
                }
                if f < i {
                    assert(slots@[f] is Some);
                } else if f > i {
                    assert(slots@[i as int] is Some);
                }
            }
            slots_set(&mut self.potions, i, Some(potion));
            true
        } else {
            proof {
                if slots@.contains(None) {
                    let t = choose|t: int| 0 <= t < slots@.len() && slots@[t] == None::<&'static BasePotion>;
                    assert(slots@[t] is Some);
                }
            }
            false
        }
    }

    /// The potion in a slot, which must exist, as a reference; `None` when the slot is
    /// empty.
    pub fn potion_at(&self, slot: usize) -> (res: Option<PotionReference>)
        requires
            slot < slot_items(self.potions).len(),
        ensures
            res == slot_reference(slot_items(self.potions)[slot as int], slot as int),
    {
        let slots = slots_items(&self.potions);
        match slots[slot] {
            Some(potion) => Some(potion.reference(slot)),
            None => None,
        }
    }

    /// A reference to each potion, in the order of the slots.
    pub fn potions(&self) -> (res: Vec<PotionReference>)
        ensures
            res@ == belt_potions(slot_items(self.potions)),
    {
        let slots = slots_items(&self.potions);
        let mut res: Vec<PotionReference> = Vec::new();
        let mut i: usize = 0;
        while i < slots.len()
            invariant
                0 <= i <= slots@.len(),
                res@ == belt_potions(slots@.take(i as int)),
            decreases slots@.len() - i,
        {
            proof {
                assert(slots@.take(i + 1).drop_last() =~= slots@.take(i as int));
            }
            match slots[i] {
                Some(potion) => res.push(potion.reference(i)),
                None => {},
            }
            i = i + 1;
        }
        proof {
            assert(slots@.take(slots@.len() as int) =~= slots@);
        }
        res
    }

    /// Each slot in order, with a reference to its potion where it holds one.
    pub fn potion_slots(&self) -> (res: Vec<Option<PotionReference>>)
        ensures
            res@.len() == slot_items(self.potions).len(),
            forall|i: int| 0 <= i < res@.len() ==> #[trigger] res@[i] == slot_reference(slot_items(self.potions)[i], i),
    {
        let slots = slots_items(&self.potions);
        let mut res: Vec<Option<PotionReference>> = Vec::new();
        let mut i: usize = 0;
        while i < slots.len()
            invariant
                0 <= i <= slots@.len(),
                slots@ == slot_items(self.potions),
                res@.len() == i,
                forall|j: int| 0 <= j < i ==> #[trigger] res@[j] == slot_reference(slots@[j], j),
            decreases slots@.len() - i,
        {
            let slot = match slots[i] {
                Some(potion) => Some(potion.reference(i)),
                None => None,
            };
            res.push(slot);
            i = i + 1;
        }
        res
    }

    /// The first potion of the given name, as a reference; `None` when there is none.
    pub fn find_potion(&mut self, name: &str) -> (res: Option<PotionReference>)
        ensures
            *final(self) == *old(self),
            res is None <==> forall|i: int| 0 <= i < belt_potions(slot_items(old(self).potions)).len()
                ==> (#[trigger] belt_potions(slot_items(old(self).potions))[i]).base.name@ != name@,
            res matches Some(r) ==> exists|i: int| 0 <= i < belt_potions(slot_items(old(self).potions)).len()
                && belt_potions(slot_items(old(self).potions))[i] == r && r.base.name@ == name@
                && forall|j: int| 0 <= j < i ==> (#[trigger] belt_potions(slot_items(old(self).potions))[j]).base.name@ != name@,
    {
        let all = self.potions();
        let mut i: usize = 0;
        while i < all.len()
            invariant
                0 <= i <= all@.len(),
                *self == *old(self),
                all@ == belt_potions(slot_items(old(self).potions)),
                forall|j: int| 0 <= j < i ==> (#[trigger] all@[j]).base.name@ != name@,
            decreases all@.len() - i,
        {
            if str_eq(all[i].base.name.as_str(), name) {
                return Some(all[i]);
            }
            i = i + 1;
        }
        None
    }

    /// Each card of the deck, in an order that is not stated.
    pub fn deck(&self) -> (res: Vec<DeckCard>)
        ensures
            lists_deck_cards(res@, deck_cards(self.deck), |c: Card| true),
    {
        self.deck_filtered(0)
    }

    /// Each card of the deck that can be removed, in an order that is not stated.
    pub fn removable_cards(&self) -> (res: Vec<DeckCard>)
        ensures
            lists_deck_cards(res@, deck_cards(self.deck), |c: Card| c.removable_spec()),
    {
        self.deck_filtered(1)
    }

    /// Each card of the deck that can be upgraded, in an order that is not stated.
    pub fn upgradable_cards(&self) -> (res: Vec<DeckCard>)
        requires
            self.deck_typed(),
        ensures
            lists_deck_cards(res@, deck_cards(self.deck), |c: Card| c.upgradable_spec()),
    {
        self.deck_filtered(2)
    }

    /// The cards of the deck: all of them (0), the removable ones (1) or the upgradable
    /// ones (2).
    fn deck_filtered(&self, which: u8) -> (res: Vec<DeckCard>)
        requires
            which <= 2,
            which == 2 ==> self.deck_typed(),
        ensures
            lists_deck_cards(res@, deck_cards(self.deck), |c: Card| if which == 0 {
                true
            } else if which == 1 {
                c.removable_spec()
            } else {
                c.upgradable_spec()
            }),
    {
        let ghost keep = |c: Card| if which == 0 {
            true
        } else if which == 1 {
            c.removable_spec()
        } else {
            c.upgradable_spec()
        };
        let entries = deck_entries(&self.deck);
        let ghost m = deck_cards(self.deck);
        let mut res: Vec<DeckCard> = Vec::new();
        let mut i: usize = 0;
        while i < entries.len()
            invariant
                0 <= i <= entries@.len(),
                m == deck_cards(self.deck),
                lists_entries(entries@, m),
                which <= 2,
                which == 2 ==> self.deck_typed(),
                keep == (|c: Card| if which == 0 {
                    true
                } else if which == 1 {
                    c.removable_spec()
                } else {
                    c.upgradable_spec()
                }),
                forall|j: int| 0 <= j < res@.len() ==> exists|t: int| 0 <= t < i && (#[trigger] res@[j]).uuid == entries@[t].0,
                forall|j: int| 0 <= j < res@.len() ==> deck_item_ok(m, keep, #[trigger] res@[j]),
                forall|a: int, b: int| 0 <= a < b < res@.len() ==> (#[trigger] res@[a]).uuid != (#[trigger] res@[b]).uuid,
                forall|t: int| 0 <= t < i && keep(#[trigger] entries@[t].1) ==> exists|j: int| 0 <= j < res@.len() && (#[trigger] res@[j]).uuid == entries@[t].0,
            decreases entries@.len() - i,
        {
            let (uuid, card) = entries[i];
            let wanted = if which == 0 {
                true
            } else if which == 1 {
                card.removable()
            } else {
                proof {
                    assert(m.contains_key(entries@[i as int].0));
                }
                card.upgradable()
            };
            let ghost before = res@;
            if wanted {
                proof {
                    assert forall|j: int| 0 <= j < res@.len() implies (#[trigger] res@[j]).uuid != uuid by {
                        let t = choose|t: int| 0 <= t < i && (#[trigger] res@[j]).uuid == entries@[t].0;
                        assert(entries@[t].0 != entries@[i as int].0);
                    }
                }
                res.push(DeckCard { uuid, base: card.base });
                proof {
                    assert(res@[res@.len() - 1].uuid == entries@[i as int].0);
                }
            }
            proof {
                assert(wanted == keep(entries@[i as int].1));
                assert(m.contains_key(entries@[i as int].0) && m[entries@[i as int].0] == entries@[i as int].1);
                assert forall|j: int| 0 <= j < res@.len() implies deck_item_ok(m, keep, #[trigger] res@[j]) by {
                    if j < before.len() {
                        assert(res@[j] == before[j]);
                    }
                }
                assert forall|t: int| 0 <= t < i + 1 && keep(#[trigger] entries@[t].1) implies exists|j: int| 0 <= j < res@.len() && (#[trigger] res@[j]).uuid == entries@[t].0 by {
                    if t < i {
                        let j = choose|j: int| 0 <= j < before.len() && (#[trigger] before[j]).uuid == entries@[t].0;
                        assert(res@[j] == before[j]);
                    } else {
                        assert(res@[res@.len() - 1].uuid == entries@[i as int].0);
                    }
                }
                assert forall|j: int| 0 <= j < res@.len() implies exists|t: int| 0 <= t < i + 1 && (#[trigger] res@[j]).uuid == entries@[t].0 by {
                    if j < before.len() {
                        assert(res@[j] == before[j]);
                        let t = choose|t: int| 0 <= t < i && (#[trigger] before[j]).uuid == entries@[t].0;
                    } else {
                        assert(res@[j].uuid == entries@[i as int].0);
                    }
                }
            }
            i = i + 1;
        }
        proof {
            assert forall|k: u128| #[trigger] m.contains_key(k) && keep(m[k]) implies exists|j: int| 0 <= j < res@.len() && (#[trigger] res@[j]).uuid == k by {
                let t = choose|t: int| 0 <= t < entries@.len() && (#[trigger] entries@[t]).0 == k;
                assert(keep(entries@[t].1));
            }
        }
        res
    }
}


/// Whether a state is a run just begun as a hero class at an ascension: on the first act
/// of an empty map, with 99 gold, three potion slots (two from ascension 11), the
/// starting hit points, a starting deck of new cards and the starting relic alone, no
/// keys, no purges and no rare offset yet.
pub open spec fn starts_run(res: GameState, class: Class, asc: u8) -> bool {
    &&& res.class == class
    &&& res.asc == asc
    &&& res.act == 1
    &&& res.gold == 99
    &&& res.hp.max == starting_max_hp(class, asc)
    &&& res.hp.amount == starting_hp(class, asc)
    &&& slot_items(res.potions) == (if asc >= 11 {
        seq![None::<&'static BasePotion>, None]
    } else {
        seq![None::<&'static BasePotion>, None, None]
    })
    &&& exists|made: Seq<Card>| {
        &&& made.len() == starting_deck(class, asc).len()
        &&& forall|i: int| 0 <= i < made.len() ==> (#[trigger] made[i]).base.name@ == starting_deck(class, asc)[i]
            && made[i].upgrades == 0 && made[i].cost == starting_cost(*made[i].base) && !made[i].bottled
        &&& deck_cards(res.deck) == deck_of(made)
    }
    &&& name_index(res.relics.relic_names).dom() =~= set![starting_relic(class)]
    &&& res.relics.find_spec(starting_relic(class)) matches Some(r) && r.base.name@ == starting_relic(class)
    &&& name_set(res.relics.seen) =~= Set::empty()
    &&& res.keys is None
    &&& res.won is None
    &&& res.purge_count == 0
    &&& res.rare_probability_offset == 0
    &&& res.map.floor == -1
    &&& res.map.index is None
}

/// Whether `g2`, with the factors `fa`, is the run `g1`, with `fb`, after drinking a
/// potion outside of battle (see `GameState::drink_potion`).
pub open spec fn potion_drunk(
    g1: GameState,
    g2: GameState,
    potion: PotionReference,
    catalog: Seq<&'static BasePotion>,
    fb: Seq<(u64, u64)>,
    fa: Seq<(u64, u64)>,
) -> bool {
    &&& potion.base.name@ == "Fruit Juice"@ ==> {
        let juice: int = if g1.relics.has("Sacred Bark"@) { 10 } else { 5 };
        &&& g2 == (GameState {
            hp: g1.heal_spec(HpRange { max: (g1.hp.max + juice) as u16, ..g1.hp }, juice),
            ..g1
        })
        &&& fa == fb
    }
    &&& potion.base.name@ == "Blood Potion"@ ==> {
        let blood: int = if g1.relics.has("Sacred Bark"@) { (2 * g1.hp.max + 4) / 5 } else { (g1.hp.max + 4) / 5 };
        &&& g2 == (GameState { hp: g1.heal_spec(g1.hp, blood), ..g1 })
        &&& fa == fb
    }
    &&& potion.base.name@ == "Entropic Brew"@ ==> {
        &&& exists|drawn: Seq<&'static BasePotion>, fs: Seq<Seq<(u64, u64)>>| #[trigger] brewed(
            catalog,
            slot_items(g1.potions),
            slot_items(g2.potions),
            drawn,
            fs,
            fb,
            fa,
        )
        &&& g2 == (GameState { potions: g2.potions, ..g1 })
    }
}

/// Whether a class is one of the four that a run can be played as.
pub open spec fn is_hero(class: Class) -> bool {
    class == Class::Ironclad || class == Class::Silent || class == Class::Defect || class == Class::Watcher
}

/// The names of the cards that a run of the class starts with, with Ascender's Bane from
/// ascension 10.
pub open spec fn starting_deck(class: Class, asc: u8) -> Seq<Seq<char>> {
    let base = match class {
        Class::Ironclad => seq![
            "Strike"@, "Strike"@, "Strike"@, "Strike"@, "Strike"@, "Defend"@, "Defend"@,
            "Defend"@, "Defend"@, "Bash"@,
        ],
        Class::Silent => seq![
            "Strike"@, "Strike"@, "Strike"@, "Strike"@, "Strike"@, "Defend"@, "Defend"@,
            "Defend"@, "Defend"@, "Defend"@, "Survivor"@, "Neutralize"@,
        ],
        Class::Defect => seq![
            "Strike"@, "Strike"@, "Strike"@, "Strike"@, "Defend"@, "Defend"@, "Defend"@,
            "Defend"@, "Zap"@, "Dualcast"@,
        ],
        _ => seq![
            "Strike"@, "Strike"@, "Strike"@, "Strike"@, "Defend"@, "Defend"@, "Defend"@,
            "Defend"@, "Eruption"@, "Vigilance"@,
        ],
    };
    if asc >= 10 {
        base.push("Ascender's Bane"@)
    } else {
        base
    }
}

/// The maximum hit points that a run of the class starts with, four lower from
/// ascension 14, five for the Ironclad.
pub open spec fn starting_max_hp(class: Class, asc: u8) -> int {
    let base: int = match class {
        Class::Ironclad => 80,
        Class::Silent => 70,
        Class::Defect => 75,
        _ => 72,
    };
    if asc >= 14 {
        if class == Class::Ironclad {
            base - 5
        } else {
            base - 4
        }
    } else {
        base
    }
}

/// The hit points that a run starts with: full, or nine tenths rounded up from
/// ascension 6.
pub open spec fn starting_hp(class: Class, asc: u8) -> int {
    let max = starting_max_hp(class, asc);
    if asc >= 6 {
        (9 * max + 9) / 10
    } else {
        max
    }
}

/// The relic that a run of the class starts with.
pub open spec fn starting_relic(class: Class) -> Seq<char> {
    match class {
        Class::Ironclad => "Burning Blood"@,
        Class::Silent => "Ring Of The Snake"@,
        Class::Defect => "Cracked Core"@,
        _ => "Pure Water"@,
    }
}

/// The deck that holds the given cards, each under its identifier, a later card in
/// place of an earlier one under the same identifier.
pub open spec fn deck_of(made: Seq<Card>) -> Map<u128, Card>
    decreases made.len(),
{
    if made.len() == 0 {
        Map::empty()
    } else {
        deck_of(made.drop_last()).insert(made.last().uuid, made.last())
    }
}

/// Whether each card of a catalog can be made into a new card.
pub open spec fn cards_makeable(cards: Seq<&'static BaseCard>) -> bool {
    forall|i: int| 0 <= i < cards.len() ==> has_known_cost(*(#[trigger] cards[i])) && is_plain_condition(cards[i].retain)
}

/// The names of the starting cards of a class.
fn starting_names(class: Class, asc: u8) -> (res: Vec<&'static str>)
    requires
        is_hero(class),
    ensures
        res@.len() == starting_deck(class, asc).len(),
        forall|i: int| 0 <= i < res@.len() ==> (#[trigger] res@[i])@ == starting_deck(class, asc)[i],
{
    let mut names: Vec<&'static str> = Vec::new();
    match class {
        Class::Ironclad => {
            names.push("Strike"); names.push("Strike"); names.push("Strike"); names.push("Strike");
            names.push("Strike"); names.push("Defend"); names.push("Defend"); names.push("Defend");
            names.push("Defend"); names.push("Bash");
        },
        Class::Silent => {
            names.push("Strike"); names.push("Strike"); names.push("Strike"); names.push("Strike");
            names.push("Strike"); names.push("Defend"); names.push("Defend"); names.push("Defend");
            names.push("Defend"); names.push("Defend"); names.push("Survivor"); names.push("Neutralize");
        },
        Class::Defect => {
            names.push("Strike"); names.push("Strike"); names.push("Strike"); names.push("Strike");
            names.push("Defend"); names.push("Defend"); names.push("Defend"); names.push("Defend");
            names.push("Zap"); names.push("Dualcast");
        },
        _ => {
            names.push("Strike"); names.push("Strike"); names.push("Strike"); names.push("Strike");
            names.push("Defend"); names.push("Defend"); names.push("Defend"); names.push("Defend");
            names.push("Eruption"); names.push("Vigilance");
        },
    }
    if asc >= 10 {
        names.push("Ascender's Bane");
    }
    names
}

impl GameState {
    /// Whether the Omamori takes in a curse that would be added to the deck: it has
    /// charges left.
    pub open spec fn omamori_blocks(&self, card: Card) -> bool {
        card.base._type == CardType::Curse && match self.relics.find_spec("Omamori"@) {
            Some(r) => r.vars.x > 0,
            None => false,
        }
    }

    /// Whether a card of the given type comes upgraded into the deck, by the eggs.
    pub open spec fn egg_upgrades(&self, t: CardType) -> bool {
        match t {
            CardType::Attack => self.relics.has("Molten Egg"@),
            CardType::Skill => self.relics.has("Toxic Egg"@),
            CardType::Power => self.relics.has("Frozen Egg"@),
            _ => false,
        }
    }

    /// A card as it enters the deck: upgraded by an egg where it was not, and no longer
    /// bottled.
    pub open spec fn as_added(&self, card: Card) -> Card {
        Card {
            upgrades: if self.egg_upgrades(card.base._type) && card.upgrades == 0 {
                1
            } else {
                card.upgrades
            },
            bottled: false,
            ..card
        }
    }

    /// Whether `after` is this run with a card added: a curse is taken in by the Omamori
    /// while it has charges, using one; else the Darkstone Periapt gives six maximum hit
    /// points for it, the Ceramic Fish nine gold for any card, and the card enters the deck
    /// as the eggs make it.
    pub open spec fn card_added(&self, after: GameState, card: Card) -> bool {
        &&& (self.omamori_blocks(card) ==> {
            let uuid = name_index(self.relics.relic_names)["Omamori"@];
            let r = relic_entries(self.relics.relics)[uuid];
            &&& relic_entries(after.relics.relics) == relic_entries(self.relics.relics).insert(
                uuid,
                Relic { vars: Vars { x: (r.vars.x - 1) as i16, ..r.vars }, ..r },
            )
            &&& after.relics == (Relics { relics: after.relics.relics, ..self.relics })
            &&& after == (GameState { relics: after.relics, ..*self })
        })
        &&& (!self.omamori_blocks(card) ==> {
            let darkstone = card.base._type == CardType::Curse && self.relics.has("Darkstone Periapt"@);
            let hp1 = if darkstone {
                self.heal_spec(HpRange { max: (self.hp.max + 6) as u16, ..self.hp }, 6)
            } else {
                self.hp
            };
            let fish = self.relics.has("Ceramic Fish"@) && !self.relics.has("Ectoplasm"@);
            let hp2 = if fish && self.relics.has("Bloody Idol"@) {
                self.heal_spec(hp1, 5)
            } else {
                hp1
            };
            &&& deck_cards(after.deck) == deck_cards(self.deck).insert(card.uuid, self.as_added(card))
            &&& after == (GameState {
                hp: hp2,
                gold: if fish { (self.gold + 9) as u16 } else { self.gold },
                deck: after.deck,
                ..*self
            })
        })
    }

    /// Adds a card to the deck. A curse is taken in by the Omamori while it has charges,
    /// using one; else the Darkstone Periapt gives six maximum hit points for it. The
    /// Ceramic Fish gives nine gold for any card, and the eggs upgrade the card.
    pub fn add_card(&mut self, card: Card)
        requires
            card.base._type != CardType::All,
            !old(self).omamori_blocks(card) && card.base._type == CardType::Curse && old(self).relics.has("Darkstone Periapt"@)
                ==> old(self).hp.max + 6 <= u16::MAX && old(self).hp.amount + 6 <= u16::MAX,
            !old(self).omamori_blocks(card) && old(self).relics.has("Ceramic Fish"@) && !old(self).relics.has("Ectoplasm"@)
                ==> old(self).gold + 9 <= u16::MAX && old(self).hp.amount + 11 <= u16::MAX,
        ensures
            old(self).card_added(*final(self), card),
    {
        let mut card = card;
        if card.base._type == CardType::Curse {
            match name_index_get(&self.relics.relic_names, "Omamori") {
                Some(uuid) => {
                    match relic_map_get(&self.relics.relics, uuid) {
                        Some(relic) => {
                            if relic.vars.x > 0 {
                                let mut relic = relic;
                                relic.vars.x = relic.vars.x - 1;
                                relic_map_insert(&mut self.relics.relics, uuid, relic);
                                return;
                            }
                        },
                        None => {},
                    }
                },
                None => {},
            }
            if self.relics.contains("Darkstone Periapt") {
                self.add_max_hp(6);
            }
        }
        if self.relics.contains("Ceramic Fish") {
            self.add_gold(9);
        }
        let should_upgrade = match card.base._type {
            CardType::Attack => self.relics.contains("Molten Egg"),
            CardType::Skill => self.relics.contains("Toxic Egg"),
            CardType::Power => self.relics.contains("Frozen Egg"),
            _ => false,
        };
        if should_upgrade && card.upgrades == 0 {
            card.upgrades = 1;
        }
        card.bottled = false;
        deck_insert(&mut self.deck, card.uuid, card);
    }

    /// A new run of a hero class at an ascension: its starting deck of new cards from the
    /// catalog, its starting relic, 99 gold, three potion slots (two from ascension 11),
    /// and its starting hit points, on the first act of an empty map.
    pub fn new(class: Class, asc: u8, cards: &[&'static BaseCard], relic_catalog: &[&'static BaseRelic]) -> (res: Self)
        requires
            is_hero(class),
            forall|i: int| 0 <= i < starting_deck(class, asc).len() ==> has_card_named(cards@, #[trigger] starting_deck(class, asc)[i]),
            cards_makeable(cards@),
            has_relic_named(relic_catalog@, starting_relic(class)),
        ensures
            starts_run(res, class, asc),
    {
        let names = starting_names(class, asc);
        let mut deck = deck_new();
        let ghost mut made: Seq<Card> = Seq::empty();
        let mut i: usize = 0;
        while i < names.len()
            invariant
                0 <= i <= names@.len(),
                names@.len() == starting_deck(class, asc).len(),
                forall|j: int| 0 <= j < names@.len() ==> (#[trigger] names@[j])@ == starting_deck(class, asc)[j],
                forall|j: int| 0 <= j < starting_deck(class, asc).len() ==> has_card_named(cards@, #[trigger] starting_deck(class, asc)[j]),
                cards_makeable(cards@),
                made.len() == i,
                forall|j: int| 0 <= j < i ==> (#[trigger] made[j]).base.name@ == starting_deck(class, asc)[j]
                    && made[j].upgrades == 0 && made[j].cost == starting_cost(*made[j].base) && !made[j].bottled,
                deck_cards(deck) == deck_of(made),
            decreases names@.len() - i,
        {
            proof {
                assert(has_card_named(cards@, starting_deck(class, asc)[i as int]));
            }
            let card = Card::by_name(cards, names[i]);
            deck_insert(&mut deck, card.uuid, card);
            proof {
                let next = made.push(card);
                assert(next.drop_last() =~= made);
                made = next;
            }
            i = i + 1;
        }
        let potions = if asc >= 11 {
            slots_from(vec![None, None])
        } else {
            slots_from(vec![None, None, None])
        };
        let mut max_hp: u16 = match class {
            Class::Ironclad => 80,
            Class::Silent => 70,
            Class::Defect => 75,
            _ => 72,
        };
        if asc >= 14 {
            if class == Class::Ironclad {
                max_hp = max_hp - 5;
            } else {
                max_hp = max_hp - 4;
            }
        }
        let hp = if asc >= 6 {
            (9 * max_hp + 9) / 10
        } else {
            max_hp
        };
        let starting = match class {
            Class::Ironclad => "Burning Blood",
            Class::Silent => "Ring Of The Snake",
            Class::Defect => "Cracked Core",
            _ => "Pure Water",
        };
        let mut state = GameState {
            class,
            map: MapState::new(),
            relics: Relics::new(),
            act: 1,
            asc,
            deck,
            potions,
            hp: HpRange { amount: hp, max: max_hp },
            gold: 99,
            keys: None,
            won: None,
            purge_count: 0,
            rare_probability_offset: 0,
        };
        let base = relics::by_name(relic_catalog, starting);
        let added = state.relics.add(base);
        proof {
            assert(slot_items(state.potions) =~= (if asc >= 11 {
                seq![None::<&'static BasePotion>, None]
            } else {
                seq![None::<&'static BasePotion>, None, None]
            }));
        }
        state
    }
}


impl GameState {
    /// The value of an amount outside of battle: the high value from ascension 15, the
    /// maximum hit points, a fixed value, or the product or sum of amounts.
    pub open spec fn amount_value(&self, a: Amount) -> int
        decreases a, 0int,
    {
        match a {
            Amount::ByAsc { amount, high, .. } => if self.asc >= 15 {
                high as int
            } else {
                amount as int
            },
            Amount::MaxHp => (self.hp.max as i16) as int,
            Amount::Fixed(x) => x as int,
            Amount::Mult(v) => self.amounts_product(v@, v@.len() as int),
            Amount::Sum(v) => self.amounts_sum(v@, v@.len() as int),
            _ => 0,
        }
    }

    /// The product of the values of the first `k` amounts of a list.
    pub open spec fn amounts_product(&self, s: Seq<Amount>, k: int) -> int
        decreases s, k,
    {
        if k <= 0 || k > s.len() {
            1
        } else {
            self.amounts_product(s, k - 1) * self.amount_value(s[k - 1])
        }
    }

    /// The sum of the values of the first `k` amounts of a list.
    pub open spec fn amounts_sum(&self, s: Seq<Amount>, k: int) -> int
        decreases s, k,
    {
        if k <= 0 || k > s.len() {
            0
        } else {
            self.amounts_sum(s, k - 1) + self.amount_value(s[k - 1])
        }
    }

    /// Whether an amount can be valued outside of battle, each partial product and sum
    /// within the range of an `i16`.
    pub open spec fn amount_fits(&self, a: Amount) -> bool
        decreases a, 0int,
    {
        match a {
            Amount::ByAsc { .. } | Amount::MaxHp | Amount::Fixed(_) => true,
            Amount::Mult(v) => self.product_fits(v@, v@.len() as int),
            Amount::Sum(v) => self.sum_fits(v@, v@.len() as int),
            _ => false,
        }
    }

    /// Whether the first `k` amounts of a list can be valued, with each partial product
    /// in range.
    pub open spec fn product_fits(&self, s: Seq<Amount>, k: int) -> bool
        decreases s, k,
    {
        if k <= 0 || k > s.len() {
            true
        } else {
            &&& self.product_fits(s, k - 1)
            &&& self.amount_fits(s[k - 1])
            &&& i16::MIN <= self.amounts_product(s, k) <= i16::MAX
        }
    }

    /// Whether the first `k` amounts of a list can be valued, with each partial sum in
    /// range.
    pub open spec fn sum_fits(&self, s: Seq<Amount>, k: int) -> bool
        decreases s, k,
    {
        if k <= 0 || k > s.len() {
            true
        } else {
            &&& self.sum_fits(s, k - 1)
            &&& self.amount_fits(s[k - 1])
            &&& i16::MIN <= self.amounts_sum(s, k) <= i16::MAX
        }
    }

    /// The value of an amount outside of battle.
    pub fn eval_amount(&self, amount: &Amount) -> (res: i16)
        requires
            self.amount_fits(*amount),
        ensures
            res == self.amount_value(*amount),
        decreases *amount,
    {
        match amount {
            Amount::ByAsc { amount, high, .. } => {
                if self.asc >= 15 {
                    *high
                } else {
                    *amount
                }
            },
            Amount::MaxHp => self.hp.max as i16,
            Amount::Fixed(amount) => *amount,
            Amount::Mult(amount_mult) => {
                let mut product: i16 = 1;
                let mut i: usize = 0;
                while i < amount_mult.len()
                    invariant
                        0 <= i <= amount_mult@.len(),
                        *amount == Amount::Mult(*amount_mult),
                        self.product_fits(amount_mult@, amount_mult@.len() as int),
                        product == self.amounts_product(amount_mult@, i as int),
                    decreases amount_mult@.len() - i,
                {
                    proof {
                        self.lemma_product_fits_prefix(amount_mult@, amount_mult@.len() as int, i + 1);
                    }
                    proof {
                        assert(decreases_to!(*amount => (*amount)->Mult_0));
                        assert(decreases_to!(*amount_mult => amount_mult@));
                        assert(decreases_to!(amount_mult@ => amount_mult@[i as int]));
                        assert(decreases_to!(*amount => amount_mult@[i as int]));
                    }
                    let value = self.eval_amount(&amount_mult[i]);
                    product = product * value;
                    i = i + 1;
                }
                product
            },
            Amount::Sum(amount_sum) => {
                let mut sum: i16 = 0;
                let mut i: usize = 0;
                while i < amount_sum.len()
                    invariant
                        0 <= i <= amount_sum@.len(),
                        *amount == Amount::Sum(*amount_sum),
                        self.sum_fits(amount_sum@, amount_sum@.len() as int),
                        sum == self.amounts_sum(amount_sum@, i as int),
                    decreases amount_sum@.len() - i,
                {
                    proof {
                        self.lemma_sum_fits_prefix(amount_sum@, amount_sum@.len() as int, i + 1);
                    }
                    proof {
                        assert(decreases_to!(*amount => (*amount)->Sum_0));
                        assert(decreases_to!(*amount_sum => amount_sum@));
                        assert(decreases_to!(amount_sum@ => amount_sum@[i as int]));
                        assert(decreases_to!(*amount => amount_sum@[i as int]));
                    }
                    let value = self.eval_amount(&amount_sum[i]);
                    sum = sum + value;
                    i = i + 1;
                }
                sum
            },
            _ => 0,
        }
    }

    /// Fitting the first `k` amounts means fitting each shorter prefix.
    proof fn lemma_product_fits_prefix(&self, s: Seq<Amount>, k: int, j: int)
        requires
            self.product_fits(s, k),
            0 < j <= k <= s.len(),
        ensures
            self.product_fits(s, j),
            self.amount_fits(s[j - 1]),
            i16::MIN <= self.amounts_product(s, j) <= i16::MAX,
        decreases k - j,
    {
        if j < k {
            self.lemma_product_fits_prefix(s, k - 1, j);
        }
    }

    /// Fitting the first `k` amounts means fitting each shorter prefix.
    proof fn lemma_sum_fits_prefix(&self, s: Seq<Amount>, k: int, j: int)
        requires
            self.sum_fits(s, k),
            0 < j <= k <= s.len(),
        ensures
            self.sum_fits(s, j),
            self.amount_fits(s[j - 1]),
            i16::MIN <= self.amounts_sum(s, j) <= i16::MAX,
        decreases k - j,
    {
        if j < k {
            self.lemma_sum_fits_prefix(s, k - 1, j);
        }
    }

    /// Whether a condition holds of the run outside of battle.
    pub open spec fn condition_holds(&self, c: Condition) -> bool
        decreases c, 0int,
    {
        match c {
            Condition::Asc(i) => self.asc >= i,
            Condition::Act(i) => self.act >= i,
            Condition::Not(inner) => !self.condition_holds(*inner),
            Condition::MultipleAnd(v) => self.all_hold(v@, v@.len() as int),
            Condition::MultipleOr(v) => self.any_holds(v@, v@.len() as int),
            Condition::HasRelic(relic) => self.relics.has(relic.name@),
            Condition::HasGold(Amount::Fixed(i)) => self.gold >= (i as u16),
            Condition::Always => true,
            Condition::Class(class) => self.class == class,
            Condition::HasUpgradableCard => exists|k: u128| #[trigger] deck_cards(self.deck).contains_key(k)
                && deck_cards(self.deck)[k].upgradable_spec(),
            Condition::OnFloor(i) => self.map.floor >= i,
            _ => false,
        }
    }

    /// Whether each of the first `k` conditions of a list holds.
    pub open spec fn all_hold(&self, s: Seq<Condition>, k: int) -> bool
        decreases s, k,
    {
        if k <= 0 || k > s.len() {
            true
        } else {
            self.all_hold(s, k - 1) && self.condition_holds(s[k - 1])
        }
    }

    /// Whether any of the first `k` conditions of a list holds.
    pub open spec fn any_holds(&self, s: Seq<Condition>, k: int) -> bool
        decreases s, k,
    {
        if k <= 0 || k > s.len() {
            false
        } else {
            self.any_holds(s, k - 1) || self.condition_holds(s[k - 1])
        }
    }

    /// Whether a condition can be judged outside of battle: one about the ascension, act,
    /// relics, gold as a fixed amount, class, upgradable cards or floor, or a combination
    /// of such.
    pub open spec fn condition_known(&self, c: Condition) -> bool
        decreases c, 0int,
    {
        match c {
            Condition::Asc(_) | Condition::Act(_) | Condition::HasRelic(_) | Condition::Always
            | Condition::Class(_) | Condition::OnFloor(_) | Condition::Never => true,
            Condition::HasGold(a) => a is Fixed,
            Condition::HasUpgradableCard => self.deck_typed(),
            Condition::Not(inner) => self.condition_known(*inner),
            Condition::MultipleAnd(v) => self.all_known(v@, v@.len() as int),
            Condition::MultipleOr(v) => self.all_known(v@, v@.len() as int),
            _ => false,
        }
    }

    /// Whether each of the first `k` conditions of a list can be judged.
    pub open spec fn all_known(&self, s: Seq<Condition>, k: int) -> bool
        decreases s, k,
    {
        if k <= 0 || k > s.len() {
            true
        } else {
            self.all_known(s, k - 1) && self.condition_known(s[k - 1])
        }
    }

    /// Each of the first `k` conditions of a list can be judged where all can.
    proof fn lemma_all_known_prefix(&self, s: Seq<Condition>, k: int, j: int)
        requires
            self.all_known(s, k),
            0 < j <= k <= s.len(),
        ensures
            self.condition_known(s[j - 1]),
        decreases k - j,
    {
        if j < k {
            self.lemma_all_known_prefix(s, k - 1, j);
        }
    }

    /// Whether a condition holds of the run outside of battle.
    pub fn eval_condition(&self, condition: &Condition) -> (res: bool)
        requires
            self.condition_known(*condition),
        ensures
            res == self.condition_holds(*condition),
        decreases *condition,
    {
        match condition {
            Condition::Asc(i) => self.asc >= *i,
            Condition::Act(i) => self.act >= *i,
            Condition::Not(c) => !self.eval_condition(c),
            Condition::MultipleAnd(conditions) => {
                let mut i: usize = 0;
                while i < conditions.len()
                    invariant
                        0 <= i <= conditions@.len(),
                        *condition == Condition::MultipleAnd(*conditions),
                        self.all_known(conditions@, conditions@.len() as int),
                        self.all_hold(conditions@, i as int),
                    decreases conditions@.len() - i,
                {
                    proof {
                        self.lemma_all_known_prefix(conditions@, conditions@.len() as int, i + 1);
                    }
                    proof {
                        assert(decreases_to!(*condition => (*condition)->MultipleAnd_0));
                        assert(decreases_to!(*conditions => conditions@));
                        assert(decreases_to!(conditions@ => conditions@[i as int]));
                        assert(decreases_to!(*condition => conditions@[i as int]));
                    }
                    if !self.eval_condition(&conditions[i]) {
                        proof {
                            self.lemma_all_hold_fails(conditions@, i + 1, conditions@.len() as int);
                        }
                        return false;
                    }
                    i = i + 1;
                }
                true
            },
            Condition::MultipleOr(conditions) => {
                let mut i: usize = 0;
                while i < conditions.len()
                    invariant
                        0 <= i <= conditions@.len(),
                        *condition == Condition::MultipleOr(*conditions),
                        self.all_known(conditions@, conditions@.len() as int),
                        !self.any_holds(conditions@, i as int),
                    decreases conditions@.len() - i,
                {
                    proof {
                        self.lemma_all_known_prefix(conditions@, conditions@.len() as int, i + 1);
                    }
                    proof {
                        assert(decreases_to!(*condition => (*condition)->MultipleOr_0));
                        assert(decreases_to!(*conditions => conditions@));
                        assert(decreases_to!(conditions@ => conditions@[i as int]));
                        assert(decreases_to!(*condition => conditions@[i as int]));
                    }
                    if self.eval_condition(&conditions[i]) {
                        proof {
                            self.lemma_any_holds_stays(conditions@, i + 1, conditions@.len() as int);
                        }
                        return true;
                    }
                    i = i + 1;
                }
                false
            },
            Condition::HasRelic(relic) => self.relics.contains(relic.name.as_str()),
            Condition::HasGold(amount) => {
                match amount {
                    Amount::Fixed(i) => self.gold >= #[verifier::truncate] (*i as u16),
                    _ => false,
                }
            },
            Condition::Always => true,
            Condition::Class(c) => self.class == *c,
            Condition::HasUpgradableCard => {
                let cards = self.upgradable_cards();
                proof {
                    if cards@.len() > 0 {
                        assert(deck_item_ok(deck_cards(self.deck), |c: Card| c.upgradable_spec(), cards@[0]));
                    }
                }
                cards.len() > 0
            },
            Condition::OnFloor(i) => self.map.floor >= *i,
            _ => false,
        }
    }

    /// Once one of the first `j` conditions fails, not all of the first `k` hold.
    proof fn lemma_all_hold_fails(&self, s: Seq<Condition>, j: int, k: int)
        requires
            0 < j <= k <= s.len(),
            !self.all_hold(s, j),
        ensures
            !self.all_hold(s, k),
        decreases k - j,
    {
        if j < k {
            self.lemma_all_hold_fails(s, j, k - 1);
        }
    }

    /// Once one of the first `j` conditions holds, one of the first `k` does.
    proof fn lemma_any_holds_stays(&self, s: Seq<Condition>, j: int, k: int)
        requires
            0 < j <= k <= s.len(),
            self.any_holds(s, j),
        ensures
            self.any_holds(s, k),
        decreases k - j,
    {
        if j < k {
            self.lemma_any_holds_stays(s, j, k - 1);
        }
    }
}


/// Whether `after` is the deck `before` with the cards under the given identifiers
/// upgraded, and every other card as it was.
pub open spec fn deck_upgraded(before: Map<u128, Card>, after: Map<u128, Card>, uuids: Seq<u128>) -> bool {
    &&& after.dom() == before.dom()
    &&& forall|k: u128| #[trigger] before.contains_key(k) ==> if uuids.contains(k) {
        upgrade_of(before[k], after[k])
    } else {
        after[k] == before[k]
    }
}

/// The identifiers of a list of deck cards.
pub open spec fn uuids_of(cards: Seq<DeckCard>) -> Seq<u128> {
    cards.map_values(|c: DeckCard| c.uuid)
}

/// A list that names cards of a deck once each is no longer than the deck.
proof fn lemma_listed_no_longer(items: Seq<DeckCard>, deck: Map<u128, Card>, keep: spec_fn(Card) -> bool)
    requires
        lists_deck_cards(items, deck, keep),
    ensures
        items.len() <= deck.dom().len(),
{
    let u = uuids_of(items);
    assert(u.no_duplicates()) by {
        assert forall|i: int, j: int| 0 <= i < u.len() && 0 <= j < u.len() && i != j implies u[i] != u[j] by {
            if i < j {
                assert(items[i].uuid != items[j].uuid);
            } else {
                assert(items[j].uuid != items[i].uuid);
            }
        }
    }
    u.unique_seq_to_set();
    assert(u.to_set().subset_of(deck.dom())) by {
        assert forall|k: u128| u.to_set().contains(k) implies deck.dom().contains(k) by {
            let i = choose|i: int| 0 <= i < u.len() && u[i] == k;
            assert(deck_item_ok(deck, keep, items[i]));
        }
    }
    vstd::set_lib::lemma_len_subset(u.to_set(), deck.dom());
}

/// Whether every card of a deck can be upgraded without overflow.
pub open spec fn deck_upgrade_ready(deck: Map<u128, Card>) -> bool {
    forall|k: u128| #[trigger] deck.contains_key(k) ==> upgrade_ready(deck[k])
}

/// The weight of drawing a potion of a rarity: seventy common, twenty-five uncommon and
/// five rare, out of a hundred.
pub open spec fn potion_weight(r: Rarity) -> u64 {
    match r {
        Rarity::Common => 70,
        Rarity::Uncommon => 25,
        _ => 5,
    }
}

/// Whether a potion can be drawn for a rarity: of that rarity, and no Fruit Juice where
/// healing is excluded.
pub open spec fn potion_candidate(p: BasePotion, rarity: Rarity, no_healing: bool) -> bool {
    p.rarity == rarity && !(no_healing && p.name@ == "Fruit Juice"@)
}

/// The potions of a catalog that can be drawn for a rarity.
pub open spec fn potion_candidates(catalog: Seq<&'static BasePotion>, rarity: Rarity, no_healing: bool) -> Seq<&'static BasePotion> {
    catalog.filter(|p: &'static BasePotion| potion_candidate(*p, rarity, no_healing))
}

/// Whether a catalog has a potion to draw for each rarity that can be drawn.
pub open spec fn potions_drawable(catalog: Seq<&'static BasePotion>, no_healing: bool) -> bool {
    &&& potion_candidates(catalog, Rarity::Common, no_healing).len() > 0
    &&& potion_candidates(catalog, Rarity::Uncommon, no_healing).len() > 0
    &&& potion_candidates(catalog, Rarity::Rare, no_healing).len() > 0
}

/// The potions of a catalog that can be drawn for a rarity.
fn potions_for(catalog: &[&'static BasePotion], rarity: Rarity, no_healing: bool) -> (res: Vec<&'static BasePotion>)
    ensures
        res@ == potion_candidates(catalog@, rarity, no_healing),
{
    let ghost pred = |p: &'static BasePotion| potion_candidate(*p, rarity, no_healing);
    let mut res: Vec<&'static BasePotion> = Vec::new();
    let mut i: usize = 0;
    while i < catalog.len()
        invariant
            0 <= i <= catalog@.len(),
            pred == (|p: &'static BasePotion| potion_candidate(*p, rarity, no_healing)),
            res@ == catalog@.take(i as int).filter(pred),
        decreases catalog@.len() - i,
    {
        let p = catalog[i];
        let keep = p.rarity == rarity && !(no_healing && str_eq(p.name.as_str(), "Fruit Juice"));
        let ghost before = res@;
        if keep {
            res.push(p);
        }
        proof {
            assert(catalog@.take(i + 1).drop_last() =~= catalog@.take(i as int));
            assert(catalog@.take(i + 1).last() == catalog@[i as int]);
            assert(pred(catalog@[i as int]) == keep);
            reveal_with_fuel(Seq::<_>::filter, 1);
        }
        i = i + 1;
    }
    proof {
        assert(catalog@.take(catalog@.len() as int) =~= catalog@);
    }
    res
}

/// A potion drawn at random: a rarity by weight (seventy common, twenty-five uncommon,
/// five rare), then one of the catalog's potions of that rarity, Fruit Juice aside where
/// healing is excluded.
pub fn random_potion(no_healing: bool, probability: &mut Probability, catalog: &[&'static BasePotion]) -> (res: &'static BasePotion)
    requires
        potions_drawable(catalog@, no_healing),
    ensures
        res.rarity == Rarity::Common || res.rarity == Rarity::Uncommon || res.rarity == Rarity::Rare,
        potion_candidates(catalog@, res.rarity, no_healing).contains(res),
        final(probability).factors@ == old(probability).factors@.push((potion_weight(res.rarity), 100u64)).push(
            (1u64, potion_candidates(catalog@, res.rarity, no_healing).len() as u64),
        ),
{
    let rarities = vec![(Rarity::Common, 70u8), (Rarity::Uncommon, 25u8), (Rarity::Rare, 5u8)];
    proof {
        reveal_with_fuel(crate::state::probability::weight_total, 4);
        assert(rarities@.drop_last().drop_last().drop_last() =~= Seq::<(Rarity, u8)>::empty());
        assert(crate::state::probability::weight_total(rarities@) == 100);
    }
    let rarity = *probability.choose_weighted(rarities.as_slice()).unwrap();
    let potions = potions_for(catalog, rarity, no_healing);
    proof {
        assert(potions@.len() > 0);
    }
    let chosen = probability.choose_one(potions);
    chosen.unwrap()
}

impl GameState {
    /// The run after gaining gold: unchanged with Ectoplasm, else richer by the amount and
    /// healed by five with the Bloody Idol.
    pub open spec fn with_gold(&self, amount: int) -> GameState {
        if self.relics.has("Ectoplasm"@) {
            *self
        } else {
            GameState {
                gold: (self.gold + amount) as u16,
                hp: if self.relics.has("Bloody Idol"@) {
                    self.heal_spec(self.hp, 5)
                } else {
                    self.hp
                },
                ..*self
            }
        }
    }

    /// Upgrades each of the given cards of the deck, which must be distinct.
    fn upgrade_each(&mut self, chosen: &Vec<DeckCard>)
        requires
            forall|i: int, j: int| 0 <= i < j < chosen@.len() ==> (#[trigger] chosen@[i]).uuid != (#[trigger] chosen@[j]).uuid,
            forall|i: int| 0 <= i < chosen@.len() ==> deck_cards(old(self).deck).contains_key(#[trigger] chosen@[i].uuid),
            deck_upgrade_ready(deck_cards(old(self).deck)),
        ensures
            deck_upgraded(deck_cards(old(self).deck), deck_cards(final(self).deck), uuids_of(chosen@)),
            *final(self) == (GameState { deck: final(self).deck, ..*old(self) }),
    {
        let ghost start = deck_cards(self.deck);
        let mut i: usize = 0;
        while i < chosen.len()
            invariant
                0 <= i <= chosen@.len(),
                forall|a: int, b: int| 0 <= a < b < chosen@.len() ==> (#[trigger] chosen@[a]).uuid != (#[trigger] chosen@[b]).uuid,
                forall|a: int| 0 <= a < chosen@.len() ==> start.contains_key(#[trigger] chosen@[a].uuid),
                deck_upgrade_ready(start),
                *self == (GameState { deck: self.deck, ..*old(self) }),
                start == deck_cards(old(self).deck),
                deck_upgraded(start, deck_cards(self.deck), uuids_of(chosen@.take(i as int))),
            decreases chosen@.len() - i,
        {
            let uuid = chosen[i].uuid;
            let ghost before = deck_cards(self.deck);
            proof {
                assert(!uuids_of(chosen@.take(i as int)).contains(uuid)) by {
                    if uuids_of(chosen@.take(i as int)).contains(uuid) {
                        let t = choose|t: int| 0 <= t < i && uuids_of(chosen@.take(i as int))[t] == uuid;
                        assert(chosen@[t].uuid != chosen@[i as int].uuid);
                    }
                }
                assert(start.contains_key(uuid));
                assert(before[uuid] == start[uuid]);
            }
            let mut card = deck_get(&self.deck, uuid).unwrap();
            card.upgrade();
            deck_insert(&mut self.deck, uuid, card);
            proof {
                let done = uuids_of(chosen@.take(i + 1));
                assert(done =~= uuids_of(chosen@.take(i as int)).push(uuid));
                assert(deck_cards(self.deck).dom() =~= start.dom());
                assert forall|k: u128| #[trigger] start.contains_key(k) implies if done.contains(k) {
                    upgrade_of(start[k], deck_cards(self.deck)[k])
                } else {
                    deck_cards(self.deck)[k] == start[k]
                } by {
                    if k == uuid {
                        assert(done[i as int] == uuid);
                    } else {
                        if uuids_of(chosen@.take(i as int)).contains(k) {
                            let t = choose|t: int| 0 <= t < i && uuids_of(chosen@.take(i as int))[t] == k;
                            assert(done[t] == k);
                        }
                        if done.contains(k) {
                            let t = choose|t: int| 0 <= t < i + 1 && done[t] == k;
                            assert(uuids_of(chosen@.take(i as int))[t] == k);
                        }
                    }
                }
            }
            i = i + 1;
        }
        proof {
            assert(chosen@.take(chosen@.len() as int) =~= chosen@);
        }
    }

    /// Upgrades up to `count` upgradable cards of the deck of a type, drawn at random;
    /// returns the cards it drew from and those it upgraded.
    fn upgrade_random(&mut self, card_type: CardType, count: usize, probability: &mut Probability) -> (res: (Ghost<Seq<DeckCard>>, Ghost<Seq<DeckCard>>))
        requires
            old(self).deck_typed(),
            deck_upgrade_ready(deck_cards(old(self).deck)),
            picking_fits(deck_cards(old(self).deck).dom().len(), count as nat),
        ensures
            lists_deck_cards(res.0@, deck_cards(old(self).deck), |c: Card| c.upgradable_spec() && card_type.matches_spec(c.base._type)),
            res.1@.len() == (if count <= res.0@.len() { count as int } else { res.0@.len() as int }),
            picks_distinct(res.1@, res.0@),
            deck_upgraded(deck_cards(old(self).deck), deck_cards(final(self).deck), uuids_of(res.1@)),
            *final(self) == (GameState { deck: final(self).deck, ..*old(self) }),
            final(probability).factors@ == old(probability).factors@.push((1u64, binomial(res.0@.len() as nat, res.1@.len() as nat) as u64)),
    {
        let upgradable = self.upgradable_cards();
        let ghost deck = deck_cards(self.deck);
        let mut available: Vec<DeckCard> = Vec::new();
        let mut i: usize = 0;
        while i < upgradable.len()
            invariant
                0 <= i <= upgradable@.len(),
                lists_deck_cards(upgradable@, deck, |c: Card| c.upgradable_spec()),
                forall|j: int| 0 <= j < available@.len() ==> deck_item_ok(deck, |c: Card| c.upgradable_spec() && card_type.matches_spec(c.base._type), #[trigger] available@[j]),
                forall|j: int| 0 <= j < available@.len() ==> exists|t: int| 0 <= t < i && (#[trigger] available@[j]) == upgradable@[t],
                forall|a: int, b: int| 0 <= a < b < available@.len() ==> (#[trigger] available@[a]).uuid != (#[trigger] available@[b]).uuid,
                forall|t: int| 0 <= t < i && card_type.matches_spec((#[trigger] upgradable@[t]).base._type) ==> exists|j: int| 0 <= j < available@.len() && (#[trigger] available@[j]) == upgradable@[t],
            decreases upgradable@.len() - i,
        {
            let card = upgradable[i];
            let ghost before = available@;
            if card_type.matches(card.base._type) {
                proof {
                    assert(deck_item_ok(deck, |c: Card| c.upgradable_spec(), upgradable@[i as int]));
                    assert forall|j: int| 0 <= j < available@.len() implies (#[trigger] available@[j]).uuid != card.uuid by {
                        let t = choose|t: int| 0 <= t < i && (#[trigger] available@[j]) == upgradable@[t];
                    }
                }
                available.push(card);
            }
            proof {
                assert forall|j: int| 0 <= j < available@.len() implies exists|t: int| 0 <= t < i + 1 && (#[trigger] available@[j]) == upgradable@[t] by {
                    if j < before.len() {
                        assert(available@[j] == before[j]);
                        let t = choose|t: int| 0 <= t < i && (#[trigger] before[j]) == upgradable@[t];
                    } else {
                        assert(available@[j] == upgradable@[i as int]);
                    }
                }
                assert forall|t: int| 0 <= t < i + 1 && card_type.matches_spec((#[trigger] upgradable@[t]).base._type) implies exists|j: int| 0 <= j < available@.len() && (#[trigger] available@[j]) == upgradable@[t] by {
                    if t < i {
                        let j = choose|j: int| 0 <= j < before.len() && (#[trigger] before[j]) == upgradable@[t];
                        assert(available@[j] == before[j]);
                    } else {
                        assert(available@[available@.len() - 1] == upgradable@[i as int]);
                    }
                }
                assert forall|j: int| 0 <= j < available@.len() implies deck_item_ok(deck, |c: Card| c.upgradable_spec() && card_type.matches_spec(c.base._type), #[trigger] available@[j]) by {
                    if j < before.len() {
                        assert(available@[j] == before[j]);
                    } else {
                        assert(deck_item_ok(deck, |c: Card| c.upgradable_spec(), upgradable@[i as int]));
                    }
                }
            }
            i = i + 1;
        }
        proof {
            let keep = |c: Card| c.upgradable_spec() && card_type.matches_spec(c.base._type);
            assert forall|k: u128| #[trigger] deck.contains_key(k) && keep(deck[k]) implies exists|j: int| 0 <= j < available@.len() && (#[trigger] available@[j]).uuid == k by {
                let t = choose|t: int| 0 <= t < upgradable@.len() && (#[trigger] upgradable@[t]).uuid == k;
                assert(deck_item_ok(deck, |c: Card| c.upgradable_spec(), upgradable@[t]));
                let j = choose|j: int| 0 <= j < available@.len() && (#[trigger] available@[j]) == upgradable@[t];
            }
            assert(lists_deck_cards(available@, deck, keep));
            lemma_listed_no_longer(available@, deck, keep);
        }
        let ghost listed = available@;
        proof {
            assert(ways_to_pick(listed.len(), count as nat) <= u64::MAX);
        }
        let chosen = probability.choose_multiple(available, count);
        proof {
            let idx = choose|idx: Seq<int>| #[trigger] picks_at(chosen@, listed, idx);
            assert forall|a: int, b: int| 0 <= a < b < chosen@.len() implies (#[trigger] chosen@[a]).uuid != (#[trigger] chosen@[b]).uuid by {
                assert(idx[a] != idx[b]);
                if idx[a] < idx[b] {
                    assert(listed[idx[a]].uuid != listed[idx[b]].uuid);
                } else {
                    assert(listed[idx[b]].uuid != listed[idx[a]].uuid);
                }
            }
            assert forall|a: int| 0 <= a < chosen@.len() implies deck_cards(self.deck).contains_key(#[trigger] chosen@[a].uuid) by {
                assert(chosen@[a] == listed[idx[a]]);
                assert(deck_item_ok(deck, |c: Card| c.upgradable_spec() && card_type.matches_spec(c.base._type), listed[idx[a]]));
            }
        }
        self.upgrade_each(&chosen);
        (Ghost(listed), Ghost(chosen@))
    }
}


/// Whether a relic that acts on being taken is one whose effect is known: the Potion
/// Belt, the three fruits, the Old Coin, Lee's Waffle, War Paint, the Whetstone, or one
/// of the three whose effect comes later.
pub open spec fn immediate_known(base: BaseRelic) -> bool {
    base.activation is Immediate ==> {
        let n = base.name@;
        n == "Potion Belt"@ || n == "Strawberry"@ || n == "Pear"@ || n == "Mango"@ || n == "Old Coin"@
            || n == "Lees Waffle"@ || n == "War Paint"@ || n == "Whetstone"@ || n == "Cauldron"@
            || n == "Dollys Mirror"@ || n == "Orrery"@
    }
}

/// Whether taking a relic does nothing beyond adding it: it does not act on being
/// taken, or its effect comes later (the Cauldron, Dolly's Mirror, the Orrery).
pub open spec fn relic_effect_idle(base: BaseRelic) -> bool {
    !(base.activation is Immediate) || base.name@ == "Cauldron"@ || base.name@ == "Dollys Mirror"@
        || base.name@ == "Orrery"@
}

/// The maximum hit points that a fruit gives on being taken.
pub open spec fn fruit_hp(name: Seq<char>) -> int {
    if name == "Strawberry"@ {
        7
    } else if name == "Pear"@ {
        10
    } else if name == "Mango"@ {
        14
    } else {
        0
    }
}

impl GameState {
    /// Whether the run can take a relic without overflow or an unknown effect.
    pub open spec fn relic_takeable(&self, base: &'static BaseRelic) -> bool {
        let n = base.name@;
        &&& immediate_known(*base)
        &&& base.activation is Immediate ==> {
            &&& fruit_hp(n) > 0 ==> self.hp.max + fruit_hp(n) <= u16::MAX && self.hp.amount + fruit_hp(n) <= u16::MAX
            &&& n == "Old Coin"@ ==> self.gold + 300 <= u16::MAX && self.hp.amount + 5 <= u16::MAX
            &&& n == "Lees Waffle"@ ==> self.hp.max + 7 <= u16::MAX && self.hp.amount + self.hp.max + 7 <= u16::MAX
            &&& (n == "War Paint"@ || n == "Whetstone"@) ==> self.deck_typed() && deck_upgrade_ready(deck_cards(self.deck))
                && deck_cards(self.deck).dom().len() <= u32::MAX
        }
    }

    /// Takes a relic, with the effect of those that act on being taken: the Potion Belt
    /// adds two potion slots, the fruits raise the maximum hit points (7, 10, 14), the Old
    /// Coin gives 300 gold, Lee's Waffle raises the maximum by 7 and heals fully, and War
    /// Paint and the Whetstone upgrade two random skills or attacks.
    pub fn add_relic(&mut self, base: &'static BaseRelic, probability: &mut Probability)
        requires
            old(self).relic_takeable(base),
        ensures
            exists|uuid: u128| relics_with(old(self).relics, final(self).relics, base, uuid),
            (GameState { relics: final(self).relics, ..*old(self) }).took_effect(
                *final(self),
                base,
                old(probability).factors@,
                final(probability).factors@,
            ),
    {
        let added = self.relics.add(base);
        proof {
            assert(relics_with(old(self).relics, self.relics, base, added.relic));
        }
        self.take_effect(base, probability);
    }

    /// Whether `after` is this run after the effect of taking a relic, and `fa` the
    /// factors of the probability after `fb`.
    pub open spec fn took_effect(
        &self,
        after: GameState,
        base: &'static BaseRelic,
        fb: Seq<(u64, u64)>,
        fa: Seq<(u64, u64)>,
    ) -> bool {
        let n = base.name@;
        if relic_effect_idle(*base) {
            after == *self && fa == fb
        } else if n == "Potion Belt"@ {
            &&& slot_items(after.potions) == slot_items(self.potions) + seq![None::<&'static BasePotion>, None]
            &&& after == (GameState { potions: after.potions, ..*self })
            &&& fa == fb
        } else if fruit_hp(n) > 0 {
            &&& after == (GameState {
                hp: self.heal_spec(HpRange { max: (self.hp.max + fruit_hp(n)) as u16, ..self.hp }, fruit_hp(n)),
                ..*self
            })
            &&& fa == fb
        } else if n == "Old Coin"@ {
            after == self.with_gold(300) && fa == fb
        } else if n == "Lees Waffle"@ {
            &&& after == (GameState {
                hp: self.heal_spec(HpRange { max: (self.hp.max + 7) as u16, ..self.hp }, self.hp.max + 7),
                ..*self
            })
            &&& fa == fb
        } else {
            let card_type = if n == "War Paint"@ { CardType::Skill } else { CardType::Attack };
            exists|candidates: Seq<DeckCard>, chosen: Seq<DeckCard>| {
                &&& lists_deck_cards(candidates, deck_cards(self.deck), |c: Card| c.upgradable_spec() && card_type.matches_spec(c.base._type))
                &&& chosen.len() == (if 2 <= candidates.len() { 2 } else { candidates.len() as int })
                &&& picks_distinct(chosen, candidates)
                &&& deck_upgraded(deck_cards(self.deck), deck_cards(after.deck), uuids_of(chosen))
                &&& after == (GameState { deck: after.deck, ..*self })
                &&& fa == fb.push((1u64, #[verifier::truncate] (binomial(candidates.len() as nat, chosen.len() as nat) as u64)))
            }
        }
    }

    /// The effect of taking a relic that acts on being taken.
    #[verifier::rlimit(30)]
    fn take_effect(&mut self, base: &'static BaseRelic, probability: &mut Probability)
        requires
            old(self).relic_takeable(base),
        ensures
            old(self).took_effect(*final(self), base, old(probability).factors@, final(probability).factors@),
    {
        proof {
            reveal_strlit("Potion Belt");
            reveal_strlit("Strawberry");
            reveal_strlit("Pear");
            reveal_strlit("Mango");
            reveal_strlit("Old Coin");
            reveal_strlit("Lees Waffle");
            reveal_strlit("War Paint");
            reveal_strlit("Whetstone");
            reveal_strlit("Cauldron");
            reveal_strlit("Dollys Mirror");
            reveal_strlit("Orrery");
        }
        let is_immediate = match base.activation {
            Activation::Immediate => true,
            _ => false,
        };
        if !is_immediate {
            return;
        }
        let name = base.name.as_str();
        if str_eq(name, "Cauldron") || str_eq(name, "Dollys Mirror") || str_eq(name, "Orrery") {
            return;
        }
        if str_eq(name, "Potion Belt") {
            slots_push(&mut self.potions, None);
            slots_push(&mut self.potions, None);
            proof {
                assert(slot_items(self.potions) =~= slot_items(old(self).potions) + seq![None::<&'static BasePotion>, None]);
            }
        } else if str_eq(name, "Strawberry") {
            self.add_max_hp(7);
        } else if str_eq(name, "Pear") {
            self.add_max_hp(10);
        } else if str_eq(name, "Mango") {
            self.add_max_hp(14);
        } else if str_eq(name, "Old Coin") {
            self.add_gold(300);
        } else if str_eq(name, "Lees Waffle") {
            self.hp.max = self.hp.max + 7;
            let max = self.hp.max;
            self.heal(max);
        } else {
            let card_type = if str_eq(name, "War Paint") {
                CardType::Skill
            } else {
                CardType::Attack
            };
            proof {
                lemma_picking_two_fits(deck_cards(self.deck).dom().len());
            }
            let (candidates, chosen) = self.upgrade_random(card_type, 2, probability);
            proof {
                assert(old(self).took_effect(*self, base, old(probability).factors@, probability.factors@)) by {
                    assert(lists_deck_cards(candidates@, deck_cards(old(self).deck), |c: Card| c.upgradable_spec() && card_type.matches_spec(c.base._type)));
                }
            }
        }
    }
}


/// The weight, out of a hundred, of drawing a relic of a rarity, by the chest it comes
/// from or the rarity asked for: common, uncommon and rare at 50, 33 and 17 when neither
/// is given.
pub open spec fn relic_weight(chest: Option<ChestType>, rarity: Option<Rarity>, r: Rarity) -> u8 {
    let table: (u8, u8, u8, u8, u8) = match chest {
        None => match rarity {
            None => (50, 33, 17, 0, 0),
            Some(Rarity::Shop) => (0, 0, 0, 0, 100),
            Some(Rarity::Boss) => (0, 0, 0, 100, 0),
            Some(Rarity::Rare) => (0, 0, 100, 0, 0),
            Some(Rarity::Uncommon) => (0, 100, 0, 0, 0),
            _ => (100, 0, 0, 0, 0),
        },
        Some(ChestType::Small) => (75, 25, 0, 0, 0),
        Some(ChestType::Medium) => (35, 50, 15, 0, 0),
        Some(ChestType::Large) => (0, 75, 25, 0, 0),
        Some(ChestType::Boss) => (0, 0, 0, 100, 0),
    };
    match r {
        Rarity::Common => table.0,
        Rarity::Uncommon => table.1,
        Rarity::Rare => table.2,
        Rarity::Boss => table.3,
        Rarity::Shop => table.4,
        _ => 0,
    }
}

/// Whether a rarity asked for is one that relics are drawn by.
pub open spec fn relic_rarity_known(chest: Option<ChestType>, rarity: Option<Rarity>) -> bool {
    chest is None ==> match rarity {
        None => true,
        Some(r) => r == Rarity::Shop || r == Rarity::Boss || r == Rarity::Rare || r == Rarity::Uncommon
            || r == Rarity::Common,
    }
}

/// The rarities that relics are drawn from, in order.
pub open spec fn relic_rarities() -> Seq<Rarity> {
    seq![Rarity::Common, Rarity::Uncommon, Rarity::Rare, Rarity::Boss, Rarity::Shop]
}

impl GameState {
    /// Whether the deck holds a card for which a bottle can be found: a non-starter
    /// attack (0), a non-starter skill (1) or a power (2).
    pub open spec fn deck_has_bottle_target(&self, kind: int) -> bool {
        exists|k: u128| #[trigger] deck_cards(self.deck).contains_key(k) && {
            let c = deck_cards(self.deck)[k].base;
            if kind == 0 {
                c._type == CardType::Attack && c.rarity != Rarity::Starter
            } else if kind == 1 {
                c._type == CardType::Skill && c.rarity != Rarity::Starter
            } else {
                c._type == CardType::Power
            }
        }
    }

    /// Whether a relic may be drawn for the run at a rarity: of that rarity and of the
    /// run's class or none, neither held nor seen, allowed on this floor, and allowed by
    /// its own rule (no shop relics that pay in shops, a bottle only for a card to put in
    /// it, only two of Girya, Shovel and Peace Pipe, and an upgraded starter relic only
    /// with its starter).
    pub open spec fn relic_available(&self, relic: BaseRelic, rarity: Rarity, in_shop: bool) -> bool {
        let n = relic.name@;
        &&& relic.rarity == rarity
        &&& (relic.class == self.class || relic.class == Class::All)
        &&& !self.relics.has(n)
        &&& !name_set(self.relics.seen).contains(n)
        &&& (relic.max_floor == 0 || (relic.max_floor as i8) >= self.map.floor)
        &&& if n == "Maw Bank"@ || n == "Smiling Mask"@ || n == "The Courier"@ || n == "Old Coin"@ {
            !in_shop
        } else if n == "Bottled Flame"@ {
            self.deck_has_bottle_target(0)
        } else if n == "Bottled Lightning"@ {
            self.deck_has_bottle_target(1)
        } else if n == "Bottled Tornado"@ {
            self.deck_has_bottle_target(2)
        } else if n == "Girya"@ {
            !self.relics.has("Peace Pipe"@) || !self.relics.has("Shovel"@)
        } else if n == "Shovel"@ {
            !self.relics.has("Peace Pipe"@) || !self.relics.has("Girya"@)
        } else if n == "Peace Pipe"@ {
            !self.relics.has("Girya"@) || !self.relics.has("Shovel"@)
        } else if n == "Black Blood"@ {
            self.relics.has("Burning Blood"@)
        } else if n == "Frozen Core"@ {
            self.relics.has("Cracked Core"@)
        } else if n == "Holy Water"@ {
            self.relics.has("Pure Water"@)
        } else if n == "Ring of the Snake"@ {
            self.relics.has("Ring of the Serpent"@)
        } else {
            true
        }
    }

    /// The relics of a catalog that may be drawn for the run at a rarity.
    pub open spec fn relic_candidates(&self, catalog: Seq<&'static BaseRelic>, rarity: Rarity, in_shop: bool) -> Seq<&'static BaseRelic> {
        catalog.filter(|r: &'static BaseRelic| self.relic_available(*r, rarity, in_shop))
    }

    /// Whether a relic can be drawn at each rarity that has a chance.
    pub open spec fn relics_drawable(&self, catalog: Seq<&'static BaseRelic>, chest: Option<ChestType>, rarity: Option<Rarity>, in_shop: bool) -> bool {
        forall|i: int| 0 <= i < 5 && relic_weight(chest, rarity, #[trigger] relic_rarities()[i]) > 0
            ==> self.relic_candidates(catalog, relic_rarities()[i], in_shop).len() > 0
    }

    /// Decides `deck_has_bottle_target`.
    fn has_bottle_target(&self, kind: u8) -> (res: bool)
        requires
            kind <= 2,
        ensures
            res == self.deck_has_bottle_target(kind as int),
    {
        let entries = deck_entries(&self.deck);
        let ghost m = deck_cards(self.deck);
        let mut i: usize = 0;
        while i < entries.len()
            invariant
                0 <= i <= entries@.len(),
                kind <= 2,
                m == deck_cards(self.deck),
                lists_entries(entries@, m),
                forall|t: int| 0 <= t < i ==> !({
                    let c = (#[trigger] entries@[t]).1.base;
                    if kind == 0 {
                        c._type == CardType::Attack && c.rarity != Rarity::Starter
                    } else if kind == 1 {
                        c._type == CardType::Skill && c.rarity != Rarity::Starter
                    } else {
                        c._type == CardType::Power
                    }
                }),
            decreases entries@.len() - i,
        {
            let c = entries[i].1.base;
            let hit = if kind == 0 {
                c._type == CardType::Attack && c.rarity != Rarity::Starter
            } else if kind == 1 {
                c._type == CardType::Skill && c.rarity != Rarity::Starter
            } else {
                c._type == CardType::Power
            };
            if hit {
                proof {
                    assert(m.contains_key(entries@[i as int].0));
                }
                return true;
            }
            i = i + 1;
        }
        proof {
            if self.deck_has_bottle_target(kind as int) {
                let k = choose|k: u128| #[trigger] m.contains_key(k) && {
                    let c = m[k].base;
                    if kind == 0 {
                        c._type == CardType::Attack && c.rarity != Rarity::Starter
                    } else if kind == 1 {
                        c._type == CardType::Skill && c.rarity != Rarity::Starter
                    } else {
                        c._type == CardType::Power
                    }
                };
                let t = choose|t: int| 0 <= t < entries@.len() && (#[trigger] entries@[t]).0 == k;
                assert(entries@[t].1 == m[k]);
            }
        }
        false
    }

    /// Decides `relic_available`.
    #[verifier::rlimit(30)]
    fn is_relic_available(&self, relic: &BaseRelic, rarity: Rarity, in_shop: bool) -> (res: bool)
        ensures
            res == self.relic_available(*relic, rarity, in_shop),
    {
        proof {
            reveal_strlit("Maw Bank");
            reveal_strlit("Smiling Mask");
            reveal_strlit("The Courier");
            reveal_strlit("Old Coin");
            reveal_strlit("Bottled Flame");
            reveal_strlit("Bottled Lightning");
            reveal_strlit("Bottled Tornado");
            reveal_strlit("Girya");
            reveal_strlit("Shovel");
            reveal_strlit("Peace Pipe");
            reveal_strlit("Black Blood");
            reveal_strlit("Frozen Core");
            reveal_strlit("Holy Water");
            reveal_strlit("Ring of the Snake");
        }
        let n = relic.name.as_str();
        if !(relic.rarity == rarity && (relic.class == self.class || relic.class == Class::All)
            && !self.relics.contains(n) && !name_set_contains(&self.relics.seen, n)
            && (relic.max_floor == 0 || #[verifier::truncate] (relic.max_floor as i8) >= self.map.floor)) {
            return false;
        }
        if str_eq(n, "Maw Bank") || str_eq(n, "Smiling Mask") || str_eq(n, "The Courier") || str_eq(n, "Old Coin") {
            !in_shop
        } else if str_eq(n, "Bottled Flame") {
            self.has_bottle_target(0)
        } else if str_eq(n, "Bottled Lightning") {
            self.has_bottle_target(1)
        } else if str_eq(n, "Bottled Tornado") {
            self.has_bottle_target(2)
        } else if str_eq(n, "Girya") {
            !self.relics.contains("Peace Pipe") || !self.relics.contains("Shovel")
        } else if str_eq(n, "Shovel") {
            !self.relics.contains("Peace Pipe") || !self.relics.contains("Girya")
        } else if str_eq(n, "Peace Pipe") {
            !self.relics.contains("Girya") || !self.relics.contains("Shovel")
        } else if str_eq(n, "Black Blood") {
            self.relics.contains("Burning Blood")
        } else if str_eq(n, "Frozen Core") {
            self.relics.contains("Cracked Core")
        } else if str_eq(n, "Holy Water") {
            self.relics.contains("Pure Water")
        } else if str_eq(n, "Ring of the Snake") {
            self.relics.contains("Ring of the Serpent")
        } else {
            true
        }
    }

    /// The relics of a catalog that may be drawn for the run at a rarity.
    fn relics_for(&self, catalog: &[&'static BaseRelic], rarity: Rarity, in_shop: bool) -> (res: Vec<&'static BaseRelic>)
        ensures
            res@ == self.relic_candidates(catalog@, rarity, in_shop),
    {
        let ghost pred = |r: &'static BaseRelic| self.relic_available(*r, rarity, in_shop);
        let mut res: Vec<&'static BaseRelic> = Vec::new();
        let mut i: usize = 0;
        while i < catalog.len()
            invariant
                0 <= i <= catalog@.len(),
                pred == (|r: &'static BaseRelic| self.relic_available(*r, rarity, in_shop)),
                res@ == catalog@.take(i as int).filter(pred),
            decreases catalog@.len() - i,
        {
            let r = catalog[i];
            let keep = self.is_relic_available(r, rarity, in_shop);
            if keep {
                res.push(r);
            }
            proof {
                assert(catalog@.take(i + 1).drop_last() =~= catalog@.take(i as int));
                assert(catalog@.take(i + 1).last() == catalog@[i as int]);
                reveal_with_fuel(Seq::<_>::filter, 1);
            }
            i = i + 1;
        }
        proof {
            assert(catalog@.take(catalog@.len() as int) =~= catalog@);
        }
        res
    }

    /// A relic drawn at random: a rarity by the chances of the chest or of the rarity
    /// asked for, then one of the relics available at that rarity, which is marked seen.
    pub fn random_relic(
        &mut self,
        chest_type: Option<ChestType>,
        rarity: Option<Rarity>,
        in_shop: bool,
        probability: &mut Probability,
        catalog: &[&'static BaseRelic],
    ) -> (res: &'static BaseRelic)
        requires
            relic_rarity_known(chest_type, rarity),
            old(self).relics_drawable(catalog@, chest_type, rarity, in_shop),
        ensures
            relic_weight(chest_type, rarity, res.rarity) > 0,
            old(self).relic_candidates(catalog@, res.rarity, in_shop).contains(res),
            name_set(final(self).relics.seen) == name_set(old(self).relics.seen).insert(res.name@),
            *final(self) == (GameState {
                relics: Relics { seen: final(self).relics.seen, ..old(self).relics },
                ..*old(self)
            }),
            final(probability).factors@ == old(probability).factors@.push(
                (relic_weight(chest_type, rarity, res.rarity) as u64, 100u64),
            ).push((1u64, old(self).relic_candidates(catalog@, res.rarity, in_shop).len() as u64)),
    {
        let probabilities: (u8, u8, u8, u8, u8) = match chest_type {
            None => match rarity {
                None => (50, 33, 17, 0, 0),
                Some(Rarity::Shop) => (0, 0, 0, 0, 100),
                Some(Rarity::Boss) => (0, 0, 0, 100, 0),
                Some(Rarity::Rare) => (0, 0, 100, 0, 0),
                Some(Rarity::Uncommon) => (0, 100, 0, 0, 0),
                _ => (100, 0, 0, 0, 0),
            },
            Some(ChestType::Small) => (75, 25, 0, 0, 0),
            Some(ChestType::Medium) => (35, 50, 15, 0, 0),
            Some(ChestType::Large) => (0, 75, 25, 0, 0),
            Some(ChestType::Boss) => (0, 0, 0, 100, 0),
        };
        let choices = vec![
            (Rarity::Common, probabilities.0),
            (Rarity::Uncommon, probabilities.1),
            (Rarity::Rare, probabilities.2),
            (Rarity::Boss, probabilities.3),
            (Rarity::Shop, probabilities.4),
        ];
        proof {
            reveal_with_fuel(crate::state::probability::weight_total, 6);
            assert(forall|i: int| 0 <= i < 5 ==> (#[trigger] choices@[i]).0 == relic_rarities()[i]
                && choices@[i].1 == relic_weight(chest_type, rarity, relic_rarities()[i]));
            assert(choices@.drop_last().drop_last().drop_last().drop_last().drop_last() =~= Seq::<(Rarity, u8)>::empty());
            assert(crate::state::probability::weight_total(choices@) == 100);
        }
        let drawn = *probability.choose_weighted(choices.as_slice()).unwrap();
        let ghost mid = probability.factors@;
        proof {
            let i = choose|i: int| 0 <= i < choices@.len() && choices@[i].1 > 0 && Some(&drawn) == Some(&choices@[i].0)
                && mid == old(probability).factors@.push((choices@[i].1 as u64, crate::state::probability::weight_total(choices@) as u64));
            assert(choices@[i].0 == relic_rarities()[i]);
            assert(self.relic_candidates(catalog@, relic_rarities()[i], in_shop).len() > 0);
        }
        let available = self.relics_for(catalog, drawn, in_shop);
        let relic = probability.choose_one(available).unwrap();
        proof {
            assert(self.relic_candidates(catalog@, drawn, in_shop).contains(relic));
            assert(relic.rarity == drawn) by {
                let j = choose|j: int| 0 <= j < self.relic_candidates(catalog@, drawn, in_shop).len()
                    && self.relic_candidates(catalog@, drawn, in_shop)[j] == relic;
                catalog@.lemma_filter_pred(|r: &'static BaseRelic| self.relic_available(*r, drawn, in_shop), j);
            }
        }
        name_set_insert(&mut self.relics.seen, relic.name.as_str());
        relic
    }
}


/// The weight of a rarity among the weights of rare, uncommon and common cards.
pub open spec fn weight_of(w: (int, int, int), r: Rarity) -> int {
    match r {
        Rarity::Rare => w.0,
        Rarity::Uncommon => w.1,
        Rarity::Common => w.2,
        _ => 0,
    }
}

/// Whether each card of a list is rare, uncommon or common, and an attack, skill or
/// power.
pub open spec fn offerable(cards: Seq<&'static BaseCard>) -> bool {
    forall|i: int| 0 <= i < cards.len() ==> {
        let c = #[trigger] cards[i];
        &&& (c.rarity == Rarity::Rare || c.rarity == Rarity::Uncommon || c.rarity == Rarity::Common)
        &&& (c._type == CardType::Attack || c._type == CardType::Skill || c._type == CardType::Power)
    }
}

/// Whether a list holds a card of a rarity.
pub open spec fn has_rarity(cards: Seq<&'static BaseCard>, r: Rarity) -> bool {
    exists|i: int| 0 <= i < cards.len() && (#[trigger] cards[i]).rarity == r
}

/// The cards of a list of a rarity.
pub open spec fn of_rarity(cards: Seq<&'static BaseCard>, r: Rarity) -> Seq<&'static BaseCard> {
    cards.filter(|c: &'static BaseCard| c.rarity == r)
}

/// The rare-card offset after an offer of a rarity: back to zero after a rare where
/// offers reset it, one higher (at most 40) after a common.
pub open spec fn next_offset(offset: u8, r: Rarity, reset: bool) -> u8 {
    match r {
        Rarity::Rare => if reset { 0 } else { offset },
        Rarity::Common => if offset + 1 <= 40 { (offset + 1) as u8 } else { 40 },
        _ => offset,
    }
}

impl GameState {
    /// The weights of rare, uncommon and common cards offered after a fight of a kind,
    /// shifted by the rare-card offset and by N'loth's Gift.
    pub open spec fn offer_table(&self, fight_type: Option<FightType>) -> (int, int, int) {
        let off = self.rare_probability_offset as int;
        let nloth = self.relics.has("N'loth's Gift"@);
        match fight_type {
            Some(FightType::Common) => if nloth {
                (4 + off, 37, 59 - off)
            } else if off < 2 {
                (0, 35 + off, 65 - off)
            } else {
                (off - 2, 37, 65 - off)
            },
            Some(FightType::Elite { .. }) => if nloth {
                if off < 31 {
                    (25 + off, 40, 35 - off)
                } else {
                    (25 + off, 75 - off, 0)
                }
            } else {
                (5 + off, 40, 55 - off)
            },
            Some(FightType::Boss) => (100, 0, 0),
            None => (4 + off, 37, 59 - off),
        }
    }

    /// The weights of rare, uncommon and common cards among the given cards: those of
    /// the table, zero for a rarity that none of the cards has.
    pub open spec fn offer_weights(&self, fight_type: Option<FightType>, cards: Seq<&'static BaseCard>) -> (int, int, int) {
        let t = self.offer_table(fight_type);
        (
            if has_rarity(cards, Rarity::Rare) { t.0 } else { 0 },
            if has_rarity(cards, Rarity::Uncommon) { t.1 } else { 0 },
            if has_rarity(cards, Rarity::Common) { t.2 } else { 0 },
        )
    }

    /// The chance out of eight that an offered card comes upgraded: none in the first
    /// act, two in the second and four after, halved from ascension 12.
    pub open spec fn upgrade_chance(&self) -> int {
        let base: int = if self.act == 1 { 0 } else if self.act == 2 { 2 } else { 4 };
        if self.asc < 12 { base } else { base / 2 }
    }

    /// Whether a card can be offered out of a list: the offset keeps the table's weights
    /// whole, the cards are offerable and some rarity among them has weight, and the act
    /// is known where a card may not come upgraded by an egg.
    pub open spec fn offer_possible(&self, fight_type: Option<FightType>, cards: Seq<&'static BaseCard>) -> bool {
        let w = self.offer_weights(fight_type, cards);
        &&& self.rare_probability_offset <= 55
        &&& offerable(cards)
        &&& w.0 + w.1 + w.2 > 0
        &&& (1 <= self.act <= 4 || forall|i: int| 0 <= i < cards.len() ==> self.egg_upgrades((#[trigger] cards[i])._type))
    }

    /// Whether `offer` and the factors `fa` are a possible outcome of offering a card out
    /// of a list, from factors `fb`: a rarity drawn by weight, a card of it drawn evenly,
    /// and, unless an egg upgrades it, whether it comes upgraded drawn by the chance, an
    /// outcome of weight zero never coming out.
    pub open spec fn offer_drawn(
        &self,
        fight_type: Option<FightType>,
        cards: Seq<&'static BaseCard>,
        offer: CardOffer,
        fb: Seq<(u64, u64)>,
        fa: Seq<(u64, u64)>,
    ) -> bool {
        let w = self.offer_weights(fight_type, cards);
        let wr = weight_of(w, offer.base.rarity);
        let drawn = fb.push((wr as u64, (w.0 + w.1 + w.2) as u64)).push(
            (1u64, of_rarity(cards, offer.base.rarity).len() as u64),
        );
        &&& wr > 0
        &&& cards.contains(offer.base)
        &&& if self.egg_upgrades(offer.base._type) {
            offer.upgraded && fa == drawn
        } else {
            let ch = self.upgrade_chance();
            let wu = if offer.upgraded { ch } else { 8 - ch };
            &&& wu > 0
            &&& fa == drawn.push((wu as u64, 8u64))
        }
    }

    /// The cards of a list of a rarity.
    fn cards_of_rarity(cards: &[&'static BaseCard], r: Rarity) -> (res: Vec<&'static BaseCard>)
        ensures
            res@ == of_rarity(cards@, r),
    {
        let ghost pred = |c: &'static BaseCard| c.rarity == r;
        let mut res: Vec<&'static BaseCard> = Vec::new();
        let mut i: usize = 0;
        while i < cards.len()
            invariant
                0 <= i <= cards@.len(),
                pred == (|c: &'static BaseCard| c.rarity == r),
                res@ == cards@.take(i as int).filter(pred),
            decreases cards@.len() - i,
        {
            if cards[i].rarity == r {
                res.push(cards[i]);
            }
            proof {
                assert(cards@.take(i + 1).drop_last() =~= cards@.take(i as int));
                assert(cards@.take(i + 1).last() == cards@[i as int]);
                reveal_with_fuel(Seq::<_>::filter, 1);
            }
            i = i + 1;
        }
        proof {
            assert(cards@.take(cards@.len() as int) =~= cards@);
        }
        res
    }

    /// A card offered out of the given cards: a rarity drawn by the weights of the fight,
    /// then a card of that rarity, which comes upgraded by an egg or by chance.
    #[verifier::spinoff_prover]
    #[verifier::rlimit(60)]
    pub fn generate_card_offer(
        &self,
        fight_type: Option<FightType>,
        available: &[&'static BaseCard],
        probability: &mut Probability,
    ) -> (res: CardOffer)
        requires
            self.offer_possible(fight_type, available@),
        ensures
            self.offer_drawn(fight_type, available@, res, old(probability).factors@, final(probability).factors@),
    {
        let has_nloth = self.relics.contains("N'loth's Gift");
        let off = self.rare_probability_offset;
        let (mut rare, mut uncommon, mut common): (u8, u8, u8) = match fight_type {
            Some(FightType::Common) => {
                if has_nloth {
                    (4 + off, 37, 59 - off)
                } else if off < 2 {
                    (0, 35 + off, 65 - off)
                } else {
                    (off - 2, 37, 65 - off)
                }
            },
            Some(FightType::Elite { .. }) => {
                if has_nloth {
                    if off < 31 {
                        (25 + off, 40, 35 - off)
                    } else {
                        (25 + off, 75 - off, 0)
                    }
                } else {
                    (5 + off, 40, 55 - off)
                }
            },
            Some(FightType::Boss) => (100, 0, 0),
            None => (4 + off, 37, 59 - off),
        };
        let (mut has_rare, mut has_uncommon, mut has_common) = (false, false, false);
        let mut i: usize = 0;
        while i < available.len()
            invariant
                0 <= i <= available@.len(),
                offerable(available@),
                has_rare == exists|t: int| 0 <= t < i && (#[trigger] available@[t]).rarity == Rarity::Rare,
                has_uncommon == exists|t: int| 0 <= t < i && (#[trigger] available@[t]).rarity == Rarity::Uncommon,
                has_common == exists|t: int| 0 <= t < i && (#[trigger] available@[t]).rarity == Rarity::Common,
            decreases available@.len() - i,
        {
            match available[i].rarity {
                Rarity::Rare => has_rare = true,
                Rarity::Uncommon => has_uncommon = true,
                _ => has_common = true,
            }
            i = i + 1;
        }
        if !has_rare {
            rare = 0;
        }
        if !has_uncommon {
            uncommon = 0;
        }
        if !has_common {
            common = 0;
        }
        let ghost w = self.offer_weights(fight_type, available@);
        proof {
            assert(rare == w.0 && uncommon == w.1 && common == w.2);
        }
        let choices = vec![(Rarity::Rare, rare), (Rarity::Uncommon, uncommon), (Rarity::Common, common)];
        proof {
            reveal_with_fuel(crate::state::probability::weight_total, 4);
            assert(choices@.drop_last().drop_last().drop_last() =~= Seq::<(Rarity, u8)>::empty());
            assert(crate::state::probability::weight_total(choices@) == w.0 + w.1 + w.2);
        }
        let rarity = *probability.choose_weighted(choices.as_slice()).unwrap();
        proof {
            let k = choose|k: int| 0 <= k < choices@.len() && choices@[k].1 > 0 && Some(&rarity) == Some(&choices@[k].0)
                && probability.factors@ == old(probability).factors@.push((choices@[k].1 as u64, crate::state::probability::weight_total(choices@) as u64));
            assert(choices@[k].1 == weight_of(w, rarity));
            assert(has_rarity(available@, rarity));
            let t = choose|t: int| 0 <= t < available@.len() && (#[trigger] available@[t]).rarity == rarity;
            available@.lemma_filter_contains(|c: &'static BaseCard| c.rarity == rarity, t);
        }
        let candidates = Self::cards_of_rarity(available, rarity);
        let card = probability.choose_one(candidates).unwrap();
        proof {
            let j = choose|j: int| 0 <= j < of_rarity(available@, rarity).len() && of_rarity(available@, rarity)[j] == card;
            available@.lemma_filter_pred(|c: &'static BaseCard| c.rarity == rarity, j);
            available@.lemma_filter_contains_rev(|c: &'static BaseCard| c.rarity == rarity, card);
            assert(available@.contains(card));
        }
        let is_default_upgraded = match card._type {
            CardType::Attack => self.relics.contains("Molten Egg"),
            CardType::Skill => self.relics.contains("Toxic Egg"),
            _ => self.relics.contains("Frozen Egg"),
        };
        let is_upgraded = if is_default_upgraded {
            true
        } else {
            proof {
                if !(1 <= self.act <= 4) {
                    let j = choose|j: int| 0 <= j < available@.len() && available@[j] == card;
                    assert(self.egg_upgrades(available@[j]._type));
                }
            }
            let base: u8 = if self.act == 1 {
                0
            } else if self.act == 2 {
                2
            } else {
                4
            };
            let chance: u8 = if self.asc < 12 {
                base
            } else {
                base / 2
            };
            let rest: u8 = 8 - chance;
            let odds = vec![(true, chance), (false, rest)];
            proof {
                reveal_with_fuel(crate::state::probability::weight_total, 3);
                assert(odds@.drop_last().drop_last() =~= Seq::<(bool, u8)>::empty());
                assert(crate::state::probability::weight_total(odds@) == 8);
            }
            let upgraded = *probability.choose_weighted(odds.as_slice()).unwrap();
            proof {
                let k = choose|k: int| 0 <= k < odds@.len() && odds@[k].1 > 0 && Some(&upgraded) == Some(&odds@[k].0);
                assert(k == 0 || k == 1);
            }
            upgraded
        };
        CardOffer { base: card, upgraded: is_upgraded }
    }
}


/// Whether no two cards of a list share a name.
pub open spec fn names_unique(cards: Seq<&'static BaseCard>) -> bool {
    forall|i: int, j: int| 0 <= i < j < cards.len() ==> (#[trigger] cards[i]).name@ != (#[trigger] cards[j]).name@
}

/// The position of the card of a name in a list.
pub open spec fn position_of_name(cards: Seq<&'static BaseCard>, name: Seq<char>) -> int {
    choose|i: int| 0 <= i < cards.len() && cards[i].name@ == name
}

/// Removing an item from a list takes at most that item from those that pass a test.
proof fn lemma_filter_remove_len<A>(s: Seq<A>, p: spec_fn(A) -> bool, j: int)
    requires
        0 <= j < s.len(),
    ensures
        s.remove(j).filter(p).len() + (if p(s[j]) { 1int } else { 0int }) == s.filter(p).len(),
{
    let a = s.subrange(0, j);
    let b = s.subrange(j + 1, s.len() as int);
    assert(s =~= a + seq![s[j]] + b);
    assert(s.remove(j) =~= a + b);
    Seq::filter_distributes_over_add(a, b, p);
    Seq::filter_distributes_over_add(a + seq![s[j]], b, p);
    Seq::filter_distributes_over_add(a, seq![s[j]], p);
    reveal_with_fuel(Seq::<_>::filter, 2);
    assert(seq![s[j]].drop_last() =~= Seq::<A>::empty());
}

/// Whether step `i` of offering cards went as `generate_card_offer` allows: offer `i` was
/// drawn from the cards left with the offset at the time, then taken out of the cards,
/// and the offset moved on by its rarity.
pub open spec fn offer_step(
    state: GameState,
    fight_type: Option<FightType>,
    reset: bool,
    offers: Seq<CardOffer>,
    fs: Seq<Seq<(u64, u64)>>,
    avs: Seq<Seq<&'static BaseCard>>,
    offs: Seq<u8>,
    i: int,
) -> bool {
    &&& (GameState { rare_probability_offset: offs[i], ..state }).offer_drawn(fight_type, avs[i], offers[i], fs[i], fs[i + 1])
    &&& avs[i + 1] == avs[i].remove(position_of_name(avs[i], offers[i].base.name@))
    &&& offs[i + 1] == next_offset(offs[i], offers[i].base.rarity, reset)
}

/// Whether there are enough cards to offer `count` of them after a fight of a kind:
/// that many rares after a boss, else that many uncommons.
pub open spec fn enough_to_offer(fight_type: Option<FightType>, cards: Seq<&'static BaseCard>, count: int) -> bool {
    if fight_type == Some(FightType::Boss) {
        of_rarity(cards, Rarity::Rare).len() >= count
    } else {
        of_rarity(cards, Rarity::Uncommon).len() >= count
    }
}

impl GameState {
    /// The position of the card of a name in a list whose names are unique.
    fn position_by_name(cards: &Vec<&'static BaseCard>, name: &str) -> (res: usize)
        requires
            names_unique(cards@),
            exists|i: int| 0 <= i < cards@.len() && (#[trigger] cards@[i]).name@ == name@,
        ensures
            res == position_of_name(cards@, name@),
            res < cards@.len(),
    {
        let mut i: usize = 0;
        while i < cards.len()
            invariant
                0 <= i <= cards@.len(),
                names_unique(cards@),
                exists|k: int| 0 <= k < cards@.len() && (#[trigger] cards@[k]).name@ == name@,
                forall|t: int| 0 <= t < i ==> (#[trigger] cards@[t]).name@ != name@,
            decreases cards@.len() - i,
        {
            if str_eq(cards[i].name.as_str(), name) {
                proof {
                    let p = position_of_name(cards@, name@);
                    if p != i {
                        if p < i {
                            assert(cards@[p].name@ != name@);
                        } else {
                            assert(cards@[i as int].name@ != cards@[p].name@);
                        }
                    }
                }
                return i;
            }
            i = i + 1;
        }
        proof {
            let k = choose|k: int| 0 <= k < cards@.len() && (#[trigger] cards@[k]).name@ == name@;
            assert(cards@[k].name@ != name@);
        }
        0
    }

    /// `count` cards offered out of the given cards, each taken out of those left once
    /// offered; a rare offer resets the rare-card offset where asked, a common one raises
    /// it by one, up to 40.
    fn generate_card_offers(
        &mut self,
        fight_type: Option<FightType>,
        available: &[&'static BaseCard],
        count: usize,
        reset_rarity: bool,
        probability: &mut Probability,
    ) -> (res: Vec<CardOffer>)
        requires
            old(self).rare_probability_offset <= 55,
            offerable(available@),
            names_unique(available@),
            enough_to_offer(fight_type, available@, count as int),
            1 <= old(self).act <= 4 || forall|i: int| 0 <= i < available@.len() ==> old(self).egg_upgrades((#[trigger] available@[i])._type),
        ensures
            res@.len() == count,
            *final(self) == (GameState { rare_probability_offset: final(self).rare_probability_offset, ..*old(self) }),
            exists|fs: Seq<Seq<(u64, u64)>>, avs: Seq<Seq<&'static BaseCard>>, offs: Seq<u8>| {
                &&& fs.len() == count + 1 && avs.len() == count + 1 && offs.len() == count + 1
                &&& fs[0] == old(probability).factors@ && fs[count as int] == final(probability).factors@
                &&& avs[0] == available@
                &&& offs[0] == old(self).rare_probability_offset && offs[count as int] == final(self).rare_probability_offset
                &&& forall|i: int| 0 <= i < count ==> #[trigger] offer_step(*old(self), fight_type, reset_rarity, res@, fs, avs, offs, i)
            },
    {
        let mut cards = vstd::slice::slice_to_vec(available);
        let mut res: Vec<CardOffer> = Vec::new();
        let ghost start = *self;
        let ghost mut fs: Seq<Seq<(u64, u64)>> = seq![probability.factors@];
        let ghost mut avs: Seq<Seq<&'static BaseCard>> = seq![available@];
        let ghost mut offs: Seq<u8> = seq![self.rare_probability_offset];
        let ghost key = if fight_type == Some(FightType::Boss) { Rarity::Rare } else { Rarity::Uncommon };
        let mut i: usize = 0;
        while i < count
            invariant
                0 <= i <= count,
                start == *old(self),
                *self == (GameState { rare_probability_offset: self.rare_probability_offset, ..start }),
                self.rare_probability_offset <= 55,
                res@.len() == i,
                fs.len() == i + 1 && avs.len() == i + 1 && offs.len() == i + 1,
                fs[0] == old(probability).factors@ && fs[i as int] == probability.factors@,
                avs[0] == available@ && avs[i as int] == cards@,
                offs[0] == start.rare_probability_offset && offs[i as int] == self.rare_probability_offset,
                forall|t: int| 0 <= t < i ==> #[trigger] offer_step(start, fight_type, reset_rarity, res@, fs, avs, offs, t),
                offerable(cards@),
                names_unique(cards@),
                key == (if fight_type == Some(FightType::Boss) { Rarity::Rare } else { Rarity::Uncommon }),
                of_rarity(cards@, key).len() >= count - i,
                1 <= start.act <= 4 || forall|t: int| 0 <= t < cards@.len() ==> start.egg_upgrades((#[trigger] cards@[t])._type),
                forall|t: int| 0 <= t < cards@.len() ==> available@.contains(#[trigger] cards@[t]),
            decreases count - i,
        {
            let ghost res0 = res@;
            let ghost fs0 = fs;
            let ghost avs0 = avs;
            let ghost offs0 = offs;
            proof {
                let w = self.offer_weights(fight_type, cards@);
                assert(of_rarity(cards@, key).len() > 0);
                let c = of_rarity(cards@, key)[0];
                cards@.lemma_filter_pred(|c: &'static BaseCard| c.rarity == key, 0);
                cards@.lemma_filter_contains_rev(|c: &'static BaseCard| c.rarity == key, c);
                let t = choose|t: int| 0 <= t < cards@.len() && cards@[t] == c;
                assert(has_rarity(cards@, key));
                assert(w.0 + w.1 + w.2 > 0);
            }
            let ghost before_factors = probability.factors@;
            let offer = self.generate_card_offer(fight_type, cards.as_slice(), probability);
            proof {
                let t = choose|t: int| 0 <= t < cards@.len() && cards@[t] == offer.base;
                assert(cards@[t].name@ == offer.base.name@);
            }
            let index = Self::position_by_name(&cards, offer.base.name.as_str());
            proof {
                let t = choose|t: int| 0 <= t < cards@.len() && cards@[t] == offer.base;
                if t != index {
                    if t < index {
                        assert(cards@[t].name@ != cards@[index as int].name@);
                    } else {
                        assert(cards@[index as int].name@ != cards@[t].name@);
                    }
                }
                assert(cards@[index as int] == offer.base);
                lemma_filter_remove_len(cards@, |c: &'static BaseCard| c.rarity == key, index as int);
            }
            let ghost before_cards = cards@;
            cards.remove(index);
            let new_offset: u8 = match offer.base.rarity {
                Rarity::Rare => if reset_rarity { 0 } else { self.rare_probability_offset },
                Rarity::Common => if self.rare_probability_offset + 1 <= 40 { self.rare_probability_offset + 1 } else { 40 },
                _ => self.rare_probability_offset,
            };
            self.rare_probability_offset = new_offset;
            res.push(offer);
            proof {
                fs = fs.push(probability.factors@);
                avs = avs.push(cards@);
                offs = offs.push(new_offset);
                assert(offer_step(start, fight_type, reset_rarity, res@, fs, avs, offs, i as int));
                assert forall|t: int| 0 <= t < i + 1 implies #[trigger] offer_step(start, fight_type, reset_rarity, res@, fs, avs, offs, t) by {
                    if t < i {
                        assert(offer_step(start, fight_type, reset_rarity, res0, fs0, avs0, offs0, t));
                        assert(res0[t] == res@[t]);
                        assert(fs0[t] == fs[t] && fs0[t + 1] == fs[t + 1]);
                        assert(avs0[t] == avs[t] && avs0[t + 1] == avs[t + 1]);
                        assert(offs0[t] == offs[t] && offs0[t + 1] == offs[t + 1]);
                    }
                }
                assert forall|a: int, b: int| 0 <= a < b < cards@.len() implies (#[trigger] cards@[a]).name@ != (#[trigger] cards@[b]).name@ by {
                    let a2 = if a < index { a } else { a + 1 };
                    let b2 = if b < index { b } else { b + 1 };
                    assert(cards@[a] == before_cards[a2] && cards@[b] == before_cards[b2]);
                }
                assert forall|t: int| 0 <= t < cards@.len() implies available@.contains(#[trigger] cards@[t]) by {
                    let t2 = if t < index { t } else { t + 1 };
                    assert(cards@[t] == before_cards[t2]);
                }
                assert(offerable(cards@)) by {
                    assert forall|t: int| 0 <= t < cards@.len() implies {
                        let c = #[trigger] cards@[t];
                        &&& (c.rarity == Rarity::Rare || c.rarity == Rarity::Uncommon || c.rarity == Rarity::Common)
                        &&& (c._type == CardType::Attack || c._type == CardType::Skill || c._type == CardType::Power)
                    } by {
                        let t2 = if t < index { t } else { t + 1 };
                        assert(cards@[t] == before_cards[t2]);
                    }
                }
                if !(1 <= start.act <= 4) {
                    assert forall|t: int| 0 <= t < cards@.len() implies start.egg_upgrades((#[trigger] cards@[t])._type) by {
                        let t2 = if t < index { t } else { t + 1 };
                        assert(cards@[t] == before_cards[t2]);
                    }
                }
            }
            i = i + 1;
        }
        res
    }

    /// The class whose cards are offered: colorless where asked, every class with the
    /// Prismatic Shard after a fight, else the run's class.
    pub open spec fn reward_class(&self, fight_type: Option<FightType>, colorless: bool) -> Class {
        if colorless {
            Class::Colorless
        } else if fight_type is Some && self.relics.has("Prismatic Shard"@) {
            Class::All
        } else {
            self.class
        }
    }

    /// The cards offered after a fight: colorless cards where asked, cards of every class
    /// with the Prismatic Shard after a fight, else cards of the run's class; two of them,
    /// one fewer with the Busted Crown and one more with the Question Card.
    pub fn generate_card_rewards(
        &mut self,
        fight_type: Option<FightType>,
        colorless: bool,
        probability: &mut Probability,
        catalog: &[&'static BaseCard],
    ) -> (res: im::Vector<CardOffer>)
        requires
            old(self).rare_probability_offset <= 55,
            ({
                let pool = class_pool(catalog@, old(self).reward_class(fight_type, colorless));
                &&& offerable(pool)
                &&& names_unique(pool)
                &&& enough_to_offer(fight_type, pool, 3)
                &&& (1 <= old(self).act <= 4 || forall|i: int| 0 <= i < pool.len() ==> old(self).egg_upgrades((#[trigger] pool[i])._type))
            }),
        ensures
            offer_items(res).len() == (if old(self).relics.has("Busted Crown"@) { 1int } else { 2 })
                + (if old(self).relics.has("Question Card"@) { 1int } else { 0 }),
            forall|i: int| 0 <= i < offer_items(res).len() ==> catalog@.contains((#[trigger] offer_items(res)[i]).base),
            *final(self) == (GameState { rare_probability_offset: final(self).rare_probability_offset, ..*old(self) }),
    {
        let class = if colorless {
            Class::Colorless
        } else if fight_type.is_some() && self.relics.contains("Prismatic Shard") {
            Class::All
        } else {
            self.class
        };
        let cards = available_cards_by_class(catalog, class);
        let count: usize = (if self.relics.contains("Busted Crown") { 1 } else { 2 }) + (if self.relics.contains("Question Card") { 1 } else { 0 });
        proof {
            if !(1 <= self.act <= 4) {
                assert(*self == *old(self));
                assert(class == old(self).reward_class(fight_type, colorless));
                let pool = class_pool(catalog@, old(self).reward_class(fight_type, colorless));
                assert(pool == cards@);
                assert forall|i: int| 0 <= i < cards@.len() implies self.egg_upgrades((#[trigger] cards@[i])._type) by {
                    assert(cards@[i] == pool[i]);
                }
            }
        }
        let offers = self.generate_card_offers(fight_type, cards.as_slice(), count, true, probability);
        proof {
            let (fs, avs, offs) = choose|fs: Seq<Seq<(u64, u64)>>, avs: Seq<Seq<&'static BaseCard>>, offs: Seq<u8>| {
                &&& fs.len() == count + 1 && avs.len() == count + 1 && offs.len() == count + 1
                &&& fs[0] == old(probability).factors@ && fs[count as int] == probability.factors@
                &&& avs[0] == cards@
                &&& offs[0] == old(self).rare_probability_offset && offs[count as int] == self.rare_probability_offset
                &&& forall|i: int| 0 <= i < count ==> #[trigger] offer_step(*old(self), fight_type, true, offers@, fs, avs, offs, i)
            };
            assert forall|i: int| 0 <= i < offers@.len() implies catalog@.contains((#[trigger] offers@[i]).base) by {
                assert(offer_step(*old(self), fight_type, true, offers@, fs, avs, offs, i));
                lemma_offered_from(*old(self), fight_type, true, offers@, fs, avs, offs, i, cards@);
                catalog@.lemma_filter_contains_rev(|c: &'static BaseCard| available_for_class(*c, class), offers@[i].base);
            }
        }
        offers_from(offers)
    }
}

/// Each offer was drawn out of the cards it started from.
proof fn lemma_offered_from(
    state: GameState,
    fight_type: Option<FightType>,
    reset: bool,
    offers: Seq<CardOffer>,
    fs: Seq<Seq<(u64, u64)>>,
    avs: Seq<Seq<&'static BaseCard>>,
    offs: Seq<u8>,
    i: int,
    start: Seq<&'static BaseCard>,
)
    requires
        0 <= i,
        i + 1 < avs.len(),
        avs[0] == start,
        forall|t: int| 0 <= t <= i ==> #[trigger] offer_step(state, fight_type, reset, offers, fs, avs, offs, t),
    ensures
        start.contains(offers[i].base),
        forall|t: int| 0 <= t < avs[i].len() ==> start.contains(#[trigger] avs[i][t]),
    decreases i,
{
    if i > 0 {
        lemma_offered_from(state, fight_type, reset, offers, fs, avs, offs, i - 1, start);
        assert(offer_step(state, fight_type, reset, offers, fs, avs, offs, i - 1));
        let prev = avs[i - 1];
        let j = position_of_name(prev, offers[i - 1].base.name@);
        assert forall|t: int| 0 <= t < avs[i].len() implies start.contains(#[trigger] avs[i][t]) by {
            let t2 = if t < j { t } else { t + 1 };
            assert(avs[i][t] == prev[t2]);
        }
    }
    assert(offer_step(state, fight_type, reset, offers, fs, avs, offs, i));
    let k = choose|k: int| 0 <= k < avs[i].len() && avs[i][k] == offers[i].base;
}


/// A percentage (per `d`) of the maximum hit points, rounded down: nothing for an amount
/// that is not positive, and at most the largest `u16`.
pub open spec fn percent_of(max: u16, value: int, d: int) -> int {
    if value <= 0 {
        0
    } else {
        let t = max * value / d;
        if t > u16::MAX { u16::MAX as int } else { t }
    }
}

/// Computes `percent_of`.
fn percent(max: u16, value: i16, d: u64) -> (res: u16)
    requires
        d > 0,
    ensures
        res == percent_of(max, value as int, d as int),
{
    if value <= 0 {
        return 0;
    }
    assert(max as u64 * value as u64 <= 65535 * 32767) by (nonlinear_arith)
        requires
            max <= 65535,
            0 < value <= 32767,
    ;
    let product: u64 = max as u64 * value as u64;
    let t: u64 = product / d;
    if t > 65535 {
        65535
    } else {
        t as u16
    }
}

/// Whether `fa` follows `fb` by the draws of a potion: its rarity by weight, then the
/// potion among the candidates of that rarity.
pub open spec fn potion_drawn(catalog: Seq<&'static BasePotion>, no_healing: bool, p: &'static BasePotion, fb: Seq<(u64, u64)>, fa: Seq<(u64, u64)>) -> bool {
    &&& p.rarity == Rarity::Common || p.rarity == Rarity::Uncommon || p.rarity == Rarity::Rare
    &&& potion_candidates(catalog, p.rarity, no_healing).contains(p)
    &&& fa == fb.push((potion_weight(p.rarity), 100u64)).push((1u64, potion_candidates(catalog, p.rarity, no_healing).len() as u64))
}

/// The number of empty slots among the first `i`.
pub open spec fn empty_before(slots: Seq<Option<&'static BasePotion>>, i: int) -> int
    decreases i,
{
    if i <= 0 {
        0
    } else {
        empty_before(slots, i - 1) + (if slots[i - 1] is None { 1int } else { 0 })
    }
}

impl GameState {
    /// Whether `after` is this run with a potion put in the first empty slot, where there
    /// is one.
    pub open spec fn potion_added(&self, after: GameState, p: &'static BasePotion) -> bool {
        &&& slot_items(self.potions).contains(None) ==> slot_items(after.potions) == slot_items(self.potions).update(
            first_empty(slot_items(self.potions)),
            Some(p),
        )
        &&& !slot_items(self.potions).contains(None) ==> after.potions == self.potions
        &&& after == (GameState { potions: after.potions, ..*self })
    }

    /// Whether `after` and the factors `fa` are a possible outcome of drawing a relic.
    pub open spec fn relic_drawn(
        &self,
        after: GameState,
        chest: Option<ChestType>,
        rarity: Option<Rarity>,
        in_shop: bool,
        catalog: Seq<&'static BaseRelic>,
        res: &'static BaseRelic,
        fb: Seq<(u64, u64)>,
        fa: Seq<(u64, u64)>,
    ) -> bool {
        &&& relic_weight(chest, rarity, res.rarity) > 0
        &&& self.relic_candidates(catalog, res.rarity, in_shop).contains(res)
        &&& name_set(after.relics.seen) == name_set(self.relics.seen).insert(res.name@)
        &&& after == (GameState { relics: Relics { seen: after.relics.seen, ..self.relics }, ..*self })
        &&& fa == fb.push((relic_weight(chest, rarity, res.rarity) as u64, 100u64)).push(
            (1u64, self.relic_candidates(catalog, res.rarity, in_shop).len() as u64),
        )
    }

    /// Whether `after` and the factors `fa` are a possible outcome of taking a relic.
    pub open spec fn relic_added(&self, after: GameState, base: &'static BaseRelic, fb: Seq<(u64, u64)>, fa: Seq<(u64, u64)>) -> bool {
        &&& exists|uuid: u128| relics_with(self.relics, after.relics, base, uuid)
        &&& (GameState { relics: after.relics, ..*self }).took_effect(after, base, fb, fa)
    }

    /// Whether a new card of a kind can be added to the deck without overflow.
    pub open spec fn card_kind_addable(&self, base: &'static BaseCard) -> bool {
        &&& base._type != CardType::All
        &&& base._type == CardType::Curse && self.relics.has("Darkstone Periapt"@)
            ==> self.hp.max + 6 <= u16::MAX && self.hp.amount + 6 <= u16::MAX
        &&& self.relics.has("Ceramic Fish"@) && !self.relics.has("Ectoplasm"@)
            ==> self.gold + 9 <= u16::MAX && self.hp.amount + 11 <= u16::MAX
    }

    /// Whether an effect can be applied to the run outside of battle.
    pub open spec fn effect_known(
        &self,
        effect: Effect,
        cards: Seq<&'static BaseCard>,
        potions: Seq<&'static BasePotion>,
        relic_catalog: Seq<&'static BaseRelic>,
    ) -> bool {
        match effect {
            Effect::AddPotionSlot(_) | Effect::AddRelic(_) => true,
            Effect::RemoveRelic(relic) => self.relics.has(relic.name@),
            Effect::RandomPotion => potions_drawable(potions, false),
            Effect::RandomRelic => {
                &&& self.relics_drawable(relic_catalog, None, None, false)
                &&& forall|i: int| 0 <= i < relic_catalog.len() && #[trigger] self.relic_available(*relic_catalog[i], relic_catalog[i].rarity, false)
                    ==> self.relic_takeable(relic_catalog[i])
            },
            Effect::ReduceMaxHpPercentage(a) => self.amount_fits(a)
                && percent_of(self.hp.max, self.amount_value(a), 100) <= self.hp.max,
            Effect::LoseHpPercentage(a) => self.amount_fits(a)
                && percent_of(self.hp.max, self.amount_value(a), 1000) <= self.hp.amount,
            Effect::DeckAdd(name) => {
                &&& has_card_named(cards, name@)
                &&& cards_makeable(cards)
                &&& forall|i: int| 0 <= i < cards.len() && (#[trigger] cards[i]).name@ == name@ ==> self.card_kind_addable(cards[i])
            },
            Effect::DeckOperation { random, count, operation } => {
                &&& random
                &&& operation == DeckOperation::Upgrade
                &&& self.deck_typed()
                &&& deck_upgrade_ready(deck_cards(self.deck))
                &&& picking_fits(deck_cards(self.deck).dom().len(), count as nat)
            },
            Effect::AddMaxHp(a) => {
                let amount = (self.amount_value(a) as i16) as u16;
                &&& self.amount_fits(a)
                &&& self.hp.max + amount <= u16::MAX
                &&& self.hp.amount + amount <= u16::MAX
            },
            _ => false,
        }
    }

    /// Whether `after` and the factors `fa` are a possible outcome of an effect.
    pub open spec fn effect_applied(
        &self,
        after: GameState,
        effect: Effect,
        cards: Seq<&'static BaseCard>,
        potions: Seq<&'static BasePotion>,
        relic_catalog: Seq<&'static BaseRelic>,
        fb: Seq<(u64, u64)>,
        fa: Seq<(u64, u64)>,
    ) -> bool {
        match effect {
            Effect::AddPotionSlot(n) => {
                &&& slot_items(after.potions) == slot_items(self.potions) + Seq::new(n as nat, |i: int| None::<&'static BasePotion>)
                &&& after == (GameState { potions: after.potions, ..*self })
                &&& fa == fb
            },
            Effect::AddRelic(relic) => {
                &&& exists|uuid: u128| relics_with(self.relics, after.relics, relic, uuid)
                &&& after == (GameState { relics: after.relics, ..*self })
                &&& fa == fb
            },
            Effect::RemoveRelic(relic) => {
                &&& relics_without(self.relics, after.relics, relic.name@)
                &&& after == (GameState { relics: after.relics, ..*self })
                &&& fa == fb
            },
            Effect::RandomPotion => exists|p: &'static BasePotion| potion_drawn(potions, false, p, fb, fa) && self.potion_added(after, p),
            Effect::RandomRelic => exists|r: &'static BaseRelic, mid: GameState, fm: Seq<(u64, u64)>| {
                &&& self.relic_drawn(mid, None, None, false, relic_catalog, r, fb, fm)
                &&& mid.relic_added(after, r, fm, fa)
            },
            Effect::ReduceMaxHpPercentage(a) => {
                let total = percent_of(self.hp.max, self.amount_value(a), 100);
                let max = self.hp.max - total;
                &&& after == (GameState {
                    hp: HpRange { max: max as u16, amount: if self.hp.amount <= max { self.hp.amount } else { max as u16 } },
                    ..*self
                })
                &&& fa == fb
            },
            Effect::LoseHpPercentage(a) => {
                let damage = percent_of(self.hp.max, self.amount_value(a), 1000);
                &&& after == (GameState { hp: HpRange { amount: (self.hp.amount - damage) as u16, ..self.hp }, ..*self })
                &&& fa == fb
            },
            Effect::DeckAdd(name) => {
                &&& exists|card: Card| {
                    &&& card.base.name@ == name@
                    &&& card.upgrades == 0
                    &&& card.cost == starting_cost(*card.base)
                    &&& !card.bottled
                    &&& self.card_added(after, card)
                }
                &&& fa == fb
            },
            Effect::DeckOperation { count, .. } => exists|candidates: Seq<DeckCard>, chosen: Seq<DeckCard>| {
                &&& lists_deck_cards(candidates, deck_cards(self.deck), |c: Card| c.upgradable_spec() && CardType::All.matches_spec(c.base._type))
                &&& chosen.len() == (if count <= candidates.len() { count as int } else { candidates.len() as int })
                &&& picks_distinct(chosen, candidates)
                &&& deck_upgraded(deck_cards(self.deck), deck_cards(after.deck), uuids_of(chosen))
                &&& after == (GameState { deck: after.deck, ..*self })
                &&& fa == fb.push((1u64, #[verifier::truncate] (binomial(candidates.len() as nat, chosen.len() as nat) as u64)))
            },
            Effect::AddMaxHp(a) => {
                let amount = (self.amount_value(a) as i16) as u16;
                &&& after == (GameState {
                    hp: HpRange { max: (self.hp.max + amount) as u16, amount: (self.hp.amount + amount) as u16 },
                    ..*self
                })
                &&& fa == fb
            },
            _ => false,
        }
    }

    /// Applies an effect to the run outside of battle: potion slots, relics gained, lost
    /// or drawn, a potion drawn, maximum hit points raised or cut by a percentage, hit
    /// points lost by a per-mille amount, a card added, or random upgrades.
    pub fn eval_effect(
        &mut self,
        effect: &Effect,
        probability: &mut Probability,
        cards: &[&'static BaseCard],
        potions: &[&'static BasePotion],
        relic_catalog: &[&'static BaseRelic],
    )
        requires
            old(self).effect_known(*effect, cards@, potions@, relic_catalog@),
        ensures
            old(self).effect_applied(*final(self), *effect, cards@, potions@, relic_catalog@, old(probability).factors@, final(probability).factors@),
    {
        match effect {
            Effect::AddPotionSlot(amount) => {
                let mut i: u8 = 0;
                while i < *amount
                    invariant
                        0 <= i <= *amount,
                        slot_items(self.potions) == slot_items(old(self).potions) + Seq::new(i as nat, |j: int| None::<&'static BasePotion>),
                        *self == (GameState { potions: self.potions, ..*old(self) }),
                    decreases *amount - i,
                {
                    slots_push(&mut self.potions, None);
                    proof {
                        assert(slot_items(self.potions) =~= slot_items(old(self).potions) + Seq::new((i + 1) as nat, |j: int| None::<&'static BasePotion>));
                    }
                    i = i + 1;
                }
            },
            Effect::AddRelic(relic) => {
                let added = self.relics.add(relic);
            },
            Effect::RemoveRelic(relic) => {
                self.relics.remove(relic.name.as_str());
            },
            Effect::RandomPotion => {
                let potion = random_potion(false, probability, potions);
                let added = self.add_potion(potion);
                proof {
                    assert(potion_drawn(potions@, false, potion, old(probability).factors@, probability.factors@));
                    assert(old(self).potion_added(*self, potion));
                }
            },
            Effect::RandomRelic => {
                let ghost fb = probability.factors@;
                let relic = self.random_relic(None, None, false, probability, relic_catalog);
                let ghost mid = *self;
                let ghost fm = probability.factors@;
                proof {
                    let j = choose|j: int| 0 <= j < old(self).relic_candidates(relic_catalog@, relic.rarity, false).len()
                        && old(self).relic_candidates(relic_catalog@, relic.rarity, false)[j] == relic;
                    relic_catalog@.lemma_filter_pred(|r: &'static BaseRelic| old(self).relic_available(*r, relic.rarity, false), j);
                    relic_catalog@.lemma_filter_contains_rev(|r: &'static BaseRelic| old(self).relic_available(*r, relic.rarity, false), relic);
                    let k = choose|k: int| 0 <= k < relic_catalog@.len() && relic_catalog@[k] == relic;
                    assert(old(self).relic_available(*relic_catalog@[k], relic_catalog@[k].rarity, false));
                    assert(old(self).relic_takeable(relic));
                }
                self.add_relic(relic, probability);
                proof {
                    assert(old(self).relic_drawn(mid, None, None, false, relic_catalog@, relic, fb, fm));
                    assert(mid.relic_added(*self, relic, fm, probability.factors@));
                }
            },
            Effect::ReduceMaxHpPercentage(amount) => {
                let percentage = self.eval_amount(amount);
                let total = percent(self.hp.max, percentage, 100);
                self.hp.reduce_max_hp(total);
            },
            Effect::LoseHpPercentage(amount) => {
                let percentage = self.eval_amount(amount);
                let damage = percent(self.hp.max, percentage, 1000);
                self.hp.amount = self.hp.amount - damage;
            },
            Effect::DeckAdd(name) => {
                let card = Card::by_name(cards, name.as_str());
                proof {
                    assert(cards@.contains(card.base));
                    let k = choose|k: int| 0 <= k < cards@.len() && cards@[k] == card.base;
                    assert(cards@[k].name@ == name@);
                    assert(old(self).card_kind_addable(cards@[k]));
                }
                self.add_card(card);
            },
            Effect::DeckOperation { count, .. } => {
                let (candidates, chosen) = self.upgrade_random(CardType::All, *count as usize, probability);
                proof {
                    assert(lists_deck_cards(candidates@, deck_cards(old(self).deck), |c: Card| c.upgradable_spec() && CardType::All.matches_spec(c.base._type)));
                }
            },
            Effect::AddMaxHp(amount) => {
                let value = self.eval_amount(amount);
                let amount: u16 = #[verifier::truncate] (value as u16);
                self.hp.max = self.hp.max + amount;
                self.hp.amount = self.hp.amount + amount;
            },
            _ => {},
        }
    }
}


/// A share of the maximum, rounded down, is the whole number `t` with `t * d` at most
/// `max * v` and `(t + 1) * d` above it, where that share fits the largest `u16`.
proof fn lemma_percent_floor(max: u16, v: int, d: int)
    requires
        v > 0,
        d > 0,
        max * v < d * 65536,
    ensures
        percent_of(max, v, d) * d <= max * v < (percent_of(max, v, d) + 1) * d,
{
    let x = max * v;
    vstd::arithmetic::div_mod::lemma_fundamental_div_mod(x, d);
    vstd::arithmetic::div_mod::lemma_mod_pos_bound(x, d);
    assert(0 <= x);
    vstd::arithmetic::div_mod::lemma_div_pos_is_pos(x, d);
    assert(x / d <= 65535) by {
        vstd::arithmetic::div_mod::lemma_div_by_multiple_is_strongly_ordered(x, d * 65536, 65536, d);
        if x / d > 65535 {
            vstd::arithmetic::mul::lemma_mul_inequality(65536, x / d, d);
            assert(d * (x / d) >= d * 65536) by (nonlinear_arith)
                requires x / d >= 65536, d > 0;
        }
    }
    assert((x / d) * d == d * (x / d)) by (nonlinear_arith);
    assert((x / d + 1) * d == d * (x / d) + d) by (nonlinear_arith);
}

/// An effect outside of battle that takes a share of the maximum hit points takes that
/// share rounded down, and nothing for a share that is not positive: a cut of `p` percent
/// leaves the maximum lowered by the `lost` with `lost * 100 <= max * p < (lost + 1) * 100`,
/// the hit points brought down to the new maximum where they were above it; a loss of
/// `p` per mille takes the `lost` hit points with `lost * 1000 <= max * p < (lost + 1) * 1000`,
/// the maximum unchanged. (The bound on `max * p` keeps the share within a `u16`.)
pub proof fn law_percentage_effects(
    g: GameState,
    after: GameState,
    effect: Effect,
    cards: Seq<&'static BaseCard>,
    potions: Seq<&'static BasePotion>,
    relic_catalog: Seq<&'static BaseRelic>,
    fb: Seq<(u64, u64)>,
    fa: Seq<(u64, u64)>,
)
    requires
        g.effect_known(effect, cards, potions, relic_catalog),
        g.effect_applied(after, effect, cards, potions, relic_catalog, fb, fa),
    ensures
        effect matches Effect::ReduceMaxHpPercentage(a) ==> {
            let p = g.amount_value(a);
            let lost = g.hp.max - after.hp.max;
            &&& 0 <= lost <= g.hp.max
            &&& p <= 0 ==> lost == 0
            &&& p > 0 && g.hp.max * p < 100 * 65536 ==> lost * 100 <= g.hp.max * p < (lost + 1) * 100
            &&& after.hp.amount == (if g.hp.amount <= after.hp.max { g.hp.amount } else { after.hp.max })
            &&& after == (GameState { hp: after.hp, ..g })
            &&& fa == fb
        },
        effect matches Effect::LoseHpPercentage(a) ==> {
            let p = g.amount_value(a);
            let lost = g.hp.amount - after.hp.amount;
            &&& 0 <= lost <= g.hp.amount
            &&& after.hp.max == g.hp.max
            &&& p <= 0 ==> lost == 0
            &&& p > 0 && g.hp.max * p < 1000 * 65536 ==> lost * 1000 <= g.hp.max * p < (lost + 1) * 1000
            &&& after == (GameState { hp: after.hp, ..g })
            &&& fa == fb
        },
{
    match effect {
        Effect::ReduceMaxHpPercentage(a) => {
            let p = g.amount_value(a);
            if p > 0 && g.hp.max * p < 100 * 65536 {
                lemma_percent_floor(g.hp.max, p, 100);
            }
        },
        Effect::LoseHpPercentage(a) => {
            let p = g.amount_value(a);
            if p > 0 && g.hp.max * p < 1000 * 65536 {
                lemma_percent_floor(g.hp.max, p, 1000);
            }
        },
        _ => {},
    }
}

/// Whether step `k` of filling empty slots with potions went as `random_potion` allows.
pub open spec fn brew_step(catalog: Seq<&'static BasePotion>, drawn: Seq<&'static BasePotion>, fs: Seq<Seq<(u64, u64)>>, k: int) -> bool {
    potion_drawn(catalog, true, drawn[k], fs[k], fs[k + 1])
}

/// Whether the slots `after` are the slots `before` with each empty one filled, in order,
/// by a drawn potion, and `fs` the factors of the probability from `fb` through `fa`
/// along the draws.
pub open spec fn brewed(
    catalog: Seq<&'static BasePotion>,
    before: Seq<Option<&'static BasePotion>>,
    after: Seq<Option<&'static BasePotion>>,
    drawn: Seq<&'static BasePotion>,
    fs: Seq<Seq<(u64, u64)>>,
    fb: Seq<(u64, u64)>,
    fa: Seq<(u64, u64)>,
) -> bool {
    &&& drawn.len() == empty_before(before, before.len() as int)
    &&& fs.len() == drawn.len() + 1
    &&& fs[0] == fb && fs[drawn.len() as int] == fa
    &&& forall|k: int| 0 <= k < drawn.len() ==> #[trigger] brew_step(catalog, drawn, fs, k)
    &&& after == filled_slots(before, drawn)
}

/// The slots of a belt with each empty slot filled, in order, by the drawn potions.
pub open spec fn filled_slots(slots: Seq<Option<&'static BasePotion>>, drawn: Seq<&'static BasePotion>) -> Seq<Option<&'static BasePotion>> {
    Seq::new(slots.len(), |i: int| if slots[i] is None { Some(drawn[empty_before(slots, i)]) } else { slots[i] })
}

impl GameState {
    /// Whether a potion can be drunk outside of battle: Fruit Juice, a Blood Potion or an
    /// Entropic Brew, without overflow.
    pub open spec fn drinkable(&self, potion: PotionReference, catalog: Seq<&'static BasePotion>) -> bool {
        let n = potion.base.name@;
        let juice: int = if self.relics.has("Sacred Bark"@) { 10 } else { 5 };
        let blood: int = if self.relics.has("Sacred Bark"@) { (2 * self.hp.max + 4) / 5 } else { (self.hp.max + 4) / 5 };
        &&& (n == "Fruit Juice"@ || n == "Blood Potion"@ || n == "Entropic Brew"@)
        &&& n == "Fruit Juice"@ ==> self.hp.max + juice <= u16::MAX && self.hp.amount + juice <= u16::MAX
        &&& n == "Blood Potion"@ ==> self.hp.amount + blood <= u16::MAX
        &&& n == "Entropic Brew"@ ==> potions_drawable(catalog, true)
    }

    /// Drinks a potion outside of battle, with its effect where asked: Fruit Juice raises
    /// the maximum hit points by 5 (10 with the Sacred Bark), a Blood Potion heals a fifth
    /// of the maximum rounded up (two fifths), and an Entropic Brew fills each empty slot
    /// with a random potion other than Fruit Juice. The potion stays in its slot.
    pub fn drink_potion(
        &mut self,
        potion: PotionReference,
        eval_effects: bool,
        probability: &mut Probability,
        catalog: &[&'static BasePotion],
    )
        requires
            eval_effects ==> old(self).drinkable(potion, catalog@),
        ensures
            !eval_effects ==> *final(self) == *old(self) && final(probability).factors@ == old(probability).factors@,
            eval_effects ==> potion_drunk(*old(self), *final(self), potion, catalog@, old(probability).factors@, final(probability).factors@),
    {
        if !eval_effects {
            return;
        }
        proof {
            reveal_strlit("Fruit Juice");
            reveal_strlit("Blood Potion");
            reveal_strlit("Entropic Brew");
            assert("Fruit Juice"@[0] != "Blood Potion"@[0]);
            assert("Fruit Juice"@[0] != "Entropic Brew"@[0]);
            assert("Blood Potion"@[0] != "Entropic Brew"@[0]);
        }
        let name = potion.base.name.as_str();
        if str_eq(name, "Fruit Juice") {
            let amount: u16 = if self.relics.contains("Sacred Bark") { 10 } else { 5 };
            self.add_max_hp(amount);
        } else if str_eq(name, "Blood Potion") {
            let max = self.hp.max as u32;
            let amount: u32 = if self.relics.contains("Sacred Bark") { (2 * max + 4) / 5 } else { (max + 4) / 5 };
            assert(amount <= 26215);
            self.heal(amount as u16);
        } else {
            let slots = slots_items(&self.potions);
            let ghost old_slots = slots@;
            let ghost mut drawn: Seq<&'static BasePotion> = Seq::empty();
            let ghost mut fs: Seq<Seq<(u64, u64)>> = seq![probability.factors@];
            let mut i: usize = 0;
            while i < slots.len()
                invariant
                    0 <= i <= slots@.len(),
                    old_slots == slots@,
                    old_slots == slot_items(old(self).potions),
                    potions_drawable(catalog@, true),
                    *self == (GameState { potions: self.potions, ..*old(self) }),
                    drawn.len() == empty_before(old_slots, i as int),
                    fs.len() == drawn.len() + 1,
                    fs[0] == old(probability).factors@ && fs[drawn.len() as int] == probability.factors@,
                    forall|k: int| 0 <= k < drawn.len() ==> #[trigger] brew_step(catalog@, drawn, fs, k),
                    slot_items(self.potions).len() == old_slots.len(),
                    forall|j: int| 0 <= j < i ==> #[trigger] slot_items(self.potions)[j] == (if old_slots[j] is None {
                        Some(drawn[empty_before(old_slots, j)])
                    } else {
                        old_slots[j]
                    }),
                    forall|j: int| i <= j < old_slots.len() ==> #[trigger] slot_items(self.potions)[j] == old_slots[j],
                decreases slots@.len() - i,
            {
                let ghost d0 = drawn;
                let ghost f0 = fs;
                if slots[i].is_none() {
                    let ghost fb = probability.factors@;
                    let p = random_potion(true, probability, catalog);
                    slots_set(&mut self.potions, i, Some(p));
                    proof {
                        drawn = drawn.push(p);
                        fs = fs.push(probability.factors@);
                        assert(drawn == d0.push(p));
                        assert(brew_step(catalog@, drawn, fs, d0.len() as int));
                        assert forall|k: int| 0 <= k < drawn.len() implies #[trigger] brew_step(catalog@, drawn, fs, k) by {
                            if k < d0.len() {
                                assert(brew_step(catalog@, d0, f0, k));
                                assert(drawn[k] == d0[k] && fs[k] == f0[k] && fs[k + 1] == f0[k + 1]);
                            }
                        }
                        assert forall|j: int| 0 <= j < i + 1 implies #[trigger] slot_items(self.potions)[j] == (if old_slots[j] is None {
                            Some(drawn[empty_before(old_slots, j)])
                        } else {
                            old_slots[j]
                        }) by {
                            if j < i && old_slots[j] is None {
                                lemma_empty_before_monotone(old_slots, j + 1, i as int);
                                assert(empty_before(old_slots, j + 1) == empty_before(old_slots, j) + 1);
                                assert(d0.len() == empty_before(old_slots, i as int));
                                assert(empty_before(old_slots, j) < d0.len());
                                let e = empty_before(old_slots, j);
                                lemma_empty_before_monotone(old_slots, 0, j);
                                assert(d0.push(p)[e] == d0[e]);
                                assert(drawn[empty_before(old_slots, j)] == d0[empty_before(old_slots, j)]);
                            } else if j == i {
                                assert(old_slots[j] is None);
                                assert(empty_before(old_slots, j) == d0.len());
                            }
                        }
                    }
                }
                i = i + 1;
            }
            proof {
                let slots0 = slot_items(old(self).potions);
                assert(slot_items(self.potions) =~= filled_slots(slots0, drawn));
                assert(brewed(catalog@, slots0, slot_items(self.potions), drawn, fs, old(probability).factors@, probability.factors@));
            }
        }
    }
}

/// The count of empty slots grows with the number of slots looked at.
proof fn lemma_empty_before_monotone(slots: Seq<Option<&'static BasePotion>>, a: int, b: int)
    requires
        0 <= a <= b,
    ensures
        empty_before(slots, a) <= empty_before(slots, b),
    decreases b - a,
{
    if a < b {
        lemma_empty_before_monotone(slots, a, b - 1);
    }
}

} // verus!
