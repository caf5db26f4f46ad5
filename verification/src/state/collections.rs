//! The persistent collections of `im` that the game state keeps, declared to Verus,
//! each instance with a name for what it holds and the methods that the state calls.

use vstd::prelude::*;

use crate::models::common::{CardEffect, CardType, When};
use crate::models::monsters::MonsterMove;
use crate::models::potions::BasePotion;
use crate::models::relics::BaseRelic;
use crate::state::map::MapNodeIcon;
use crate::models::monsters::BaseMonster;
use crate::spireai::references::CardReference;
use crate::state::common::{Card, CardOffer, Monster, Orb, Relic, Reward};

verus! {

#[verifier::external_type_specification]
#[verifier::external_body]
#[verifier::reject_recursive_types(A)]
pub struct ExImVector<A>(im::Vector<A>);

#[verifier::external_type_specification]
#[verifier::external_body]
#[verifier::reject_recursive_types(K)]
#[verifier::reject_recursive_types(V)]
#[verifier::reject_recursive_types(S)]
pub struct ExImHashMap<K, V, S>(im::HashMap<K, V, S>);

#[verifier::external_type_specification]
#[verifier::external_body]
#[verifier::reject_recursive_types(A)]
#[verifier::reject_recursive_types(S)]
pub struct ExImHashSet<A, S>(im::HashSet<A, S>);

/// `Clone` of `im::Vector`, which shares the tree of the original. Nothing is claimed
/// of the copy here: what it holds is stated, where a caller needs it, per instance.
pub assume_specification<A: Clone>[ <im::Vector<A> as Clone>::clone ](v: &im::Vector<A>) -> im::Vector<A>;

/// `Clone` of `im::HashMap`, which shares the tree of the original. Nothing is claimed
/// of the copy here.
pub assume_specification<K, V, S>[ <im::HashMap<K, V, S> as Clone>::clone ](m: &im::HashMap<K, V, S>) -> im::HashMap<K, V, S>
    where
        K: Clone,
        V: Clone,
;

/// `Clone` of `im::HashSet`, which shares the tree of the original. Nothing is claimed
/// of the copy here.
pub assume_specification<A, S>[ <im::HashSet<A, S> as Clone>::clone ](m: &im::HashSet<A, S>) -> im::HashSet<A, S>
    where
        A: Clone,
;

/// The name of a monster's own effect, as the monster's definition holds it.
pub type EffectName = &'static String;

/// A monster's map from moments to the names of its effects.
pub type MonsterWhens = im::HashMap<When, EffectName>;

/// A monster's list of next moves, with their weights.
pub type MoveOptions = im::Vector<(&'static MonsterMove, u8)>;

// ---- the moments at which a monster's own effects trigger ----
/// The entries of a monster's map from moments to effect names.
pub uninterp spec fn monster_whens(m: MonsterWhens) -> Map<When, EffectName>;

/// `im::HashMap::new`: a map with no entries.
#[verifier::external_body]
pub fn monster_whens_new() -> (res: MonsterWhens)
    ensures
        monster_whens(res) =~= Map::empty(),
{
    im::HashMap::new()
}

// ---- the moves that a monster may make next, with their weights ----
/// The items of a monster's list of next moves.
pub uninterp spec fn move_options(v: MoveOptions) -> Seq<(&'static MonsterMove, u8)>;

/// `im::Vector::new`: a list with no items.
#[verifier::external_body]
pub fn move_options_new() -> (res: MoveOptions)
    ensures
        move_options(res) == Seq::<(&'static MonsterMove, u8)>::empty(),
{
    im::Vector::new()
}

// ---- sets of names ----
/// The names that a set of names holds.
pub uninterp spec fn name_set(s: im::HashSet<String>) -> Set<Seq<char>>;

/// `im::HashSet::new`: a set with no names.
#[verifier::external_body]
pub fn name_set_new() -> (res: im::HashSet<String>)
    ensures
        name_set(res) =~= Set::empty(),
{
    im::HashSet::new()
}


/// `im::HashSet::insert` on a set of names: the set holds the name afterwards.
#[verifier::external_body]
pub fn name_set_insert(s: &mut im::HashSet<String>, name: &str)
    ensures
        name_set(*final(s)) == name_set(*old(s)).insert(name@),
{
    s.insert(name.to_string());
}

/// `im::HashSet::contains` on a set of names.
#[verifier::external_body]
pub fn name_set_contains(s: &im::HashSet<String>, name: &str) -> (res: bool)
    ensures
        res == name_set(*s).contains(name@),
{
    s.contains(name)
}

// ---- cards by identifier: the deck of a run, the cards of a battle ----
/// The entries of a map of cards: each card under its identifier.
pub uninterp spec fn deck_cards(m: im::HashMap<u128, Card>) -> Map<u128, Card>;

/// Whether a list names each entry of a map once, in some order.
pub open spec fn lists_entries<V>(items: Seq<(u128, V)>, m: Map<u128, V>) -> bool {
    &&& m.dom().finite()
    &&& items.len() == m.dom().len()
    &&& forall|i: int| 0 <= i < items.len() ==> #[trigger] m.contains_key(items[i].0) && m[items[i].0] == items[i].1
    &&& forall|i: int, j: int| 0 <= i < j < items.len() ==> (#[trigger] items[i]).0 != (#[trigger] items[j]).0
    &&& forall|k: u128| #[trigger] m.contains_key(k) ==> exists|i: int| 0 <= i < items.len() && (#[trigger] items[i]).0 == k
}

/// `im::HashMap::new`: a deck with no cards.
#[verifier::external_body]
pub fn deck_new() -> (res: im::HashMap<u128, Card>)
    ensures
        deck_cards(res) =~= Map::empty(),
{
    im::HashMap::new()
}

/// `im::HashMap::insert`: the card is under the identifier afterwards, in place of any
/// card that was.
#[verifier::external_body]
pub fn deck_insert(m: &mut im::HashMap<u128, Card>, uuid: u128, card: Card)
    ensures
        deck_cards(*final(m)) == deck_cards(*old(m)).insert(uuid, card),
{
    m.insert(uuid, card);
}

/// `im::HashMap::remove`: no card is under the identifier afterwards.
#[verifier::external_body]
pub fn deck_remove(m: &mut im::HashMap<u128, Card>, uuid: u128)
    ensures
        deck_cards(*final(m)) == deck_cards(*old(m)).remove(uuid),
{
    m.remove(&uuid);
}

/// `im::HashMap::get`: the card under the identifier, if any.
#[verifier::external_body]
pub fn deck_get(m: &im::HashMap<u128, Card>, uuid: u128) -> (res: Option<Card>)
    ensures
        res == (if deck_cards(*m).contains_key(uuid) {
            Some(deck_cards(*m)[uuid])
        } else {
            None
        }),
{
    m.get(&uuid).copied()
}

/// `im::HashMap::iter`: every entry once, in an order that depends on the map's
/// randomly seeded hasher and is not stated.
#[verifier::external_body]
pub fn deck_entries(m: &im::HashMap<u128, Card>) -> (res: Vec<(u128, Card)>)
    ensures
        lists_entries(res@, deck_cards(*m)),
{
    m.iter().map(|(k, v)| (*k, *v)).collect()
}

// ---- the relics of a run, by identifier ----
/// The entries of a map of relics: each relic under its identifier.
pub uninterp spec fn relic_entries(m: im::HashMap<u128, Relic>) -> Map<u128, Relic>;

/// `im::HashMap::new`: no relics.
#[verifier::external_body]
pub fn relic_map_new() -> (res: im::HashMap<u128, Relic>)
    ensures
        relic_entries(res) =~= Map::empty(),
{
    im::HashMap::new()
}

/// `im::HashMap::insert`: the relic is under the identifier afterwards.
#[verifier::external_body]
pub fn relic_map_insert(m: &mut im::HashMap<u128, Relic>, uuid: u128, relic: Relic)
    ensures
        relic_entries(*final(m)) == relic_entries(*old(m)).insert(uuid, relic),
{
    m.insert(uuid, relic);
}

/// `im::HashMap::remove`: no relic is under the identifier afterwards.
#[verifier::external_body]
pub fn relic_map_remove(m: &mut im::HashMap<u128, Relic>, uuid: u128)
    ensures
        relic_entries(*final(m)) == relic_entries(*old(m)).remove(uuid),
{
    m.remove(&uuid);
}

/// `im::HashMap::get`: the relic under the identifier, if any.
#[verifier::external_body]
pub fn relic_map_get(m: &im::HashMap<u128, Relic>, uuid: u128) -> (res: Option<Relic>)
    ensures
        res == (if relic_entries(*m).contains_key(uuid) {
            Some(relic_entries(*m)[uuid])
        } else {
            None
        }),
{
    m.get(&uuid).copied()
}

/// `im::HashMap::iter`: every relic once, in an order that is not stated.
#[verifier::external_body]
pub fn relic_map_entries(m: &im::HashMap<u128, Relic>) -> (res: Vec<(u128, Relic)>)
    ensures
        lists_entries(res@, relic_entries(*m)),
{
    m.iter().map(|(k, v)| (*k, *v)).collect()
}

// ---- relic identifiers by relic name ----
/// The entries of a map from names to identifiers.
pub uninterp spec fn name_index(m: im::HashMap<String, u128>) -> Map<Seq<char>, u128>;

/// `im::HashMap::new`: no names.
#[verifier::external_body]
pub fn name_index_new() -> (res: im::HashMap<String, u128>)
    ensures
        name_index(res) =~= Map::empty(),
{
    im::HashMap::new()
}

/// `im::HashMap::insert`: the name maps to the identifier afterwards.
#[verifier::external_body]
pub fn name_index_insert(m: &mut im::HashMap<String, u128>, name: &str, uuid: u128)
    ensures
        name_index(*final(m)) == name_index(*old(m)).insert(name@, uuid),
{
    m.insert(name.to_string(), uuid);
}

/// `im::HashMap::remove`: the name maps to nothing afterwards; returns what it mapped to.
#[verifier::external_body]
pub fn name_index_remove(m: &mut im::HashMap<String, u128>, name: &str) -> (res: Option<u128>)
    ensures
        name_index(*final(m)) == name_index(*old(m)).remove(name@),
        res == (if name_index(*old(m)).contains_key(name@) {
            Some(name_index(*old(m))[name@])
        } else {
            None
        }),
{
    m.remove(name)
}

/// `im::HashMap::get`: what the name maps to, if anything.
#[verifier::external_body]
pub fn name_index_get(m: &im::HashMap<String, u128>, name: &str) -> (res: Option<u128>)
    ensures
        res == (if name_index(*m).contains_key(name@) {
            Some(name_index(*m)[name@])
        } else {
            None
        }),
{
    m.get(name).copied()
}

/// `im::HashMap::contains_key`.
#[verifier::external_body]
pub fn name_index_contains(m: &im::HashMap<String, u128>, name: &str) -> (res: bool)
    ensures
        res == name_index(*m).contains_key(name@),
{
    m.contains_key(name)
}

// ---- potion slots ----
/// The slots of a belt of potions, each empty or holding a potion.
pub uninterp spec fn slot_items(v: im::Vector<Option<&'static BasePotion>>) -> Seq<Option<&'static BasePotion>>;

/// `im::Vector::from` a `Vec`: the same slots in the same order.
#[verifier::external_body]
pub fn slots_from(items: Vec<Option<&'static BasePotion>>) -> (res: im::Vector<Option<&'static BasePotion>>)
    ensures
        slot_items(res) == items@,
{
    im::Vector::from(items)
}

/// `im::Vector::set`: the slot at the index holds the value afterwards. The index must
/// be in range.
#[verifier::external_body]
pub fn slots_set(v: &mut im::Vector<Option<&'static BasePotion>>, index: usize, value: Option<&'static BasePotion>)
    requires
        index < slot_items(*old(v)).len(),
    ensures
        slot_items(*final(v)) == slot_items(*old(v)).update(index as int, value),
{
    v.set(index, value);
}

/// `im::Vector::push_back`: one more slot at the end.
#[verifier::external_body]
pub fn slots_push(v: &mut im::Vector<Option<&'static BasePotion>>, value: Option<&'static BasePotion>)
    ensures
        slot_items(*final(v)) == slot_items(*old(v)).push(value),
{
    v.push_back(value);
}

/// `im::Vector::iter`: the slots in order.
#[verifier::external_body]
pub fn slots_items(v: &im::Vector<Option<&'static BasePotion>>) -> (res: Vec<Option<&'static BasePotion>>)
    ensures
        res@ == slot_items(*v),
{
    v.iter().copied().collect()
}

// ---- relic identifiers by the moment at which the relics act ----
/// The rank of a card type, by which a moment that names one is told apart.
pub open spec fn card_type_rank(t: CardType) -> int {
    match t {
        CardType::Attack => 0,
        CardType::Skill => 1,
        CardType::Power => 2,
        CardType::Status => 3,
        CardType::Curse => 4,
        CardType::All => 5,
    }
}

/// What tells moments apart: the variant, the card type it names, and the name it holds.
pub open spec fn when_key(w: When) -> (int, int, Seq<char>) {
    match w {
        When::BeforeHandDraw => (0, 0, Seq::empty()),
        When::AfterHandDraw => (1, 0, Seq::empty()),
        When::BeforeHandDiscard => (2, 0, Seq::empty()),
        When::BeforeEnemyMove => (3, 0, Seq::empty()),
        When::AfterEnemyMove => (4, 0, Seq::empty()),
        When::TurnEnd => (5, 0, Seq::empty()),
        When::CombatEnd => (6, 0, Seq::empty()),
        When::CombatStart => (7, 0, Seq::empty()),
        When::OnRecieveAttackDamage => (8, 0, Seq::empty()),
        When::OnReceiveUnblockedDamage => (9, 0, Seq::empty()),
        When::OnDealUnblockedDamage => (10, 0, Seq::empty()),
        When::OnHpLoss => (11, 0, Seq::empty()),
        When::OnHpChange => (12, 0, Seq::empty()),
        When::OnHalfHp => (13, 0, Seq::empty()),
        When::OnBlock => (14, 0, Seq::empty()),
        When::OnDie => (15, 0, Seq::empty()),
        When::OnEnemyDie => (16, 0, Seq::empty()),
        When::Discard => (17, 0, Seq::empty()),
        When::Exhaust => (18, 0, Seq::empty()),
        When::Scry => (19, 0, Seq::empty()),
        When::Shuffle => (20, 0, Seq::empty()),
        When::PlayCard(t) => (21, card_type_rank(t), Seq::empty()),
        When::DrawCard(t) => (22, card_type_rank(t), Seq::empty()),
        When::OnMove(name) => (23, 0, name@),
        When::OnLoseBuff(name) => (24, 0, name@),
        When::Never => (25, 0, Seq::empty()),
    }
}

/// The entries of a map from moments to relic identifiers, each moment by its key.
pub uninterp spec fn relic_whens(m: im::HashMap<When, im::Vector<u128>>) -> Map<(int, int, Seq<char>), Seq<u128>>;

/// `im::HashMap::new`: no moments.
#[verifier::external_body]
pub fn relic_whens_new() -> (res: im::HashMap<When, im::Vector<u128>>)
    ensures
        relic_whens(res) =~= Map::empty(),
{
    im::HashMap::new()
}

/// `entry(..).or_insert_with(Vector::new).push_back(..)`: the identifier is added at the
/// end of the moment's list, which starts empty where the moment had none.
#[verifier::external_body]
pub fn relic_whens_push(m: &mut im::HashMap<When, im::Vector<u128>>, when: &When, uuid: u128)
    ensures
        relic_whens(*final(m)) == relic_whens(*old(m)).insert(
            when_key(*when),
            (if relic_whens(*old(m)).contains_key(when_key(*when)) {
                relic_whens(*old(m))[when_key(*when)]
            } else {
                Seq::empty()
            }).push(uuid),
        ),
{
    m.entry(when.clone()).or_insert_with(im::Vector::new).push_back(uuid);
}

/// `im::HashMap::keys`: every moment once, in an order that is not stated.
#[verifier::external_body]
pub fn relic_whens_keys(m: &im::HashMap<When, im::Vector<u128>>) -> (res: Vec<When>)
    ensures
        res@.len() == relic_whens(*m).dom().len(),
        forall|i: int| 0 <= i < res@.len() ==> relic_whens(*m).contains_key(#[trigger] when_key(res@[i])),
        forall|i: int, j: int| 0 <= i < j < res@.len() ==> when_key(#[trigger] res@[i]) != when_key(#[trigger] res@[j]),
        forall|k: (int, int, Seq<char>)| #[trigger] relic_whens(*m).contains_key(k) ==> exists|i: int| 0 <= i < res@.len() && when_key(#[trigger] res@[i]) == k,
{
    m.keys().cloned().collect()
}

/// The identifiers listed under a moment that the map has, in order.
#[verifier::external_body]
pub fn relic_whens_get(m: &im::HashMap<When, im::Vector<u128>>, when: &When) -> (res: Vec<u128>)
    requires
        relic_whens(*m).contains_key(when_key(*when)),
    ensures
        res@ == relic_whens(*m)[when_key(*when)],
{
    m[when].iter().copied().collect()
}

/// `im::HashMap::insert`: the moment lists exactly the given identifiers afterwards.
#[verifier::external_body]
pub fn relic_whens_set(m: &mut im::HashMap<When, im::Vector<u128>>, when: &When, uuids: Vec<u128>)
    ensures
        relic_whens(*final(m)) == relic_whens(*old(m)).insert(when_key(*when), uuids@),
{
    m.insert(when.clone(), im::Vector::from(uuids));
}


// ---- card offers ----
/// The offers of a list of card offers, in order.
pub uninterp spec fn offer_items(v: im::Vector<CardOffer>) -> Seq<CardOffer>;

/// `im::Vector::from` a `Vec`: the same offers in the same order.
#[verifier::external_body]
pub fn offers_from(items: Vec<CardOffer>) -> (res: im::Vector<CardOffer>)
    ensures
        offer_items(res) == items@,
{
    im::Vector::from(items)
}

/// `im::Vector::iter`: the offers in order.
#[verifier::external_body]
pub fn offers_items(v: &im::Vector<CardOffer>) -> (res: Vec<CardOffer>)
    ensures
        res@ == offer_items(*v),
{
    v.iter().copied().collect()
}


// ---- how many rooms of each kind are left to place on a map ----
/// The entries of a map from room kinds to counts.
pub uninterp spec fn icon_counts(m: im::HashMap<MapNodeIcon, u8>) -> Map<MapNodeIcon, u8>;

/// `im::HashMap::new`: no kinds.
#[verifier::external_body]
pub fn icon_counts_new() -> (res: im::HashMap<MapNodeIcon, u8>)
    ensures
        icon_counts(res) =~= Map::empty(),
{
    im::HashMap::new()
}

/// `im::HashMap::insert`: the kind has the count afterwards.
#[verifier::external_body]
pub fn icon_counts_insert(m: &mut im::HashMap<MapNodeIcon, u8>, icon: MapNodeIcon, count: u8)
    ensures
        icon_counts(*final(m)) == icon_counts(*old(m)).insert(icon, count),
{
    m.insert(icon, count);
}

/// `im::HashMap::remove`: the kind has no count afterwards.
#[verifier::external_body]
pub fn icon_counts_remove(m: &mut im::HashMap<MapNodeIcon, u8>, icon: MapNodeIcon)
    ensures
        icon_counts(*final(m)) == icon_counts(*old(m)).remove(icon),
{
    m.remove(&icon);
}

/// `im::HashMap::get`: the count of a kind, if it has one.
#[verifier::external_body]
pub fn icon_counts_get(m: &im::HashMap<MapNodeIcon, u8>, icon: MapNodeIcon) -> (res: Option<u8>)
    ensures
        res == (if icon_counts(*m).contains_key(icon) {
            Some(icon_counts(*m)[icon])
        } else {
            None
        }),
{
    m.get(&icon).copied()
}

/// `Clone` of the map: a map with the same entries.
#[verifier::external_body]
pub fn icon_counts_clone(m: &im::HashMap<MapNodeIcon, u8>) -> (res: im::HashMap<MapNodeIcon, u8>)
    ensures
        icon_counts(res) == icon_counts(*m),
{
    m.clone()
}


// ---- a shop's card offers with their prices ----
/// The card offers with their prices of a shop, in order.
pub uninterp spec fn store_cards(v: im::Vector<(CardOffer, u16)>) -> Seq<(CardOffer, u16)>;

/// `im::Vector::from` a `Vec`: the same items in the same order.
#[verifier::external_body]
pub fn store_cards_from(items: Vec<(CardOffer, u16)>) -> (res: im::Vector<(CardOffer, u16)>)
    ensures
        store_cards(res) == items@,
{
    im::Vector::from(items)
}

/// `im::Vector::iter`: the items in order.
#[verifier::external_body]
pub fn store_cards_items(v: &im::Vector<(CardOffer, u16)>) -> (res: Vec<(CardOffer, u16)>)
    ensures
        res@ == store_cards(*v),
{
    v.iter().copied().collect()
}

/// `im::Vector::remove`: takes out the item at an index, which must be in range, and
/// returns it.
#[verifier::external_body]
pub fn store_cards_remove(v: &mut im::Vector<(CardOffer, u16)>, index: usize) -> (res: (CardOffer, u16))
    requires
        index < store_cards(*old(v)).len(),
    ensures
        res == store_cards(*old(v))[index as int],
        store_cards(*final(v)) == store_cards(*old(v)).remove(index as int),
{
    v.remove(index)
}

/// `im::Vector::insert`: puts an item at an index, at most the length, shifting the rest.
#[verifier::external_body]
pub fn store_cards_insert(v: &mut im::Vector<(CardOffer, u16)>, index: usize, item: (CardOffer, u16))
    requires
        index <= store_cards(*old(v)).len(),
    ensures
        store_cards(*final(v)) == store_cards(*old(v)).insert(index as int, item),
{
    v.insert(index, item);
}

// ---- a shop's potions with their prices ----
/// The potions with their prices of a shop, in order.
pub uninterp spec fn store_potions(v: im::Vector<(&'static BasePotion, u16)>) -> Seq<(&'static BasePotion, u16)>;

/// `im::Vector::from` a `Vec`: the same items in the same order.
#[verifier::external_body]
pub fn store_potions_from(items: Vec<(&'static BasePotion, u16)>) -> (res: im::Vector<(&'static BasePotion, u16)>)
    ensures
        store_potions(res) == items@,
{
    im::Vector::from(items)
}

/// `im::Vector::iter`: the items in order.
#[verifier::external_body]
pub fn store_potions_items(v: &im::Vector<(&'static BasePotion, u16)>) -> (res: Vec<(&'static BasePotion, u16)>)
    ensures
        res@ == store_potions(*v),
{
    v.iter().copied().collect()
}

/// `im::Vector::remove`: takes out the item at an index, which must be in range, and
/// returns it.
#[verifier::external_body]
pub fn store_potions_remove(v: &mut im::Vector<(&'static BasePotion, u16)>, index: usize) -> (res: (&'static BasePotion, u16))
    requires
        index < store_potions(*old(v)).len(),
    ensures
        res == store_potions(*old(v))[index as int],
        store_potions(*final(v)) == store_potions(*old(v)).remove(index as int),
{
    v.remove(index)
}

/// `im::Vector::insert`: puts an item at an index, at most the length, shifting the rest.
#[verifier::external_body]
pub fn store_potions_insert(v: &mut im::Vector<(&'static BasePotion, u16)>, index: usize, item: (&'static BasePotion, u16))
    requires
        index <= store_potions(*old(v)).len(),
    ensures
        store_potions(*final(v)) == store_potions(*old(v)).insert(index as int, item),
{
    v.insert(index, item);
}

// ---- a shop's relics with their prices ----
/// The relics with their prices of a shop, in order.
pub uninterp spec fn store_relics(v: im::Vector<(&'static BaseRelic, u16)>) -> Seq<(&'static BaseRelic, u16)>;

/// `im::Vector::from` a `Vec`: the same items in the same order.
#[verifier::external_body]
pub fn store_relics_from(items: Vec<(&'static BaseRelic, u16)>) -> (res: im::Vector<(&'static BaseRelic, u16)>)
    ensures
        store_relics(res) == items@,
{
    im::Vector::from(items)
}

/// `im::Vector::iter`: the items in order.
#[verifier::external_body]
pub fn store_relics_items(v: &im::Vector<(&'static BaseRelic, u16)>) -> (res: Vec<(&'static BaseRelic, u16)>)
    ensures
        res@ == store_relics(*v),
{
    v.iter().copied().collect()
}

/// `im::Vector::remove`: takes out the item at an index, which must be in range, and
/// returns it.
#[verifier::external_body]
pub fn store_relics_remove(v: &mut im::Vector<(&'static BaseRelic, u16)>, index: usize) -> (res: (&'static BaseRelic, u16))
    requires
        index < store_relics(*old(v)).len(),
    ensures
        res == store_relics(*old(v))[index as int],
        store_relics(*final(v)) == store_relics(*old(v)).remove(index as int),
{
    v.remove(index)
}

/// `im::Vector::insert`: puts an item at an index, at most the length, shifting the rest.
#[verifier::external_body]
pub fn store_relics_insert(v: &mut im::Vector<(&'static BaseRelic, u16)>, index: usize, item: (&'static BaseRelic, u16))
    requires
        index <= store_relics(*old(v)).len(),
    ensures
        store_relics(*final(v)) == store_relics(*old(v)).insert(index as int, item),
{
    v.insert(index, item);
}


// ---- rewards on screen ----
/// The rewards of a list of rewards, in order.
pub uninterp spec fn reward_items(v: im::Vector<Reward>) -> Seq<Reward>;

/// `im::Vector::from` a `Vec`: the same rewards in the same order.
#[verifier::external_body]
pub fn rewards_from(items: Vec<Reward>) -> (res: im::Vector<Reward>)
    ensures
        reward_items(res) == items@,
{
    im::Vector::from(items)
}

/// `im::Vector::len`: how many rewards there are.
#[verifier::external_body]
pub fn rewards_len(v: &im::Vector<Reward>) -> (res: usize)
    ensures
        res == reward_items(*v).len(),
{
    v.len()
}

/// `im::Vector::index`, cloned: the reward at a position, which must be in the list.
#[verifier::external_body]
pub fn reward_at(v: &im::Vector<Reward>, index: usize) -> (res: Reward)
    requires
        index < reward_items(*v).len(),
    ensures
        res == reward_items(*v)[index as int],
{
    v[index].clone()
}

// ---- references to cards, in the order of a choice ----
/// The references of a list of references to cards, in order.
pub uninterp spec fn card_refs(v: im::Vector<CardReference>) -> Seq<CardReference>;

/// `im::Vector::iter`, copied: the references in order.
#[verifier::external_body]
pub fn card_refs_items(v: &im::Vector<CardReference>) -> (res: Vec<CardReference>)
    ensures
        res@ == card_refs(*v),
{
    v.iter().copied().collect()
}

// ---- the effects that a choice of cards applies to each card chosen ----
/// The effects of a list of effects on cards, in order.
pub uninterp spec fn card_effects(v: im::Vector<&'static CardEffect>) -> Seq<&'static CardEffect>;

/// `im::Vector::iter`, copied: the effects in order.
#[verifier::external_body]
pub fn card_effects_items(v: &im::Vector<&'static CardEffect>) -> (res: Vec<&'static CardEffect>)
    ensures
        res@ == card_effects(*v),
{
    v.iter().copied().collect()
}

// ---- sets of identifiers: the hand, the draw pile and the exhaust pile ----
/// The identifiers that a set of identifiers holds.
pub uninterp spec fn uuid_set(s: im::HashSet<u128>) -> Set<u128>;

/// `im::HashSet::iter`, copied: each identifier once, in an order that depends on the
/// set's randomly seeded hasher and is not stated.
#[verifier::external_body]
pub fn uuid_set_items(s: &im::HashSet<u128>) -> (res: Vec<u128>)
    ensures
        res@.no_duplicates(),
        res@.to_set() == uuid_set(*s),
{
    s.iter().copied().collect()
}

// ---- the monsters of a battle, by identifier ----
/// The entries of a map of monsters: each monster under its identifier.
pub uninterp spec fn battle_monsters(m: im::HashMap<u128, Monster>) -> Map<u128, Monster>;

/// Whether a list names each monster of a map once, under its key, with the identifier,
/// kind and targetability the monster holds.
pub open spec fn lists_monsters(items: Seq<(u128, u128, &'static BaseMonster, bool)>, m: Map<u128, Monster>) -> bool {
    &&& m.dom().finite()
    &&& items.len() == m.dom().len()
    &&& forall|i: int| 0 <= i < items.len() ==> #[trigger] m.contains_key(items[i].0) && items[i].1 == m[items[i].0].uuid
        && items[i].2 == m[items[i].0].base && items[i].3 == m[items[i].0].targetable
    &&& forall|i: int, j: int| 0 <= i < j < items.len() ==> (#[trigger] items[i]).0 != (#[trigger] items[j]).0
    &&& forall|k: u128| #[trigger] m.contains_key(k) ==> exists|i: int| 0 <= i < items.len() && (#[trigger] items[i]).0 == k
}

/// `im::HashMap::iter`: each monster once, as its key, identifier, kind and
/// targetability, in an order that depends on the map's randomly seeded hasher and is
/// not stated.
#[verifier::external_body]
pub fn monster_listing(m: &im::HashMap<u128, Monster>) -> (res: Vec<(u128, u128, &'static BaseMonster, bool)>)
    ensures
        lists_monsters(res@, battle_monsters(*m)),
{
    m.iter().map(|(k, v)| (*k, v.uuid, v.base, v.targetable)).collect()
}

/// `im::Vector::remove`: the reward at the index leaves the list, which it must be in.
#[verifier::external_body]
pub fn rewards_remove(v: &mut im::Vector<Reward>, index: usize) -> (res: Reward)
    requires
        index < reward_items(*old(v)).len(),
    ensures
        res == reward_items(*old(v))[index as int],
        reward_items(*final(v)) == reward_items(*old(v)).remove(index as int),
{
    v.remove(index)
}

/// `im::Vector::set`: the reward at the index is replaced; the index must be in range.
#[verifier::external_body]
pub fn rewards_set(v: &mut im::Vector<Reward>, index: usize, value: Reward)
    requires
        index < reward_items(*old(v)).len(),
    ensures
        reward_items(*final(v)) == reward_items(*old(v)).update(index as int, value),
{
    v.set(index, value);
}

/// `im::Vector::append`: the offers of the second list follow those of the first.
#[verifier::external_body]
pub fn offers_append(v: &mut im::Vector<CardOffer>, more: im::Vector<CardOffer>)
    ensures
        offer_items(*final(v)) == offer_items(*old(v)) + offer_items(more),
{
    v.append(more);
}

/// `im::Vector::is_empty`.
#[verifier::external_body]
pub fn offers_is_empty(v: &im::Vector<CardOffer>) -> (res: bool)
    ensures
        res == (offer_items(*v).len() == 0),
{
    v.is_empty()
}

/// `im::Vector::new`: no offers.
#[verifier::external_body]
pub fn offers_new() -> (res: im::Vector<CardOffer>)
    ensures
        offer_items(res) == Seq::<CardOffer>::empty(),
{
    im::Vector::new()
}

/// `im::HashMap::get`: the monster under the identifier, if any.
#[verifier::external_body]
pub fn battle_monster_get(m: &im::HashMap<u128, Monster>, uuid: u128) -> (res: Option<&Monster>)
    ensures
        res matches Some(x) ==> battle_monsters(*m).contains_key(uuid) && *x == battle_monsters(*m)[uuid],
        res is None ==> !battle_monsters(*m).contains_key(uuid),
{
    m.get(&uuid)
}

/// `im::HashMap::remove`: takes out the monster under the identifier and hands it back,
/// if there is one.
#[verifier::external_body]
pub fn battle_monster_remove(m: &mut im::HashMap<u128, Monster>, uuid: u128) -> (res: Option<Monster>)
    ensures
        battle_monsters(*final(m)) == battle_monsters(*old(m)).remove(uuid),
        res == (if battle_monsters(*old(m)).contains_key(uuid) { Some(battle_monsters(*old(m))[uuid]) } else { None }),
{
    m.remove(&uuid)
}

/// `im::HashMap::insert`: the monster is under the identifier afterwards, in place of any
/// that was.
#[verifier::external_body]
pub fn battle_monster_insert(m: &mut im::HashMap<u128, Monster>, uuid: u128, monster: Monster)
    ensures
        battle_monsters(*final(m)) == battle_monsters(*old(m)).insert(uuid, monster),
{
    m.insert(uuid, monster);
}

/// `im::HashMap::len`: how many monsters the map holds.
#[verifier::external_body]
pub fn battle_monster_count(m: &im::HashMap<u128, Monster>) -> (res: usize)
    ensures
        res == battle_monsters(*m).dom().len(),
{
    m.len()
}

// ---- the orbs of a battle ----
/// The orbs of a list of orbs, in order.
pub uninterp spec fn orb_items(v: im::Vector<Orb>) -> Seq<Orb>;

/// `im::Vector::len`: how many orbs there are.
#[verifier::external_body]
pub fn orb_count(v: &im::Vector<Orb>) -> (res: usize)
    ensures
        res == orb_items(*v).len(),
{
    v.len()
}

/// `im::Vector::index`: the orb at a position, which must be in the list.
#[verifier::external_body]
pub fn orb_at(v: &im::Vector<Orb>, index: usize) -> (res: Orb)
    requires
        index < orb_items(*v).len(),
    ensures
        res == orb_items(*v)[index as int],
{
    v[index]
}

// ---- lists of identifiers: the discard pile ----
/// The identifiers of a list of identifiers, in order.
pub uninterp spec fn uuid_seq(v: im::Vector<u128>) -> Seq<u128>;

/// `im::Vector::iter`, copied: the identifiers in order.
#[verifier::external_body]
pub fn uuid_seq_items(v: &im::Vector<u128>) -> (res: Vec<u128>)
    ensures
        res@ == uuid_seq(*v),
{
    v.iter().copied().collect()
}

} // verus!
